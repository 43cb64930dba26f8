//! Character-level helpers shared by the parsers and formatters.

use vstd::prelude::*;

verus! {

broadcast use vstd::string::group_string_axioms;

/// The characters of `s`, in order.
pub fn chars_of(s: &str) -> (out: Vec<char>)
    ensures
        out@ == s@,
{
    let mut out: Vec<char> = Vec::new();
    for c in iter: s.chars()
        invariant
            iter.seq() == s@,
            out@ == iter.seq().take(iter.index() as int),
    {
        out.push(c);
    }
    out
}

} // verus!

verus! {

/// Unicode `White_Space` characters, the set that `str::trim` removes.
pub open spec fn is_white_space(c: char) -> bool {
    let u = c as u32;
    ||| 0x09 <= u <= 0x0D
    ||| u == 0x20
    ||| u == 0x85
    ||| u == 0xA0
    ||| u == 0x1680
    ||| 0x2000 <= u <= 0x200A
    ||| u == 0x2028
    ||| u == 0x2029
    ||| u == 0x202F
    ||| u == 0x205F
    ||| u == 0x3000
}

/// `s` without its leading white space.
pub open spec fn trim_start(s: Seq<char>) -> Seq<char>
    decreases s.len(),
{
    if s.len() > 0 && is_white_space(s[0]) {
        trim_start(s.drop_first())
    } else {
        s
    }
}

/// `s` without its trailing white space.
pub open spec fn trim_end(s: Seq<char>) -> Seq<char>
    decreases s.len(),
{
    if s.len() > 0 && is_white_space(s.last()) {
        trim_end(s.drop_last())
    } else {
        s
    }
}

/// `s` without leading and trailing white space.
pub open spec fn trimmed(s: Seq<char>) -> Seq<char> {
    trim_end(trim_start(s))
}

/// Whether `c` is a white-space character.
pub fn is_whitespace(c: char) -> (out: bool)
    ensures
        out == is_white_space(c),
{
    let u = c as u32;
    (0x09 <= u && u <= 0x0D) || u == 0x20 || u == 0x85 || u == 0xA0 || u == 0x1680 || (0x2000
        <= u && u <= 0x200A) || u == 0x2028 || u == 0x2029 || u == 0x202F || u == 0x205F || u
        == 0x3000
}

proof fn lemma_trim_start(s: Seq<char>, k: int)
    requires
        0 <= k <= s.len(),
        forall|i: int| 0 <= i < k ==> is_white_space(#[trigger] s[i]),
        k == s.len() || !is_white_space(s[k]),
    ensures
        trim_start(s) == s.subrange(k, s.len() as int),
    decreases k,
{
    if k == 0 {
        assert(s.subrange(0, s.len() as int) =~= s);
    } else {
        let t = s.drop_first();
        assert forall|i: int| 0 <= i < k - 1 implies is_white_space(#[trigger] t[i]) by {
            assert(t[i] == s[i + 1]);
        }
        if k - 1 < t.len() {
            assert(t[k - 1] == s[k]);
        }
        lemma_trim_start(t, k - 1);
        assert(t.subrange(k - 1, t.len() as int) =~= s.subrange(k, s.len() as int));
    }
}

proof fn lemma_trim_end(s: Seq<char>, k: int)
    requires
        0 <= k <= s.len(),
        forall|i: int| k <= i < s.len() ==> is_white_space(#[trigger] s[i]),
        k == 0 || !is_white_space(s[k - 1]),
    ensures
        trim_end(s) == s.subrange(0, k),
    decreases s.len() - k,
{
    if k == s.len() {
        assert(s.subrange(0, k) =~= s);
    } else {
        let t = s.drop_last();
        assert forall|i: int| k <= i < t.len() implies is_white_space(#[trigger] t[i]) by {
            assert(t[i] == s[i]);
        }
        if k > 0 {
            assert(t[k - 1] == s[k - 1]);
        }
        assert(is_white_space(s[s.len() - 1]));
        lemma_trim_end(t, k);
        assert(t.subrange(0, k) =~= s.subrange(0, k));
    }
}

/// Trimming removes exactly the surrounding white space: any white space
/// before and after a text that neither starts nor ends with white space.
pub proof fn lemma_trimmed_removes_surrounding_space(before: Seq<char>, t: Seq<char>, after: Seq<char>)
    requires
        forall|i: int| 0 <= i < before.len() ==> is_white_space(#[trigger] before[i]),
        forall|i: int| 0 <= i < after.len() ==> is_white_space(#[trigger] after[i]),
        t.len() > 0 ==> !is_white_space(t[0]) && !is_white_space(t.last()),
    ensures
        trimmed(before + t + after) == t,
{
    let s = before + t + after;
    let k = before.len() as int;
    if t.len() > 0 {
        assert forall|i: int| 0 <= i < k implies is_white_space(#[trigger] s[i]) by {
            assert(s[i] == before[i]);
        }
        assert(s[k] == t[0]);
        lemma_trim_start(s, k);
        let u = s.subrange(k, s.len() as int);
        assert(u =~= t + after);
        let e = t.len() as int;
        assert forall|i: int| e <= i < u.len() implies is_white_space(#[trigger] u[i]) by {
            assert(u[i] == after[i - e]);
        }
        assert(u[e - 1] == t.last());
        lemma_trim_end(u, e);
        assert(u.subrange(0, e) =~= t);
    } else {
        assert forall|i: int| 0 <= i < s.len() implies is_white_space(#[trigger] s[i]) by {
            if i < k {
                assert(s[i] == before[i]);
            } else {
                assert(s[i] == after[i - k]);
            }
        }
        lemma_trim_start(s, s.len() as int);
        assert(s.subrange(s.len() as int, s.len() as int) =~= Seq::<char>::empty());
        assert(trim_end(Seq::<char>::empty()) == Seq::<char>::empty());
        assert(t =~= Seq::<char>::empty());
    }
}

/// The bounds of `s` without its leading and trailing white space.
pub fn trim_bounds(s: &Vec<char>) -> (out: (usize, usize))
    ensures
        out.0 <= out.1 <= s@.len(),
        s@.subrange(out.0 as int, out.1 as int) == trimmed(s@),
{
    let mut start: usize = 0;
    while start < s.len() && is_whitespace(s[start])
        invariant
            start <= s@.len(),
            forall|i: int| 0 <= i < start ==> is_white_space(#[trigger] s@[i]),
        decreases s@.len() - start,
    {
        start = start + 1;
    }
    proof {
        lemma_trim_start(s@, start as int);
    }
    let mut end: usize = s.len();
    while end > start && is_whitespace(s[end - 1])
        invariant
            start <= end <= s@.len(),
            forall|i: int| end <= i < s@.len() ==> is_white_space(#[trigger] s@[i]),
        decreases end,
    {
        end = end - 1;
    }
    proof {
        let t = s@.subrange(start as int, s@.len() as int);
        assert forall|i: int| end - start <= i < t.len() implies is_white_space(#[trigger] t[i]) by {
            assert(t[i] == s@[i + start]);
        }
        if end > start {
            assert(t[end - start - 1] == s@[end - 1]);
        }
        lemma_trim_end(t, end - start);
        assert(t.subrange(0, end - start) =~= s@.subrange(start as int, end as int));
    }
    (start, end)
}

/// ASCII hexadecimal digits: `0-9`, `a-f` and `A-F`.
pub open spec fn is_hex_digit(c: char) -> bool {
    ('0' <= c && c <= '9') || ('a' <= c && c <= 'f') || ('A' <= c && c <= 'F')
}

/// The value of a hexadecimal digit.
pub open spec fn hex_digit_value(c: char) -> int {
    if '0' <= c && c <= '9' {
        c as int - '0' as int
    } else if 'a' <= c && c <= 'f' {
        c as int - 'a' as int + 10
    } else {
        c as int - 'A' as int + 10
    }
}

/// The upper-case hexadecimal digit for `n` in `0..16`.
pub open spec fn upper_hex_char(n: int) -> char {
    if n < 10 {
        (n + '0' as int) as char
    } else {
        (n - 10 + 'A' as int) as char
    }
}

/// Whether `c` is a hexadecimal digit.
pub fn is_hex(c: char) -> (out: bool)
    ensures
        out == is_hex_digit(c),
{
    ('0' <= c && c <= '9') || ('a' <= c && c <= 'f') || ('A' <= c && c <= 'F')
}

/// The value of the hexadecimal digit `c`.
pub fn hex_value(c: char) -> (out: u8)
    requires
        is_hex_digit(c),
    ensures
        out == hex_digit_value(c),
        out < 16,
{
    let u = c as u32;
    if '0' <= c && c <= '9' {
        (u - '0' as u32) as u8
    } else if 'a' <= c && c <= 'f' {
        (u - 'a' as u32 + 10) as u8
    } else {
        (u - 'A' as u32 + 10) as u8
    }
}

/// The upper-case hexadecimal digit for `n`.
pub fn upper_hex(n: u8) -> (out: char)
    requires
        n < 16,
    ensures
        out == upper_hex_char(n as int),
{
    if n < 10 {
        (n + 48) as char
    } else {
        (n + 55) as char
    }
}

/// Decoding an upper-case digit gives its value back.
pub proof fn lemma_upper_hex_round_trip(n: int)
    requires
        0 <= n < 16,
    ensures
        is_hex_digit(upper_hex_char(n)),
        hex_digit_value(upper_hex_char(n)) == n,
        !is_white_space(upper_hex_char(n)),
        upper_hex_char(n) != '#',
{
}

/// `String::push`: the contract claims that `c` is appended to the text.
#[verifier::external_body]
pub fn push_char(s: &mut String, c: char)
    ensures
        final(s)@ == old(s)@.push(c),
{
    s.push(c);
}

} // verus!

verus! {

/// Appends the characters of `tail` to `s`.
pub fn push_str(s: &mut String, tail: &str)
    ensures
        final(s)@ == old(s)@ + tail@,
{
    let chars = chars_of(tail);
    let mut i: usize = 0;
    while i < chars.len()
        invariant
            i <= chars@.len(),
            chars@ == tail@,
            s@ == old(s)@ + tail@.take(i as int),
        decreases chars@.len() - i,
    {
        push_char(s, chars[i]);
        assert(tail@.take(i as int).push(chars@[i as int]) =~= tail@.take(i + 1));
        i = i + 1;
    }
    assert(tail@.take(i as int) =~= tail@);
}

/// The text `a` followed by the text `b`.
pub fn joined(a: &str, b: &str) -> (out: String)
    ensures
        out@ == a@ + b@,
{
    let mut out = a.to_owned();
    push_str(&mut out, b);
    out
}

/// Whether the two texts hold the same characters.
pub fn same_text(a: &str, b: &str) -> (out: bool)
    ensures
        out == (a@ == b@),
{
    let x = chars_of(a);
    let y = chars_of(b);
    if x.len() != y.len() {
        return false;
    }
    let mut i: usize = 0;
    while i < x.len()
        invariant
            i <= x@.len(),
            x@.len() == y@.len(),
            x@ == a@,
            y@ == b@,
            forall|j: int| 0 <= j < i ==> x@[j] == y@[j],
        decreases x@.len() - i,
    {
        if x[i] != y[i] {
            return false;
        }
        i = i + 1;
    }
    assert(x@ =~= y@);
    true
}

} // verus!

verus! {

/// What `char::to_uppercase` yields for `c`.
pub uninterp spec fn char_uppercase(c: char) -> Seq<char>;

/// `char::to_uppercase`, collected into a `String`: the contract claims the
/// characters that `char_uppercase` names for `c`, and, as the standard
/// library documents for ASCII, that a lower-case ASCII letter becomes its
/// upper-case letter while any other ASCII character is left as it is.
#[verifier::external_body]
pub fn uppercase_of(c: char) -> (out: String)
    ensures
        out@ == char_uppercase(c),
        'a' <= c <= 'z' ==> out@ == seq![((c as u32) - 32) as char],
        (c as u32) < 128 && !('a' <= c <= 'z') ==> out@ == seq![c],
{
    c.to_uppercase().collect()
}

} // verus!

verus! {

/// What `str::to_lowercase` makes of `s`.
pub uninterp spec fn text_lowercase(s: Seq<char>) -> Seq<char>;

/// `str::to_lowercase`: the contract claims the text that `text_lowercase`
/// names for `s`.
#[verifier::external_body]
pub fn lowercase_of(s: &str) -> (out: String)
    ensures
        out@ == text_lowercase(s@),
{
    s.to_lowercase()
}

/// Whether `needle` occurs in `hay` as a contiguous run.
pub open spec fn contains_text(hay: Seq<char>, needle: Seq<char>) -> bool {
    exists|i: int|
        0 <= i <= hay.len() - needle.len() && #[trigger] hay.subrange(i, i + needle.len())
            == needle
}

/// A text contains every piece of itself, whatever stands before and after
/// it: so it contains itself, each of its prefixes and each of its suffixes.
pub proof fn lemma_contains_every_piece(before: Seq<char>, piece: Seq<char>, after: Seq<char>)
    ensures
        contains_text(before + piece + after, piece),
        contains_text(before + piece, piece),
        contains_text(piece + after, piece),
        contains_text(piece, piece),
{
    let whole = before + piece + after;
    assert(whole.subrange(before.len() as int, before.len() + piece.len() as int) =~= piece);
    let front = before + piece;
    assert(front.subrange(before.len() as int, before.len() + piece.len() as int) =~= piece);
    let back = piece + after;
    assert(back.subrange(0, 0int + piece.len()) =~= piece);
    assert(piece.subrange(0, 0int + piece.len()) =~= piece);
}

/// A text contains a needle exactly when it is made of some text, the needle
/// and some more text, in that order.
pub proof fn lemma_contains_means_framed(hay: Seq<char>, needle: Seq<char>)
    ensures
        contains_text(hay, needle) <==> exists|before: Seq<char>, after: Seq<char>|
            #[trigger] (before + needle + after) == hay,
{
    if contains_text(hay, needle) {
        let i = choose|i: int|
            0 <= i <= hay.len() - needle.len() && #[trigger] hay.subrange(i, i + needle.len())
                == needle;
        let before = hay.subrange(0, i);
        let after = hay.subrange(i + needle.len(), hay.len() as int);
        assert(before + needle + after =~= hay);
    }
    if exists|before: Seq<char>, after: Seq<char>| #[trigger] (before + needle + after) == hay {
        let (before, after) = choose|before: Seq<char>, after: Seq<char>|
            #[trigger] (before + needle + after) == hay;
        lemma_contains_every_piece(before, needle, after);
    }
}

fn occurs_at(hay: &Vec<char>, needle: &Vec<char>, i: usize) -> (out: bool)
    requires
        i + needle@.len() <= hay@.len(),
    ensures
        out == (hay@.subrange(i as int, i + needle@.len()) == needle@),
{
    let hay_len = hay.len();
    let mut j: usize = 0;
    while j < needle.len()
        invariant
            j <= needle@.len(),
            hay_len == hay@.len(),
            i + needle@.len() <= hay@.len(),
            forall|k: int| 0 <= k < j ==> hay@[i + k] == needle@[k],
        decreases needle@.len() - j,
    {
        if hay[i + j] != needle[j] {
            assert(hay@.subrange(i as int, i + needle@.len())[j as int] != needle@[j as int]);
            return false;
        }
        j = j + 1;
    }
    assert(hay@.subrange(i as int, i + needle@.len()) =~= needle@);
    true
}

/// Whether the text `needle` occurs in the text `hay`.
pub fn contains(hay: &str, needle: &str) -> (out: bool)
    ensures
        out == contains_text(hay@, needle@),
{
    let h = chars_of(hay);
    let n = chars_of(needle);
    if n.len() > h.len() {
        return false;
    }
    let last = h.len() - n.len();
    let mut i: usize = 0;
    loop
        invariant
            i <= last,
            last == h@.len() - n@.len(),
            h@ == hay@,
            n@ == needle@,
            forall|k: int| 0 <= k < i ==> #[trigger] h@.subrange(k, k + n@.len()) != n@,
        decreases last - i,
    {
        if occurs_at(&h, &n, i) {
            return true;
        }
        if i == last {
            assert(forall|k: int| 0 <= k <= last ==> #[trigger] h@.subrange(k, k + n@.len()) != n@);
            return false;
        }
        i = i + 1;
    }
}

/// The characters of `chars` from `start` up to `end`, as a `String`.
pub fn string_from(chars: &Vec<char>, start: usize, end: usize) -> (out: String)
    requires
        start <= end <= chars@.len(),
    ensures
        out@ == chars@.subrange(start as int, end as int),
{
    let mut out = String::new();
    let mut i = start;
    while i < end
        invariant
            start <= i <= end <= chars@.len(),
            out@ == chars@.subrange(start as int, i as int),
        decreases end - i,
    {
        push_char(&mut out, chars[i]);
        assert(chars@.subrange(start as int, i as int).push(chars@[i as int]) =~= chars@.subrange(
            start as int,
            i + 1,
        ));
        i = i + 1;
    }
    out
}

} // verus!
