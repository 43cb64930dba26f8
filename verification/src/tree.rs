//! The file tree of the gallery: a fixed table of folders and documents, the
//! set of expanded folders, a keyboard cursor and the selected entry.
//!
//! Entries are named by their position in the table; the table lists every
//! parent before its children.

use std::collections::HashSet;
use vstd::prelude::*;

verus! {

broadcast use vstd::std_specs::hash::group_hash_axioms;

/// Number of entries in the tree table.
pub const NODE_COUNT: usize = 8;

// ---------------------------------------------------------------------------
// The table
// ---------------------------------------------------------------------------

/// Stable identifier of entry `i`.
pub open spec fn node_id_text(i: usize) -> Seq<char> {
    if i == 0 {
        "documents"@
    } else if i == 1 {
        "brief"@
    } else if i == 2 {
        "notes"@
    } else if i == 3 {
        "projects"@
    } else if i == 4 {
        "website"@
    } else if i == 5 {
        "homepage"@
    } else if i == 6 {
        "assets"@
    } else {
        "archive"@
    }
}

/// Display label of entry `i`.
pub open spec fn node_label_text(i: usize) -> Seq<char> {
    if i == 0 {
        "Documents"@
    } else if i == 1 {
        "Project brief.md"@
    } else if i == 2 {
        "Meeting notes.md"@
    } else if i == 3 {
        "Projects"@
    } else if i == 4 {
        "Website"@
    } else if i == 5 {
        "Homepage.md"@
    } else if i == 6 {
        "Assets.md"@
    } else {
        "Archive (unavailable)"@
    }
}

/// The folder that contains entry `i`, if any.
pub open spec fn node_parent(i: usize) -> Option<usize> {
    if i == 1 || i == 2 {
        Some(0)
    } else if i == 4 {
        Some(3)
    } else if i == 5 || i == 6 {
        Some(4)
    } else {
        None
    }
}

/// Nesting depth of entry `i`.
pub open spec fn node_depth(i: usize) -> i32 {
    if i == 1 || i == 2 || i == 4 {
        1
    } else if i == 5 || i == 6 {
        2
    } else {
        0
    }
}

/// Whether entry `i` is a folder.
pub open spec fn node_folder(i: usize) -> bool {
    i == 0 || i == 3 || i == 4
}

/// Whether entry `i` cannot be chosen.
pub open spec fn node_disabled(i: usize) -> bool {
    i == 7
}

fn node_id(i: usize) -> (out: &'static str)
    requires
        i < NODE_COUNT,
    ensures
        out@ == node_id_text(i),
{
    if i == 0 {
        "documents"
    } else if i == 1 {
        "brief"
    } else if i == 2 {
        "notes"
    } else if i == 3 {
        "projects"
    } else if i == 4 {
        "website"
    } else if i == 5 {
        "homepage"
    } else if i == 6 {
        "assets"
    } else {
        "archive"
    }
}

fn node_label(i: usize) -> (out: &'static str)
    requires
        i < NODE_COUNT,
    ensures
        out@ == node_label_text(i),
{
    if i == 0 {
        "Documents"
    } else if i == 1 {
        "Project brief.md"
    } else if i == 2 {
        "Meeting notes.md"
    } else if i == 3 {
        "Projects"
    } else if i == 4 {
        "Website"
    } else if i == 5 {
        "Homepage.md"
    } else if i == 6 {
        "Assets.md"
    } else {
        "Archive (unavailable)"
    }
}

fn parent_of(i: usize) -> (out: Option<usize>)
    ensures
        out == node_parent(i),
{
    if i == 1 || i == 2 {
        Some(0)
    } else if i == 4 {
        Some(3)
    } else if i == 5 || i == 6 {
        Some(4)
    } else {
        None
    }
}

fn depth_of(i: usize) -> (out: i32)
    ensures
        out == node_depth(i),
{
    if i == 1 || i == 2 || i == 4 {
        1
    } else if i == 5 || i == 6 {
        2
    } else {
        0
    }
}

fn is_folder(i: usize) -> (out: bool)
    ensures
        out == node_folder(i),
{
    i == 0 || i == 3 || i == 4
}

fn is_disabled(i: usize) -> (out: bool)
    ensures
        out == node_disabled(i),
{
    i == 7
}

// ---------------------------------------------------------------------------
// Visibility
// ---------------------------------------------------------------------------

/// How many entries a parent chain starting at `p` can still visit.
pub open spec fn chain_measure(p: Option<usize>) -> int {
    match p {
        Some(x) => x as int + 1,
        None => 0,
    }
}

/// Every folder on the chain that starts at `p` and follows parents is
/// expanded.
pub open spec fn open_from(expanded: Set<usize>, p: Option<usize>) -> bool
    decreases chain_measure(p),
{
    match p {
        Some(x) => expanded.contains(x) && open_from(expanded, node_parent(x)),
        None => true,
    }
}

/// Entry `i` is shown: all of its enclosing folders are expanded.
pub open spec fn is_shown(expanded: Set<usize>, i: usize) -> bool {
    open_from(expanded, node_parent(i))
}

/// The shown entries from position `i` of the table on, in table order.
pub open spec fn rows_from(expanded: Set<usize>, i: usize) -> Seq<usize>
    decreases NODE_COUNT - i,
{
    if i >= NODE_COUNT {
        Seq::empty()
    } else if is_shown(expanded, i) {
        seq![i].add(rows_from(expanded, (i + 1) as usize))
    } else {
        rows_from(expanded, (i + 1) as usize)
    }
}

/// The rows of the tree, top to bottom: every shown entry in table order.
pub open spec fn visible_rows(expanded: Set<usize>) -> Seq<usize> {
    rows_from(expanded, 0)
}

/// The first position at or after `k` where `s` holds `x`.
pub open spec fn index_from(s: Seq<usize>, x: usize, k: int) -> Option<int>
    decreases s.len() - k,
{
    if k < 0 || k >= s.len() {
        None
    } else if s[k] == x {
        Some(k)
    } else {
        index_from(s, x, k + 1)
    }
}

/// One row as the tree shows it.
#[derive(Clone, Copy, Debug, PartialEq, Eq)]
pub struct VisibleNode {
    pub id: &'static str,
    pub label: &'static str,
    pub depth: i32,
    pub folder: bool,
    pub expanded: bool,
    pub disabled: bool,
}

/// `row` shows entry `i` of the table under the expansion set `expanded`.
pub open spec fn describes(row: VisibleNode, expanded: Set<usize>, i: usize) -> bool {
    &&& row.id@ == node_id_text(i)
    &&& row.label@ == node_label_text(i)
    &&& row.depth == node_depth(i)
    &&& row.folder == node_folder(i)
    &&& row.expanded == expanded.contains(i)
    &&& row.disabled == node_disabled(i)
}

// ---------------------------------------------------------------------------
// State and transitions
// ---------------------------------------------------------------------------

/// Expanded folders, the keyboard cursor and the selected entry.
pub struct TreeState {
    expanded: HashSet<usize>,
    cursor: usize,
    selected: Option<usize>,
}

/// The abstract state of a [`TreeState`].
pub struct TreeView {
    pub expanded: Set<usize>,
    pub cursor: usize,
    pub selected: Option<usize>,
}

impl View for TreeState {
    type V = TreeView;

    closed spec fn view(&self) -> TreeView {
        TreeView { expanded: self.expanded@, cursor: self.cursor, selected: self.selected }
    }
}

impl TreeView {
    /// The cursor and the selection name entries of the table, and the
    /// cursor rests on a shown entry that can be chosen.
    pub open spec fn well_formed(self) -> bool {
        &&& self.cursor < NODE_COUNT
        &&& !node_disabled(self.cursor)
        &&& is_shown(self.expanded, self.cursor)
        &&& (self.selected matches Some(s) ==> s < NODE_COUNT)
    }
}

/// The row of the cursor, or the first row when the cursor is not shown.
pub open spec fn cursor_position(v: TreeView) -> int {
    match index_from(visible_rows(v.expanded), v.cursor, 0) {
        Some(k) => k,
        None => 0,
    }
}

/// The first enabled row met when stepping from row `k` by `step`, before
/// leaving the rows.
pub open spec fn scan(rows: Seq<usize>, k: int, step: int) -> Option<usize>
    decreases (if step > 0 {
        rows.len() - k
    } else {
        k + 1
    }),
    when step == 1 || step == -1
{
    let next = k + step;
    if next < 0 || next >= rows.len() {
        None
    } else if !node_disabled(rows[next]) {
        Some(rows[next])
    } else {
        scan(rows, next, step)
    }
}

/// The sign of `delta`.
pub open spec fn sign(delta: i32) -> int {
    if delta > 0 {
        1
    } else if delta < 0 {
        -1
    } else {
        0
    }
}

/// The cursor after moving by `delta` rows: one row in the direction of
/// `delta`, skipping disabled rows, and staying put at either end.
pub open spec fn moved(v: TreeView, delta: i32) -> TreeView {
    let rows = visible_rows(v.expanded);
    let start = cursor_position(v);
    let target = if sign(delta) == 0 {
        if 0 <= start < rows.len() && !node_disabled(rows[start]) {
            Some(rows[start])
        } else {
            None
        }
    } else {
        scan(rows, start, sign(delta))
    };
    match target {
        Some(c) => TreeView { cursor: c, ..v },
        None => v,
    }
}

/// The state after choosing row `index`: an enabled row gets the cursor and
/// the selection, and a folder row is expanded or collapsed.
pub open spec fn activated(v: TreeView, index: int) -> TreeView {
    let rows = visible_rows(v.expanded);
    if index < 0 || index >= rows.len() || node_disabled(rows[index]) {
        v
    } else {
        let r = rows[index];
        TreeView {
            expanded: if !node_folder(r) {
                v.expanded
            } else if v.expanded.contains(r) {
                v.expanded.remove(r)
            } else {
                v.expanded.insert(r)
            },
            cursor: r,
            selected: Some(r),
        }
    }
}

/// The state after the "left" key: an expanded folder under the cursor
/// collapses; otherwise the cursor goes to the enclosing folder.
pub open spec fn went_left(v: TreeView) -> TreeView {
    let c = v.cursor;
    if node_folder(c) && v.expanded.contains(c) {
        TreeView { expanded: v.expanded.remove(c), ..v }
    } else {
        match node_parent(c) {
            Some(p) => TreeView { cursor: p, ..v },
            None => v,
        }
    }
}

/// The first entry, in table order, at or after position `j` whose parent
/// is `c`.
pub open spec fn child_from(c: usize, j: usize) -> Option<usize>
    decreases NODE_COUNT - j,
{
    if j >= NODE_COUNT {
        None
    } else if node_parent(j) == Some(c) {
        Some(j)
    } else {
        child_from(c, (j + 1) as usize)
    }
}

/// The first child of `c` in table order.
pub open spec fn first_child(c: usize) -> Option<usize> {
    child_from(c, 0)
}

/// The state after the "right" key: a collapsed folder under the cursor
/// expands; an expanded one hands the cursor to its first child.
pub open spec fn went_right(v: TreeView) -> TreeView {
    let c = v.cursor;
    if !node_folder(c) {
        v
    } else if !v.expanded.contains(c) {
        TreeView { expanded: v.expanded.insert(c), ..v }
    } else {
        match first_child(c) {
            Some(ch) => TreeView { cursor: ch, ..v },
            None => v,
        }
    }
}

/// The state of a fresh tree: both top-level folders expanded, the cursor on
/// the first entry, nothing selected.
pub open spec fn initial_view() -> TreeView {
    TreeView { expanded: set![0usize, 3usize], cursor: 0, selected: None }
}

proof fn lemma_rows_from_facts(e: Set<usize>, i: usize)
    ensures
        forall|k: int|
            0 <= k < rows_from(e, i).len() ==> i <= #[trigger] rows_from(e, i)[k] < NODE_COUNT,
        forall|x: usize|
            i <= x < NODE_COUNT && is_shown(e, x) ==> #[trigger] rows_from(e, i).contains(x),
        forall|a: int, b: int|
            0 <= a < b < rows_from(e, i).len() ==> rows_from(e, i)[a] < rows_from(e, i)[b],
    decreases NODE_COUNT - i,
{
    if i < NODE_COUNT {
        lemma_rows_from_facts(e, (i + 1) as usize);
        let rest = rows_from(e, (i + 1) as usize);
        if is_shown(e, i) {
            let s = seq![i].add(rest);
            assert(rows_from(e, i) == s);
            assert forall|k: int| 0 <= k < s.len() implies i <= #[trigger] s[k] < NODE_COUNT by {
                if k > 0 {
                    assert(s[k] == rest[k - 1]);
                }
            }
            assert forall|x: usize| i <= x < NODE_COUNT && is_shown(e, x) implies #[trigger] s.contains(
                x,
            ) by {
                if x == i {
                    assert(s[0] == x);
                } else {
                    assert(rest.contains(x));
                    let k = choose|k: int| 0 <= k < rest.len() && rest[k] == x;
                    assert(s[k + 1] == x);
                }
            }
            assert forall|a: int, b: int| 0 <= a < b < s.len() implies s[a] < s[b] by {
                assert(s[b] == rest[b - 1]);
                if a > 0 {
                    assert(s[a] == rest[a - 1]);
                }
            }
        }
    }
}

/// The rows are exactly the shown entries, each once, in table order.
pub proof fn lemma_visible_rows(e: Set<usize>)
    ensures
        forall|k: int|
            0 <= k < visible_rows(e).len() ==> #[trigger] visible_rows(e)[k] < NODE_COUNT
                && is_shown(e, visible_rows(e)[k]),
        forall|x: usize| x < NODE_COUNT && is_shown(e, x) ==> #[trigger] visible_rows(e).contains(x),
        forall|a: int, b: int|
            0 <= a < b < visible_rows(e).len() ==> visible_rows(e)[a] < visible_rows(e)[b],
        visible_rows(e).len() > 0 && visible_rows(e)[0] == 0,
{
    lemma_rows_from_facts(e, 0);
    lemma_rows_from_shown(e, 0);
    assert(is_shown(e, 0));
    assert(rows_from(e, 0) == seq![0usize].add(rows_from(e, 1)));
}

proof fn lemma_rows_from_shown(e: Set<usize>, i: usize)
    ensures
        forall|k: int|
            0 <= k < rows_from(e, i).len() ==> is_shown(e, #[trigger] rows_from(e, i)[k]),
    decreases NODE_COUNT - i,
{
    if i < NODE_COUNT {
        lemma_rows_from_shown(e, (i + 1) as usize);
        let rest = rows_from(e, (i + 1) as usize);
        if is_shown(e, i) {
            let s = seq![i].add(rest);
            assert forall|k: int| 0 <= k < s.len() implies is_shown(e, #[trigger] s[k]) by {
                if k > 0 {
                    assert(s[k] == rest[k - 1]);
                }
            }
        }
    }
}

impl TreeState {
    #[verifier::type_invariant]
    spec fn inv(self) -> bool {
        self@.well_formed()
    }

    /// A fresh tree: both top-level folders expanded, the cursor on the
    /// first entry, nothing selected.
    pub fn new() -> (tree: Self)
        ensures
            tree@ == initial_view(),
    {
        let mut expanded: HashSet<usize> = HashSet::new();
        expanded.insert(0);
        expanded.insert(3);
        assert(expanded@ == set![0usize, 3usize]);
        TreeState { expanded, cursor: 0, selected: None }
    }

    fn shown(&self, i: usize) -> (out: bool)
        requires
            i < NODE_COUNT,
        ensures
            out == is_shown(self@.expanded, i),
    {
        let mut parent = parent_of(i);
        loop
            invariant
                is_shown(self@.expanded, i) == open_from(self@.expanded, parent),
                parent matches Some(p) ==> p < NODE_COUNT,
            decreases chain_measure(parent),
        {
            match parent {
                None => {
                    return true;
                },
                Some(p) => {
                    if !self.expanded.contains(&p) {
                        return false;
                    }
                    parent = parent_of(p);
                },
            }
        }
    }

    /// The table positions of the rows, top to bottom.
    fn visible_indices(&self) -> (out: Vec<usize>)
        ensures
            out@ == visible_rows(self@.expanded),
    {
        let ghost e = self@.expanded;
        let mut out: Vec<usize> = Vec::new();
        let mut i: usize = 0;
        while i < NODE_COUNT
            invariant
                i <= NODE_COUNT,
                e == self@.expanded,
                visible_rows(e) == out@.add(rows_from(e, i)),
            decreases NODE_COUNT - i,
        {
            if self.shown(i) {
                out.push(i);
            }
            proof {
                assert(out@.add(rows_from(e, (i + 1) as usize)) =~= visible_rows(e));
            }
            i = i + 1;
        }
        assert(rows_from(e, i) =~= Seq::<usize>::empty());
        assert(out@ =~= visible_rows(e));
        out
    }

    /// The rows of the tree, top to bottom: every entry whose enclosing
    /// folders are all expanded, in table order.
    pub fn visible(&self) -> (out: Vec<VisibleNode>)
        ensures
            out@.len() == visible_rows(self@.expanded).len(),
            forall|k: int|
                0 <= k < out@.len() ==> describes(
                    #[trigger] out@[k],
                    self@.expanded,
                    visible_rows(self@.expanded)[k],
                ),
    {
        let rows = self.visible_indices();
        proof {
            lemma_visible_rows(self@.expanded);
        }
        let mut out: Vec<VisibleNode> = Vec::new();
        let mut k: usize = 0;
        while k < rows.len()
            invariant
                k <= rows@.len(),
                rows@ == visible_rows(self@.expanded),
                forall|j: int| 0 <= j < rows@.len() ==> #[trigger] rows@[j] < NODE_COUNT,
                out@.len() == k,
                forall|j: int|
                    0 <= j < k ==> describes(#[trigger] out@[j], self@.expanded, rows@[j]),
            decreases rows@.len() - k,
        {
            let i = rows[k];
            let row = VisibleNode {
                id: node_id(i),
                label: node_label(i),
                depth: depth_of(i),
                folder: is_folder(i),
                expanded: self.expanded.contains(&i),
                disabled: is_disabled(i),
            };
            out.push(row);
            k = k + 1;
        }
        out
    }

    fn position_in(rows: &Vec<usize>, x: usize) -> (out: usize)
        requires
            rows@.len() <= NODE_COUNT,
        ensures
            out == match index_from(rows@, x, 0) {
                Some(k) => k,
                None => 0,
            },
    {
        let mut k: usize = 0;
        while k < rows.len()
            invariant
                k <= rows@.len(),
                index_from(rows@, x, 0) == index_from(rows@, x, k as int),
            decreases rows@.len() - k,
        {
            if rows[k] == x {
                return k;
            }
            k = k + 1;
        }
        0
    }

    /// The row that holds the cursor, or the first row when the cursor's
    /// entry is not shown.
    pub fn cursor_index(&self) -> (out: usize)
        ensures
            out == cursor_position(self@),
            out < visible_rows(self@.expanded).len(),
            visible_rows(self@.expanded)[out as int] == self@.cursor,
    {
        proof {
            use_type_invariant(self);
            lemma_cursor_is_on_a_row(self@);
        }
        let rows = self.visible_indices();
        proof {
            lemma_visible_rows(self@.expanded);
            lemma_rows_len(self@.expanded, 0);
        }
        Self::position_in(&rows, self.cursor)
    }

    /// The label of the selected entry.
    pub fn selected_label(&self) -> (out: Option<&'static str>)
        ensures
            match (out, self@.selected) {
                (Some(l), Some(s)) => l@ == node_label_text(s),
                (None, None) => true,
                _ => false,
            },
    {
        proof {
            use_type_invariant(self);
        }
        match self.selected {
            Some(s) => Some(node_label(s)),
            None => None,
        }
    }

    /// The identifier of the selected entry.
    pub fn selected_id(&self) -> (out: Option<&'static str>)
        ensures
            match (out, self@.selected) {
                (Some(l), Some(s)) => l@ == node_id_text(s),
                (None, None) => true,
                _ => false,
            },
    {
        proof {
            use_type_invariant(self);
        }
        match self.selected {
            Some(s) => Some(node_id(s)),
            None => None,
        }
    }

    /// Moves the cursor one row towards `delta`'s sign, passing over
    /// disabled rows; at either end the cursor stays where it is.
    pub fn move_cursor(&mut self, delta: i32)
        ensures
            final(self)@ == moved(old(self)@, delta),
    {
        proof {
            use_type_invariant(&*self);
            lemma_visible_rows(self@.expanded);
            lemma_rows_len(self@.expanded, 0);
        }
        let ghost v = self@;
        let rows = self.visible_indices();
        let start = self.cursor_index();
        proof {
            if index_from(rows@, v.cursor, 0) is Some {
                lemma_index_from_found(rows@, v.cursor, 0);
            }
        }
        let step: i32 = if delta > 0 {
            1
        } else if delta < 0 {
            -1
        } else {
            0
        };
        let len = rows.len() as i32;
        let mut index = start as i32;
        loop
            invariant
                rows@ == visible_rows(v.expanded),
                rows@.len() <= NODE_COUNT,
                len == rows@.len(),
                forall|j: int| 0 <= j < rows@.len() ==> #[trigger] rows@[j] < NODE_COUNT,
                rows@.len() > 0 && rows@[0] == 0,
                0 <= index < len,
                step == sign(delta),
                step == 0 ==> index == start,
                start == cursor_position(v),
                step != 0 ==> scan(rows@, start as int, step as int) == scan(
                    rows@,
                    index as int,
                    step as int,
                ),
                step == 0 ==> !node_disabled(rows@[index as int]),
                self@ == v,
                old(self)@ == v,
                v.well_formed(),
            decreases (if step > 0 {
                len - index
            } else if step < 0 {
                index + 1
            } else {
                1
            }),
        {
            let next = index + step;
            if next < 0 || next >= len {
                proof {
                    assert(step != 0);
                    assert(scan(rows@, index as int, step as int) is None);
                    assert(scan(visible_rows(v.expanded), cursor_position(v), sign(delta)) is None);
                    assert(moved(v, delta) == v);
                }
                return;
            }
            index = next;
            let i = rows[index as usize];
            if !is_disabled(i) {
                proof {
                    if step != 0 {
                        assert(scan(rows@, (index - step) as int, step as int) == Some(i));
                        assert(scan(visible_rows(v.expanded), cursor_position(v), sign(delta)) == Some(i));
                    }
                    assert(moved(v, delta) == TreeView { cursor: i, ..v });
                    lemma_visible_rows(v.expanded);
                    assert(is_shown(v.expanded, rows@[index as int]));
                }
                self.cursor = i;
                return;
            }
            proof {
                assert(step != 0);
                assert(scan(rows@, (index - step) as int, step as int) == scan(
                    rows@,
                    index as int,
                    step as int,
                ));
            }
        }
    }

    /// Chooses row `index`: an enabled row takes the cursor and the
    /// selection, and a folder row toggles between expanded and collapsed.
    /// Out-of-range and disabled rows change nothing.
    pub fn activate(&mut self, index: usize)
        ensures
            final(self)@ == activated(old(self)@, index as int),
    {
        proof {
            use_type_invariant(&*self);
            lemma_visible_rows(self@.expanded);
        }
        let ghost v = self@;
        let rows = self.visible_indices();
        if index >= rows.len() {
            return;
        }
        let r = rows[index];
        if is_disabled(r) {
            return;
        }
        let mut current = TreeState::new();
        std::mem::swap(&mut current, self);
        let TreeState { mut expanded, cursor: _, selected: _ } = current;
        assert(expanded@ == v.expanded);
        if is_folder(r) {
            if !expanded.remove(&r) {
                assert(expanded@ =~= v.expanded);
                expanded.insert(r);
            }
        }
        let ghost target = activated(v, index as int);
        assert(expanded@ =~= target.expanded);
        proof {
            lemma_shown_up_to(v.expanded, expanded@, r, r);
        }
        *self = TreeState { expanded, cursor: r, selected: Some(r) };
    }

    /// The "left" key: collapses the folder under the cursor if it is
    /// expanded, and otherwise moves the cursor to the enclosing folder.
    pub fn left(&mut self)
        ensures
            final(self)@ == went_left(old(self)@),
    {
        proof {
            use_type_invariant(&*self);
        }
        let ghost v = self@;
        let c = self.cursor;
        if is_folder(c) && self.expanded.contains(&c) {
            let mut current = TreeState::new();
            std::mem::swap(&mut current, self);
            let TreeState { mut expanded, cursor, selected } = current;
            expanded.remove(&c);
            assert(expanded@ =~= went_left(v).expanded);
            proof {
                lemma_shown_up_to(v.expanded, expanded@, c, c);
            }
            *self = TreeState { expanded, cursor, selected };
            return;
        }
        match parent_of(c) {
            Some(p) => {
                self.cursor = p;
            },
            None => {},
        }
    }

    fn first_child_of(c: usize) -> (out: Option<usize>)
        ensures
            out == first_child(c),
            out matches Some(ch) ==> ch < NODE_COUNT && node_parent(ch) == Some(c),
    {
        let mut j: usize = 0;
        while j < NODE_COUNT
            invariant
                j <= NODE_COUNT,
                first_child(c) == child_from(c, j),
            decreases NODE_COUNT - j,
        {
            if parent_of(j) == Some(c) {
                return Some(j);
            }
            j = j + 1;
        }
        None
    }

    /// The "right" key: expands the folder under the cursor, or, when it is
    /// already expanded, moves the cursor to its first child.
    pub fn right(&mut self)
        ensures
            final(self)@ == went_right(old(self)@),
    {
        proof {
            use_type_invariant(&*self);
        }
        let ghost v = self@;
        let c = self.cursor;
        if is_folder(c) {
            let mut current = TreeState::new();
            std::mem::swap(&mut current, self);
            let TreeState { mut expanded, cursor, selected } = current;
            let inserted = expanded.insert(c);
            if inserted {
                assert(expanded@ =~= went_right(v).expanded);
            } else {
                assert(expanded@ =~= v.expanded);
            }
            proof {
                lemma_shown_up_to(v.expanded, expanded@, c, c);
            }
            *self = TreeState { expanded, cursor, selected };
            if !inserted {
                match Self::first_child_of(c) {
                    Some(ch) => {
                        proof {
                            assert(node_parent(ch) == Some(c));
                            assert(is_shown(self@.expanded, ch));
                        }
                        self.cursor = ch;
                    },
                    None => {},
                }
            }
        }
    }
}

impl Default for TreeState {
    fn default() -> (tree: Self)
        ensures
            tree@ == initial_view(),
    {
        Self::new()
    }
}

proof fn lemma_rows_len(e: Set<usize>, i: usize)
    ensures
        rows_from(e, i).len() <= NODE_COUNT - i || i >= NODE_COUNT,
        i >= NODE_COUNT ==> rows_from(e, i).len() == 0,
    decreases NODE_COUNT - i,
{
    if i < NODE_COUNT {
        lemma_rows_len(e, (i + 1) as usize);
    }
}

proof fn lemma_index_from_found(s: Seq<usize>, x: usize, k: int)
    requires
        index_from(s, x, k) is Some,
    ensures
        0 <= index_from(s, x, k)->0 < s.len(),
        s[index_from(s, x, k)->0] == x,
    decreases s.len() - k,
{
    if 0 <= k < s.len() && s[k] != x {
        lemma_index_from_found(s, x, k + 1);
    }
}

} // verus!

verus! {

/// Whether entry `x` lies on the chain of folders that starts at `p`.
pub open spec fn on_chain(p: Option<usize>, x: usize) -> bool
    decreases chain_measure(p),
{
    match p {
        Some(y) => y == x || on_chain(node_parent(y), x),
        None => false,
    }
}

proof fn lemma_chain_below(p: Option<usize>, x: usize)
    requires
        p matches Some(y) && y < x,
    ensures
        !on_chain(p, x),
    decreases chain_measure(p),
{
    let y = p->0;
    if node_parent(y) is Some {
        assert(node_parent(y)->0 < y);
        lemma_chain_below(node_parent(y), x);
    }
    assert(on_chain(p, x) == (y == x || on_chain(node_parent(y), x)));
}

proof fn lemma_open_from_ignores(e: Set<usize>, e2: Set<usize>, p: Option<usize>, x: usize)
    requires
        !on_chain(p, x),
        forall|y: usize| y != x ==> (e.contains(y) <==> e2.contains(y)),
    ensures
        open_from(e, p) == open_from(e2, p),
    decreases chain_measure(p),
{
    if let Some(y) = p {
        lemma_open_from_ignores(e, e2, node_parent(y), x);
    }
}

/// Changing whether `r` is expanded changes nothing about entries at or
/// before `r` in the table.
proof fn lemma_shown_up_to(e: Set<usize>, e2: Set<usize>, r: usize, x: usize)
    requires
        x <= r,
        forall|y: usize| y != r ==> (e.contains(y) <==> e2.contains(y)),
    ensures
        is_shown(e, x) == is_shown(e2, x),
{
    if let Some(p) = node_parent(x) {
        assert(p < x);
        lemma_chain_below(node_parent(x), r);
        lemma_open_from_ignores(e, e2, node_parent(x), r);
    }
}

/// The shown entries from position `j` up to, but not including, `r`.
pub open spec fn rows_between(e: Set<usize>, j: usize, r: usize) -> Seq<usize>
    decreases r - j,
{
    if j >= r {
        Seq::empty()
    } else if is_shown(e, j) {
        seq![j].add(rows_between(e, (j + 1) as usize, r))
    } else {
        rows_between(e, (j + 1) as usize, r)
    }
}

proof fn lemma_rows_split(e: Set<usize>, j: usize, r: usize)
    requires
        j <= r <= NODE_COUNT,
    ensures
        rows_from(e, j) == rows_between(e, j, r).add(rows_from(e, r)),
        forall|k: int| 0 <= k < rows_between(e, j, r).len() ==> #[trigger] rows_between(e, j, r)[k] < r,
    decreases r - j,
{
    if j < r {
        lemma_rows_split(e, (j + 1) as usize, r);
        let b = rows_between(e, (j + 1) as usize, r);
        if is_shown(e, j) {
            assert(seq![j].add(b).add(rows_from(e, r)) =~= seq![j].add(b.add(rows_from(e, r))));
            assert forall|k: int| 0 <= k < seq![j].add(b).len() implies #[trigger] seq![j].add(b)[k] < r by {
                if k > 0 {
                    assert(seq![j].add(b)[k] == b[k - 1]);
                }
            }
        }
    } else {
        assert(rows_between(e, j, r).add(rows_from(e, r)) =~= rows_from(e, r));
    }
}

proof fn lemma_rows_between_agree(e: Set<usize>, e2: Set<usize>, j: usize, r: usize)
    requires
        forall|y: usize| y != r ==> (e.contains(y) <==> e2.contains(y)),
    ensures
        rows_between(e, j, r) == rows_between(e2, j, r),
    decreases r - j,
{
    if j < r {
        lemma_shown_up_to(e, e2, r, j);
        lemma_rows_between_agree(e, e2, (j + 1) as usize, r);
    }
}

/// Expanding or collapsing the entry of row `i` leaves that entry on row `i`.
proof fn lemma_toggle_keeps_row(e: Set<usize>, e2: Set<usize>, i: int)
    requires
        0 <= i < visible_rows(e).len(),
        forall|y: usize| y != visible_rows(e)[i] ==> (e.contains(y) <==> e2.contains(y)),
    ensures
        0 <= i < visible_rows(e2).len(),
        visible_rows(e2)[i] == visible_rows(e)[i],
{
    lemma_visible_rows(e);
    let r = visible_rows(e)[i];
    lemma_rows_split(e, 0, r);
    lemma_rows_split(e2, 0, r);
    lemma_rows_between_agree(e, e2, 0, r);
    lemma_shown_up_to(e, e2, r, r);
    let b = rows_between(e, 0, r);
    assert(is_shown(e, r));
    assert(rows_from(e, r) == seq![r].add(rows_from(e, (r + 1) as usize)));
    assert(rows_from(e2, r) == seq![r].add(rows_from(e2, (r + 1) as usize)));
    assert(visible_rows(e)[b.len() as int] == r);
    assert(visible_rows(e2)[b.len() as int] == r);
    if i < b.len() {
        assert(visible_rows(e)[i] == b[i]);
    } else if i > b.len() {
        assert(visible_rows(e)[b.len() as int] < visible_rows(e)[i]);
    }
}

/// A fresh tree is well formed, and every tree operation keeps it so: the
/// cursor always rests on a shown row that can be chosen.
pub proof fn lemma_transitions_keep_well_formed(v: TreeView, delta: i32, index: int)
    requires
        v.well_formed(),
    ensures
        initial_view().well_formed(),
        moved(v, delta).well_formed(),
        activated(v, index).well_formed(),
        went_left(v).well_formed(),
        went_right(v).well_formed(),
{
    let e = v.expanded;
    let rows = visible_rows(e);
    lemma_visible_rows(e);
    // moving
    let start = cursor_position(v);
    if index_from(rows, v.cursor, 0) is Some {
        lemma_index_from_found(rows, v.cursor, 0);
    }
    if sign(delta) != 0 {
        lemma_scan_result(rows, start, sign(delta));
    }
    // activating
    if 0 <= index < rows.len() && !node_disabled(rows[index]) {
        let r = rows[index];
        let e2 = activated(v, index).expanded;
        lemma_shown_up_to(e, e2, r, r);
    }
    // left
    let c = v.cursor;
    if node_folder(c) && e.contains(c) {
        lemma_shown_up_to(e, e.remove(c), c, c);
    }
    // right
    if node_folder(c) && !e.contains(c) {
        lemma_shown_up_to(e, e.insert(c), c, c);
    }
    if node_folder(c) && e.contains(c) {
        lemma_first_child(c);
    }
}

proof fn lemma_scan_result(rows: Seq<usize>, k: int, step: int)
    requires
        step == 1 || step == -1,
    ensures
        scan(rows, k, step) matches Some(x) ==> rows.contains(x) && !node_disabled(x),
    decreases (if step > 0 {
        rows.len() - k
    } else {
        k + 1
    }),
{
    let next = k + step;
    if 0 <= next < rows.len() {
        if node_disabled(rows[next]) {
            lemma_scan_result(rows, next, step);
        }
    }
}

proof fn lemma_first_child(c: usize)
    ensures
        first_child(c) matches Some(ch) ==> ch < NODE_COUNT && node_parent(ch) == Some(c)
            && !node_disabled(ch),
{
    lemma_child_from(c, 0);
}

proof fn lemma_child_from(c: usize, j: usize)
    ensures
        child_from(c, j) matches Some(ch) ==> ch < NODE_COUNT && node_parent(ch) == Some(c),
    decreases NODE_COUNT - j,
{
    if j < NODE_COUNT && node_parent(j) != Some(c) {
        lemma_child_from(c, (j + 1) as usize);
    }
}

/// Moving the cursor and the arrow keys never change the selection, and
/// moving never expands or collapses a folder.
pub proof fn lemma_navigation_keeps_selection(v: TreeView, delta: i32)
    ensures
        moved(v, delta).selected == v.selected,
        moved(v, delta).expanded == v.expanded,
        went_left(v).selected == v.selected,
        went_right(v).selected == v.selected,
{
}

/// Choosing the same enabled folder row twice leaves every folder as it
/// was, with that folder selected and under the cursor.
pub proof fn lemma_activate_twice_restores_expansion(v: TreeView, index: int)
    requires
        0 <= index < visible_rows(v.expanded).len(),
        !node_disabled(visible_rows(v.expanded)[index]),
    ensures
        activated(activated(v, index), index).expanded == v.expanded,
        activated(activated(v, index), index).selected == Some(visible_rows(v.expanded)[index]),
{
    let e = v.expanded;
    let r = visible_rows(e)[index];
    let w = activated(v, index);
    lemma_toggle_keeps_row(e, w.expanded, index);
    if node_folder(r) {
        if e.contains(r) {
            assert(w.expanded.insert(r) =~= e);
        } else {
            assert(w.expanded.remove(r) =~= e);
        }
    }
}

/// In a well-formed state the cursor's entry is one of the rows, and the
/// cursor row is where it stands.
pub proof fn lemma_cursor_is_on_a_row(v: TreeView)
    requires
        v.well_formed(),
    ensures
        0 <= cursor_position(v) < visible_rows(v.expanded).len(),
        visible_rows(v.expanded)[cursor_position(v)] == v.cursor,
{
    lemma_visible_rows(v.expanded);
    assert(visible_rows(v.expanded).contains(v.cursor));
    lemma_index_complete(visible_rows(v.expanded), v.cursor, 0);
    lemma_index_from_found(visible_rows(v.expanded), v.cursor, 0);
}

proof fn lemma_index_complete(s: Seq<usize>, x: usize, k: int)
    requires
        0 <= k,
        exists|j: int| k <= j < s.len() && s[j] == x,
    ensures
        index_from(s, x, k) is Some,
    decreases s.len() - k,
{
    if s[k] != x {
        lemma_index_complete(s, x, k + 1);
    }
}

/// The left and right keys undo each other on a folder under the cursor:
/// left then right on an expanded folder, or right then left on a collapsed
/// one, gives back the state as it was.
pub proof fn lemma_left_and_right_undo_each_other(v: TreeView)
    requires
        node_folder(v.cursor),
    ensures
        v.expanded.contains(v.cursor) ==> went_right(went_left(v)) == v,
        !v.expanded.contains(v.cursor) ==> went_left(went_right(v)) == v,
{
    let c = v.cursor;
    if v.expanded.contains(c) {
        assert(v.expanded.remove(c).insert(c) =~= v.expanded);
    } else {
        assert(v.expanded.insert(c).remove(c) =~= v.expanded);
    }
}

/// The left key on an expanded folder collapses it and nothing else: the
/// cursor stays on the folder, the folder's children are hidden, and every
/// other folder keeps its state. Anywhere else it expands or collapses
/// nothing and moves the cursor to the enclosing folder, which in a
/// well-formed state is an expanded folder; on a top-level entry it does
/// nothing.
pub proof fn lemma_left_key(v: TreeView)
    ensures
        node_folder(v.cursor) && v.expanded.contains(v.cursor) ==> {
            &&& went_left(v).cursor == v.cursor
            &&& !went_left(v).expanded.contains(v.cursor)
            &&& forall|f: usize| f != v.cursor ==> (went_left(v).expanded.contains(f) <==> v.expanded.contains(f))
            &&& forall|i: usize| node_parent(i) == Some(v.cursor) ==> !is_shown(went_left(v).expanded, i)
        },
        !(node_folder(v.cursor) && v.expanded.contains(v.cursor)) ==> {
            &&& went_left(v).expanded == v.expanded
            &&& (node_parent(v.cursor) matches Some(p) ==> went_left(v).cursor == p)
            &&& (node_parent(v.cursor) is None ==> went_left(v).cursor == v.cursor)
        },
        v.well_formed() && !(node_folder(v.cursor) && v.expanded.contains(v.cursor)) && node_parent(
            v.cursor,
        ) is Some ==> node_folder(went_left(v).cursor) && went_left(v).expanded.contains(went_left(v).cursor),
        went_left(v).selected == v.selected,
{
}

/// The right key on a collapsed folder expands it and nothing else: the
/// cursor stays, and when the folder is shown its children are shown. On an
/// expanded folder it expands nothing and moves the cursor to the folder's
/// first child in table order. On an entry that is not a folder it does
/// nothing.
pub proof fn lemma_right_key(v: TreeView)
    ensures
        node_folder(v.cursor) && !v.expanded.contains(v.cursor) ==> {
            &&& went_right(v).cursor == v.cursor
            &&& went_right(v).expanded.contains(v.cursor)
            &&& forall|f: usize| f != v.cursor ==> (went_right(v).expanded.contains(f) <==> v.expanded.contains(f))
            &&& is_shown(v.expanded, v.cursor) ==> forall|i: usize| node_parent(i) == Some(v.cursor) ==> is_shown(went_right(v).expanded, i)
        },
        node_folder(v.cursor) && v.expanded.contains(v.cursor) ==> {
            &&& went_right(v).expanded == v.expanded
            &&& (exists|i: usize| i < NODE_COUNT && node_parent(i) == Some(v.cursor)) ==> {
                &&& node_parent(went_right(v).cursor) == Some(v.cursor)
                &&& forall|j: usize| j < went_right(v).cursor ==> node_parent(j) != Some(v.cursor)
            }
        },
        !node_folder(v.cursor) ==> went_right(v) == v,
        went_right(v).selected == v.selected,
{
    let c = v.cursor;
    if node_folder(c) && !v.expanded.contains(c) && is_shown(v.expanded, c) {
        let e2 = v.expanded.insert(c);
        assert forall|i: usize| node_parent(i) == Some(c) implies is_shown(e2, i) by {
            lemma_shown_up_to(v.expanded, e2, c, c);
        }
    }
    if node_folder(c) && v.expanded.contains(c) {
        lemma_first_child_is_first(c, 0);
    }
}

proof fn lemma_first_child_is_first(c: usize, j: usize)
    requires
        j <= NODE_COUNT,
        forall|i: usize| i < j ==> node_parent(i) != Some(c),
    ensures
        (exists|i: usize| i < NODE_COUNT && node_parent(i) == Some(c)) ==> (child_from(c, j) matches Some(
            ch,
        ) && node_parent(ch) == Some(c) && forall|i: usize| i < ch ==> node_parent(i) != Some(c)),
    decreases NODE_COUNT - j,
{
    if j < NODE_COUNT && node_parent(j) != Some(c) {
        lemma_first_child_is_first(c, (j + 1) as usize);
    }
}

proof fn lemma_scan_finds_nearest(rows: Seq<usize>, k: int, step: int)
    requires
        step == 1 || step == -1,
        0 <= k < rows.len(),
    ensures
        step == 1 ==> match scan(rows, k, step) {
            Some(x) => exists|j: int|
                k < j < rows.len() && rows[j] == x && !node_disabled(x) && forall|i: int|
                    k < i < j ==> node_disabled(#[trigger] rows[i]),
            None => forall|i: int| k < i < rows.len() ==> node_disabled(#[trigger] rows[i]),
        },
        step == -1 ==> match scan(rows, k, step) {
            Some(x) => exists|j: int|
                0 <= j < k && rows[j] == x && !node_disabled(x) && forall|i: int|
                    j < i < k ==> node_disabled(#[trigger] rows[i]),
            None => forall|i: int| 0 <= i < k ==> node_disabled(#[trigger] rows[i]),
        },
    decreases (if step > 0 {
        rows.len() - k
    } else {
        k + 1
    }),
{
    let next = k + step;
    if 0 <= next < rows.len() && node_disabled(rows[next]) {
        lemma_scan_finds_nearest(rows, next, step);
        if step == 1 {
            match scan(rows, next, step) {
                Some(x) => {
                    let j = choose|j: int|
                        next < j < rows.len() && rows[j] == x && !node_disabled(x) && forall|i: int|
                            next < i < j ==> node_disabled(#[trigger] rows[i]);
                    assert(forall|i: int| k < i < j ==> node_disabled(#[trigger] rows[i]));
                },
                None => {},
            }
        } else {
            match scan(rows, next, step) {
                Some(x) => {
                    let j = choose|j: int|
                        0 <= j < next && rows[j] == x && !node_disabled(x) && forall|i: int|
                            j < i < next ==> node_disabled(#[trigger] rows[i]);
                    assert(forall|i: int| j < i < k ==> node_disabled(#[trigger] rows[i]));
                },
                None => {},
            }
        }
    } else if 0 <= next < rows.len() {
        assert(rows[next] == scan(rows, k, step)->0);
    }
}

/// Moving the cursor goes to the nearest row in the direction of the move
/// that can be chosen, passing over rows that cannot, and stays put when
/// there is none; a move by 0 leaves the cursor where it is. Moving expands
/// or collapses nothing. Here `k` is the cursor's row.
pub proof fn lemma_move_goes_to_nearest_row(v: TreeView, delta: i32, k: int)
    requires
        v.well_formed(),
        0 <= k < visible_rows(v.expanded).len(),
        visible_rows(v.expanded)[k] == v.cursor,
    ensures
        delta > 0 && (exists|j: int|
            k < j < visible_rows(v.expanded).len() && !node_disabled(visible_rows(v.expanded)[j]))
            ==> exists|j: int|
            k < j < visible_rows(v.expanded).len() && visible_rows(v.expanded)[j] == moved(
                v,
                delta,
            ).cursor && !node_disabled(moved(v, delta).cursor) && forall|i: int|
                k < i < j ==> node_disabled(#[trigger] visible_rows(v.expanded)[i]),
        delta > 0 && !(exists|j: int|
            k < j < visible_rows(v.expanded).len() && !node_disabled(visible_rows(v.expanded)[j]))
            ==> moved(v, delta).cursor == v.cursor,
        delta < 0 && (exists|j: int| 0 <= j < k && !node_disabled(visible_rows(v.expanded)[j]))
            ==> exists|j: int|
            0 <= j < k && visible_rows(v.expanded)[j] == moved(v, delta).cursor && !node_disabled(
                moved(v, delta).cursor,
            ) && forall|i: int| j < i < k ==> node_disabled(#[trigger] visible_rows(v.expanded)[i]),
        delta < 0 && !(exists|j: int| 0 <= j < k && !node_disabled(visible_rows(v.expanded)[j]))
            ==> moved(v, delta).cursor == v.cursor,
        delta == 0 ==> moved(v, delta) == v,
        moved(v, delta).expanded == v.expanded,
        moved(v, delta).selected == v.selected,
{
    let rows = visible_rows(v.expanded);
    lemma_visible_rows(v.expanded);
    lemma_cursor_is_on_a_row(v);
    let start = cursor_position(v);
    if start != k {
        if start < k {
            assert(rows[start] < rows[k]);
        } else {
            assert(rows[k] < rows[start]);
        }
    }
    assert(start == k);
    if delta != 0 {
        lemma_scan_finds_nearest(rows, k, sign(delta));
    }
}

/// Top-level entries are always shown; any other entry is shown exactly
/// when its folder is shown and expanded, so collapsing a folder hides
/// everything inside it.
pub proof fn lemma_shown_entries(e: Set<usize>, i: usize)
    ensures
        node_parent(i) is None ==> is_shown(e, i),
        node_parent(i) matches Some(p) ==> (is_shown(e, i) <==> e.contains(p) && is_shown(e, p)),
{
}

/// Choosing a row that can be chosen puts the cursor and the selection on
/// it and, when it is a folder, expands or collapses that folder; every
/// other folder keeps its state. Choosing a row that cannot be chosen, or a
/// position past the rows, changes nothing.
pub proof fn lemma_activate_row(v: TreeView, index: int)
    ensures
        0 <= index < visible_rows(v.expanded).len() && !node_disabled(visible_rows(v.expanded)[index])
            ==> {
            &&& activated(v, index).cursor == visible_rows(v.expanded)[index]
            &&& activated(v, index).selected == Some(visible_rows(v.expanded)[index])
            &&& node_folder(visible_rows(v.expanded)[index]) ==> (activated(v, index).expanded.contains(
                visible_rows(v.expanded)[index],
            ) <==> !v.expanded.contains(visible_rows(v.expanded)[index]))
            &&& forall|f: usize|
                f != visible_rows(v.expanded)[index] ==> (activated(v, index).expanded.contains(f)
                    <==> v.expanded.contains(f))
            &&& !node_folder(visible_rows(v.expanded)[index]) ==> activated(v, index).expanded
                == v.expanded
        },
        !(0 <= index < visible_rows(v.expanded).len() && !node_disabled(
            visible_rows(v.expanded)[index],
        )) ==> activated(v, index) == v,
{
}

} // verus!
