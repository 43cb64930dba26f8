//! The gallery's page catalogue and the small pieces of navigation logic
//! behind its sidebar and choice lists.

use crate::text::{
    char_uppercase, chars_of, contains, contains_text, lemma_contains_every_piece, lowercase_of,
    push_char, same_text, string_from, text_lowercase, trim_bounds, trimmed, uppercase_of,
};
use vstd::prelude::*;

verus! {

/// Number of pages in the catalogue.
pub const PAGE_COUNT: usize = 46;

/// Name of page `i` of the catalogue, in sidebar order.
pub open spec fn page_name_text(i: usize) -> Seq<char> {
    match i {
        0 => "overview"@,
        1 => "button"@,
        2 => "button_group"@,
        3 => "link"@,
        4 => "toggle"@,
        5 => "toggle_group"@,
        6 => "input"@,
        7 => "textarea"@,
        8 => "number_input"@,
        9 => "select"@,
        10 => "combobox"@,
        11 => "calendar"@,
        12 => "date_picker"@,
        13 => "color_picker"@,
        14 => "slider"@,
        15 => "checkbox"@,
        16 => "switch"@,
        17 => "radio"@,
        18 => "menu"@,
        19 => "tabs"@,
        20 => "accordion"@,
        21 => "collapsible"@,
        22 => "nav_stack"@,
        23 => "pagination"@,
        24 => "sheet"@,
        25 => "dialog"@,
        26 => "alert_dialog"@,
        27 => "popover"@,
        28 => "tooltip"@,
        29 => "hover_card"@,
        30 => "toast"@,
        31 => "icon"@,
        32 => "avatar"@,
        33 => "text_view"@,
        34 => "panel"@,
        35 => "virtual_list"@,
        36 => "scrollbar"@,
        37 => "table"@,
        38 => "tree"@,
        39 => "resizable"@,
        40 => "separator"@,
        41 => "keycap"@,
        42 => "badge"@,
        43 => "alert"@,
        44 => "empty_state"@,
        45 => "progress"@,
        _ => ""@,
    }
}

/// Sidebar group of page `i`.
pub open spec fn page_category_text(i: usize) -> Seq<char> {
    match i {
        0 => "Explore"@,
        1 => "Actions"@,
        2 => "Actions"@,
        3 => "Actions"@,
        4 => "Actions"@,
        5 => "Actions"@,
        6 => "Forms"@,
        7 => "Forms"@,
        8 => "Forms"@,
        9 => "Forms"@,
        10 => "Forms"@,
        11 => "Forms"@,
        12 => "Forms"@,
        13 => "Forms"@,
        14 => "Forms"@,
        15 => "Forms"@,
        16 => "Forms"@,
        17 => "Forms"@,
        18 => "Navigation"@,
        19 => "Navigation"@,
        20 => "Navigation"@,
        21 => "Navigation"@,
        22 => "Navigation"@,
        23 => "Navigation"@,
        24 => "Overlays"@,
        25 => "Overlays"@,
        26 => "Overlays"@,
        27 => "Overlays"@,
        28 => "Overlays"@,
        29 => "Overlays"@,
        30 => "Overlays"@,
        31 => "Display"@,
        32 => "Display"@,
        33 => "Display"@,
        34 => "Display"@,
        35 => "Display"@,
        36 => "Display"@,
        37 => "Display"@,
        38 => "Display"@,
        39 => "Display"@,
        40 => "Display"@,
        41 => "Display"@,
        42 => "Display"@,
        43 => "Display"@,
        44 => "Display"@,
        45 => "Display"@,
        _ => ""@,
    }
}

/// One-line description of page `i`.
pub open spec fn page_blurb_text(i: usize) -> Seq<char> {
    match i {
        0 => "Explore the components together, then use the sidebar to inspect each one."@,
        1 => "Content-sized actions with quiet hover, focus and pressed states."@,
        2 => "Choose one setting from a row of mutually exclusive options."@,
        3 => "Open a named destination."@,
        4 => "Keep a command active until it is pressed again."@,
        5 => "Combine independent filters to show more than one status."@,
        6 => "Single-line editing with selection, clipboard and IME support."@,
        7 => "Multi-line notes with native text editing."@,
        8 => "A compact numeric field with keyboard and button stepping."@,
        9 => "Choose one value from a fixed set of options."@,
        10 => "Search a collection, then choose a matching option."@,
        11 => "Choose a date with month and year navigation."@,
        12 => "Choose a date from a calendar anchored to a field."@,
        13 => "Choose a label color with Hex and HSLA controls."@,
        14 => "Adjust one value or a range with the pointer or keyboard."@,
        15 => "Independent choices, including a mixed selection."@,
        16 => "An immediate on/off choice with a visible track and thumb."@,
        17 => "Choose one option from a group."@,
        18 => "An anchored action menu with one pointer and keyboard cursor."@,
        19 => "Switch between related views while keeping context."@,
        20 => "Reveal supporting content when it is needed."@,
        21 => "Expand a single region for additional settings."@,
        22 => "Navigate between persistent pages and return to where you left off."@,
        23 => "Move through a paged collection."@,
        24 => "Inspect project details in an edge-attached panel."@,
        25 => "A focused task with confirmation, cancellation and focus return."@,
        26 => "An explicit decision that cannot be dismissed by clicking the backdrop."@,
        27 => "Adjust contextual settings while keeping the workspace in view."@,
        28 => "A short explanation for an action, shown on hover."@,
        29 => "Preview supporting details without leaving the page."@,
        30 => "Brief feedback that leaves your current task in place."@,
        31 => "Monochrome SVG icons that inherit the surrounding text color."@,
        32 => "Identify people and workspaces with a square image or initials."@,
        33 => "Read structured documents with selectable text and links."@,
        34 => "A surface for a related group of settings or information."@,
        35 => "Browse a large activity log with variable-height rows."@,
        36 => "Drag the scroll thumb to move through a long activity log."@,
        37 => "Aligned columns for comparing records."@,
        38 => "Explore nested folders and select a workspace document."@,
        39 => "Drag the divider to adjust space between panes."@,
        40 => "A quiet boundary between distinct sections."@,
        41 => "Compact, readable keyboard hints."@,
        42 => "Short labels for neutral and semantic status."@,
        43 => "Inline feedback banners for neutral and semantic conditions."@,
        44 => "Explain an empty collection and its next step."@,
        45 => "Show how much of a known task is complete."@,
        _ => ""@,
    }
}

/// Name of the `i`-th page that has a working preview.
pub open spec fn implemented_name_text(i: usize) -> Seq<char> {
    match i {
        0 => "overview"@,
        1 => "button"@,
        2 => "button_group"@,
        3 => "toggle"@,
        4 => "input"@,
        5 => "number_input"@,
        6 => "slider"@,
        7 => "checkbox"@,
        8 => "switch"@,
        9 => "tabs"@,
        10 => "accordion"@,
        11 => "collapsible"@,
        12 => "dialog"@,
        13 => "alert_dialog"@,
        14 => "toast"@,
        15 => "empty_state"@,
        16 => "progress"@,
        17 => "virtual_list"@,
        18 => "scrollbar"@,
        19 => "textarea"@,
        20 => "select"@,
        21 => "combobox"@,
        22 => "table"@,
        23 => "badge"@,
        24 => "alert"@,
        25 => "separator"@,
        26 => "keycap"@,
        27 => "avatar"@,
        28 => "panel"@,
        29 => "calendar"@,
        30 => "date_picker"@,
        31 => "toggle_group"@,
        32 => "radio"@,
        33 => "pagination"@,
        34 => "color_picker"@,
        35 => "link"@,
        36 => "icon"@,
        37 => "menu"@,
        38 => "nav_stack"@,
        39 => "popover"@,
        40 => "tooltip"@,
        41 => "hover_card"@,
        42 => "sheet"@,
        43 => "tree"@,
        44 => "text_view"@,
        45 => "resizable"@,
        _ => ""@,
    }
}

fn page_name_at(i: usize) -> (out: &'static str)
    ensures
        out@ == page_name_text(i),
{
    match i {
        0 => "overview",
        1 => "button",
        2 => "button_group",
        3 => "link",
        4 => "toggle",
        5 => "toggle_group",
        6 => "input",
        7 => "textarea",
        8 => "number_input",
        9 => "select",
        10 => "combobox",
        11 => "calendar",
        12 => "date_picker",
        13 => "color_picker",
        14 => "slider",
        15 => "checkbox",
        16 => "switch",
        17 => "radio",
        18 => "menu",
        19 => "tabs",
        20 => "accordion",
        21 => "collapsible",
        22 => "nav_stack",
        23 => "pagination",
        24 => "sheet",
        25 => "dialog",
        26 => "alert_dialog",
        27 => "popover",
        28 => "tooltip",
        29 => "hover_card",
        30 => "toast",
        31 => "icon",
        32 => "avatar",
        33 => "text_view",
        34 => "panel",
        35 => "virtual_list",
        36 => "scrollbar",
        37 => "table",
        38 => "tree",
        39 => "resizable",
        40 => "separator",
        41 => "keycap",
        42 => "badge",
        43 => "alert",
        44 => "empty_state",
        45 => "progress",
        _ => "",
    }
}

fn page_category_at(i: usize) -> (out: &'static str)
    ensures
        out@ == page_category_text(i),
{
    match i {
        0 => "Explore",
        1 => "Actions",
        2 => "Actions",
        3 => "Actions",
        4 => "Actions",
        5 => "Actions",
        6 => "Forms",
        7 => "Forms",
        8 => "Forms",
        9 => "Forms",
        10 => "Forms",
        11 => "Forms",
        12 => "Forms",
        13 => "Forms",
        14 => "Forms",
        15 => "Forms",
        16 => "Forms",
        17 => "Forms",
        18 => "Navigation",
        19 => "Navigation",
        20 => "Navigation",
        21 => "Navigation",
        22 => "Navigation",
        23 => "Navigation",
        24 => "Overlays",
        25 => "Overlays",
        26 => "Overlays",
        27 => "Overlays",
        28 => "Overlays",
        29 => "Overlays",
        30 => "Overlays",
        31 => "Display",
        32 => "Display",
        33 => "Display",
        34 => "Display",
        35 => "Display",
        36 => "Display",
        37 => "Display",
        38 => "Display",
        39 => "Display",
        40 => "Display",
        41 => "Display",
        42 => "Display",
        43 => "Display",
        44 => "Display",
        45 => "Display",
        _ => "",
    }
}

fn page_blurb_at(i: usize) -> (out: &'static str)
    ensures
        out@ == page_blurb_text(i),
{
    match i {
        0 => "Explore the components together, then use the sidebar to inspect each one.",
        1 => "Content-sized actions with quiet hover, focus and pressed states.",
        2 => "Choose one setting from a row of mutually exclusive options.",
        3 => "Open a named destination.",
        4 => "Keep a command active until it is pressed again.",
        5 => "Combine independent filters to show more than one status.",
        6 => "Single-line editing with selection, clipboard and IME support.",
        7 => "Multi-line notes with native text editing.",
        8 => "A compact numeric field with keyboard and button stepping.",
        9 => "Choose one value from a fixed set of options.",
        10 => "Search a collection, then choose a matching option.",
        11 => "Choose a date with month and year navigation.",
        12 => "Choose a date from a calendar anchored to a field.",
        13 => "Choose a label color with Hex and HSLA controls.",
        14 => "Adjust one value or a range with the pointer or keyboard.",
        15 => "Independent choices, including a mixed selection.",
        16 => "An immediate on/off choice with a visible track and thumb.",
        17 => "Choose one option from a group.",
        18 => "An anchored action menu with one pointer and keyboard cursor.",
        19 => "Switch between related views while keeping context.",
        20 => "Reveal supporting content when it is needed.",
        21 => "Expand a single region for additional settings.",
        22 => "Navigate between persistent pages and return to where you left off.",
        23 => "Move through a paged collection.",
        24 => "Inspect project details in an edge-attached panel.",
        25 => "A focused task with confirmation, cancellation and focus return.",
        26 => "An explicit decision that cannot be dismissed by clicking the backdrop.",
        27 => "Adjust contextual settings while keeping the workspace in view.",
        28 => "A short explanation for an action, shown on hover.",
        29 => "Preview supporting details without leaving the page.",
        30 => "Brief feedback that leaves your current task in place.",
        31 => "Monochrome SVG icons that inherit the surrounding text color.",
        32 => "Identify people and workspaces with a square image or initials.",
        33 => "Read structured documents with selectable text and links.",
        34 => "A surface for a related group of settings or information.",
        35 => "Browse a large activity log with variable-height rows.",
        36 => "Drag the scroll thumb to move through a long activity log.",
        37 => "Aligned columns for comparing records.",
        38 => "Explore nested folders and select a workspace document.",
        39 => "Drag the divider to adjust space between panes.",
        40 => "A quiet boundary between distinct sections.",
        41 => "Compact, readable keyboard hints.",
        42 => "Short labels for neutral and semantic status.",
        43 => "Inline feedback banners for neutral and semantic conditions.",
        44 => "Explain an empty collection and its next step.",
        45 => "Show how much of a known task is complete.",
        _ => "",
    }
}

fn implemented_name_at(i: usize) -> (out: &'static str)
    ensures
        out@ == implemented_name_text(i),
{
    match i {
        0 => "overview",
        1 => "button",
        2 => "button_group",
        3 => "toggle",
        4 => "input",
        5 => "number_input",
        6 => "slider",
        7 => "checkbox",
        8 => "switch",
        9 => "tabs",
        10 => "accordion",
        11 => "collapsible",
        12 => "dialog",
        13 => "alert_dialog",
        14 => "toast",
        15 => "empty_state",
        16 => "progress",
        17 => "virtual_list",
        18 => "scrollbar",
        19 => "textarea",
        20 => "select",
        21 => "combobox",
        22 => "table",
        23 => "badge",
        24 => "alert",
        25 => "separator",
        26 => "keycap",
        27 => "avatar",
        28 => "panel",
        29 => "calendar",
        30 => "date_picker",
        31 => "toggle_group",
        32 => "radio",
        33 => "pagination",
        34 => "color_picker",
        35 => "link",
        36 => "icon",
        37 => "menu",
        38 => "nav_stack",
        39 => "popover",
        40 => "tooltip",
        41 => "hover_card",
        42 => "sheet",
        43 => "tree",
        44 => "text_view",
        45 => "resizable",
        _ => "",
    }
}

/// The first catalogue position at or after `k` that holds page `p`.
pub open spec fn page_index_from(p: Seq<char>, k: int) -> Option<int>
    decreases PAGE_COUNT - k,
{
    if k < 0 || k >= PAGE_COUNT {
        None
    } else if page_name_text(k as usize) == p {
        Some(k)
    } else {
        page_index_from(p, k + 1)
    }
}

/// The catalogue position of page `p`.
pub open spec fn page_index(p: Seq<char>) -> Option<int> {
    page_index_from(p, 0)
}

/// The description shown for page `p`; empty for an unknown page.
pub open spec fn description_of(p: Seq<char>) -> Seq<char> {
    match page_index(p) {
        Some(i) => page_blurb_text(i as usize),
        None => ""@,
    }
}

/// Whether page `p` has a working preview.
pub open spec fn implemented(p: Seq<char>) -> bool {
    exists|i: usize| i < PAGE_COUNT && implemented_name_text(i) == p
}

/// The catalogue position of `page`, if it is a page of the catalogue.
pub fn page_position(page: &str) -> (out: Option<usize>)
    ensures
        match out {
            Some(i) => page_index(page@) == Some(i as int),
            None => page_index(page@) is None,
        },
{
    let mut k: usize = 0;
    while k < PAGE_COUNT
        invariant
            k <= PAGE_COUNT,
            page_index(page@) == page_index_from(page@, k as int),
        decreases PAGE_COUNT - k,
    {
        if same_text(page, page_name_at(k)) {
            return Some(k);
        }
        k = k + 1;
    }
    None
}

/// Whether `page` names a page of the catalogue.
pub fn is_known_page(page: &str) -> (out: bool)
    ensures
        out == page_index(page@) is Some,
{
    page_position(page).is_some()
}

/// The name of catalogue page `i`.
pub fn page_name(i: usize) -> (out: &'static str)
    requires
        i < PAGE_COUNT,
    ensures
        out@ == page_name_text(i),
{
    page_name_at(i)
}

/// The sidebar group of catalogue page `i`.
pub fn page_category(i: usize) -> (out: &'static str)
    requires
        i < PAGE_COUNT,
    ensures
        out@ == page_category_text(i),
{
    page_category_at(i)
}

/// The one-line description of `page`; empty for an unknown page.
pub fn page_description(page: &str) -> (out: &'static str)
    ensures
        out@ == description_of(page@),
{
    match page_position(page) {
        Some(i) => page_blurb_at(i),
        None => "",
    }
}

/// Whether `page` has a working preview.
pub fn is_implemented(page: &str) -> (out: bool)
    ensures
        out == implemented(page@),
{
    let mut k: usize = 0;
    while k < PAGE_COUNT
        invariant
            k <= PAGE_COUNT,
            forall|i: usize| i < k ==> implemented_name_text(i) != page@,
        decreases PAGE_COUNT - k,
    {
        if same_text(page, implemented_name_at(k)) {
            return true;
        }
        k = k + 1;
    }
    false
}

/// The page that keyboard navigation selects from page `current`: the first
/// page for a large step back, the last page for a large step forward, and
/// otherwise the neighbour in the direction of `delta`, wrapping around.
pub open spec fn page_after_spec(current: int, delta: int) -> int {
    if delta < -1 {
        0
    } else if delta > 1 {
        PAGE_COUNT - 1
    } else {
        (current + delta) % (PAGE_COUNT as int)
    }
}

/// The catalogue position that keyboard navigation moves to from
/// `current`.
pub fn page_after(current: usize, delta: i32) -> (out: usize)
    requires
        current < PAGE_COUNT,
    ensures
        out == page_after_spec(current as int, delta as int),
{
    if delta < -1 {
        0
    } else if delta > 1 {
        PAGE_COUNT - 1
    } else if delta < 0 && current == 0 {
        PAGE_COUNT - 1
    } else if delta < 0 {
        current - 1
    } else if delta > 0 && current == PAGE_COUNT - 1 {
        0
    } else if delta > 0 {
        current + 1
    } else {
        current
    }
}

/// `c` with an underscore read as a space.
pub open spec fn spaced(c: char) -> char {
    if c == '_' {
        ' '
    } else {
        c
    }
}

/// The sidebar label of a page: underscores read as spaces, and the first
/// character in upper case.
pub open spec fn display_name_text(page: Seq<char>) -> Seq<char> {
    let label = page.map_values(|c: char| spaced(c));
    if label.len() == 0 {
        Seq::empty()
    } else {
        char_uppercase(label[0]) + label.drop_first()
    }
}

/// The sidebar label of `page`.
pub fn display_name(page: &str) -> (out: String)
    ensures
        out@ == display_name_text(page@),
{
    let chars = chars_of(page);
    let ghost label = page@.map_values(|c: char| spaced(c));
    if chars.len() == 0 {
        return String::new();
    }
    let first = if chars[0] == '_' {
        ' '
    } else {
        chars[0]
    };
    let mut out = uppercase_of(first);
    let mut i: usize = 1;
    while i < chars.len()
        invariant
            1 <= i <= chars@.len(),
            chars@ == page@,
            label == page@.map_values(|c: char| spaced(c)),
            out@ == char_uppercase(label[0]) + label.subrange(1, i as int),
        decreases chars@.len() - i,
    {
        let c = if chars[i] == '_' {
            ' '
        } else {
            chars[i]
        };
        push_char(&mut out, c);
        assert(label.subrange(1, i as int).push(c) =~= label.subrange(1, i + 1));
        i = i + 1;
    }
    assert(label.subrange(1, i as int) =~= label.drop_first());
    out
}

/// A sidebar label is the page name with its first character in upper case
/// and every later character kept, except that each underscore is shown as
/// a space; an empty name gives an empty label.
pub proof fn lemma_display_name_characters(page: Seq<char>)
    ensures
        page.len() == 0 ==> display_name_text(page).len() == 0,
        page.len() > 0 ==> {
            let first = char_uppercase(if page[0] == '_' { ' ' } else { page[0] });
            &&& display_name_text(page).len() == first.len() + page.len() - 1
            &&& display_name_text(page).subrange(0, first.len() as int) == first
            &&& forall|i: int|
                1 <= i < page.len() ==> #[trigger] display_name_text(page)[first.len() + i - 1] == if page[i]
                    == '_' {
                    ' '
                } else {
                    page[i]
                }
        },
{
    if page.len() > 0 {
        let label = page.map_values(|c: char| spaced(c));
        let first = char_uppercase(label[0]);
        let out = display_name_text(page);
        assert(out == first + label.drop_first());
        assert(out.subrange(0, first.len() as int) =~= first);
        assert forall|i: int| 1 <= i < page.len() implies #[trigger] out[first.len() + i - 1] == if page[i]
            == '_' {
            ' '
        } else {
            page[i]
        } by {
            assert(out[first.len() + i - 1] == label[i]);
        }
    }
}

/// Positions of the enabled entries at or after `k`, in order.
pub open spec fn enabled_from(s: Seq<bool>, k: int) -> Seq<int>
    decreases s.len() - k,
{
    if k < 0 || k >= s.len() {
        Seq::empty()
    } else if s[k] {
        seq![k] + enabled_from(s, k + 1)
    } else {
        enabled_from(s, k + 1)
    }
}

/// Positions of the enabled entries, in order.
pub open spec fn enabled_positions(s: Seq<bool>) -> Seq<int> {
    enabled_from(s, 0)
}

/// The first index of `e` at or after `k` that holds `x`.
pub open spec fn position_from(e: Seq<int>, x: int, k: int) -> Option<int>
    decreases e.len() - k,
{
    if k < 0 || k >= e.len() {
        None
    } else if e[k] == x {
        Some(k)
    } else {
        position_from(e, x, k + 1)
    }
}

/// The entry that choice navigation lands on: `-1` when nothing is
/// enabled; the first or last enabled entry for a jump of at least 100 in
/// either direction; otherwise the previous or next enabled entry, wrapping
/// around, starting from the last or first one when `current` is not
/// enabled.
pub open spec fn next_choice(s: Seq<bool>, current: int, direction: int) -> int {
    let e = enabled_positions(s);
    let n = e.len() as int;
    if n == 0 {
        -1
    } else if direction >= 100 {
        e[0]
    } else if direction <= -100 {
        e[n - 1]
    } else if direction < 0 {
        e[match position_from(e, current, 0) {
            Some(i) => (i + n - 1) % n,
            None => n - 1,
        }]
    } else {
        e[match position_from(e, current, 0) {
            Some(i) => (i + 1) % n,
            None => 0,
        }]
    }
}

proof fn lemma_enabled_from(s: Seq<bool>, k: int)
    requires
        0 <= k <= s.len(),
    ensures
        enabled_from(s, k).len() <= s.len() - k,
        forall|j: int|
            0 <= j < enabled_from(s, k).len() ==> k <= #[trigger] enabled_from(s, k)[j] < s.len(),
    decreases s.len() - k,
{
    if k < s.len() {
        lemma_enabled_from(s, k + 1);
        let rest = enabled_from(s, k + 1);
        if s[k] {
            assert forall|j: int| 0 <= j < (seq![k] + rest).len() implies k <= #[trigger] (seq![
                k,
            ] + rest)[j] < s.len() by {
                if j > 0 {
                    assert((seq![k] + rest)[j] == rest[j - 1]);
                }
            }
        }
    }
}

fn position_in(positions: &Vec<i32>, x: i32) -> (out: Option<usize>)
    ensures
        match out {
            Some(i) => i < positions@.len() && position_from(
                positions@.map_values(|v: i32| v as int),
                x as int,
                0,
            ) == Some(i as int),
            None => position_from(positions@.map_values(|v: i32| v as int), x as int, 0) is None,
        },
{
    let ghost e = positions@.map_values(|v: i32| v as int);
    let mut i: usize = 0;
    while i < positions.len()
        invariant
            i <= positions@.len(),
            e == positions@.map_values(|v: i32| v as int),
            position_from(e, x as int, 0) == position_from(e, x as int, i as int),
        decreases positions@.len() - i,
    {
        if positions[i] == x {
            return Some(i);
        }
        i = i + 1;
    }
    None
}

/// The entry that keyboard navigation in a choice list lands on, given
/// which entries are enabled.
pub fn next_enabled_choice(enabled: &[bool], current: i32, direction: i32) -> (out: i32)
    requires
        enabled@.len() <= i32::MAX,
    ensures
        out == next_choice(enabled@, current as int, direction as int),
{
    let ghost s = enabled@;
    let mut positions: Vec<i32> = Vec::new();
    let mut k: usize = 0;
    while k < enabled.len()
        invariant
            k <= s.len(),
            s == enabled@,
            s.len() <= i32::MAX,
            enabled_positions(s) == positions@.map_values(|x: i32| x as int) + enabled_from(
                s,
                k as int,
            ),
        decreases s.len() - k,
    {
        if enabled[k] {
            positions.push(k as i32);
        }
        proof {
            assert(positions@.map_values(|x: i32| x as int) + enabled_from(s, k + 1)
                =~= enabled_positions(s));
        }
        k = k + 1;
    }
    let ghost e = enabled_positions(s);
    assert(positions@.map_values(|x: i32| x as int) =~= e);
    proof {
        lemma_enabled_from(s, 0);
    }
    let n = positions.len();
    if n == 0 {
        return -1;
    }
    if direction >= 100 {
        return positions[0];
    }
    if direction <= -100 {
        return positions[n - 1];
    }
    let found = position_in(&positions, current);
    if direction < 0 {
        match found {
            Some(i) => positions[(i + n - 1) % n],
            None => positions[n - 1],
        }
    } else {
        match found {
            Some(i) => positions[(i + 1) % n],
            None => positions[0],
        }
    }
}

/// Choice navigation lands on an enabled entry, and answers `-1` exactly
/// when no entry is enabled.
pub proof fn lemma_next_choice_is_enabled(s: Seq<bool>, current: int, direction: int)
    ensures
        next_choice(s, current, direction) == -1 <==> (forall|i: int| 0 <= i < s.len() ==> !s[i]),
        next_choice(s, current, direction) != -1 ==> 0 <= next_choice(s, current, direction) < s.len()
            && s[next_choice(s, current, direction)],
{
    lemma_enabled_from(s, 0);
    lemma_enabled_from_complete(s, 0);
    let e = enabled_positions(s);
    let n = e.len() as int;
    if n > 0 {
        if position_from(e, current, 0) is Some {
            lemma_position_from(e, current, 0);
        }
    } else {
        assert forall|i: int| 0 <= i < s.len() implies !s[i] by {
            if s[i] {
                assert(e.contains(i));
            }
        }
    }
}

proof fn lemma_enabled_from_complete(s: Seq<bool>, k: int)
    requires
        0 <= k <= s.len(),
    ensures
        forall|j: int| 0 <= j < enabled_from(s, k).len() ==> s[#[trigger] enabled_from(s, k)[j]],
        forall|i: int| k <= i < s.len() && s[i] ==> #[trigger] enabled_from(s, k).contains(i),
    decreases s.len() - k,
{
    if k < s.len() {
        lemma_enabled_from_complete(s, k + 1);
        let rest = enabled_from(s, k + 1);
        if s[k] {
            let all = seq![k] + rest;
            assert forall|j: int| 0 <= j < all.len() implies s[#[trigger] all[j]] by {
                if j > 0 {
                    assert(all[j] == rest[j - 1]);
                }
            }
            assert forall|i: int| k <= i < s.len() && s[i] implies #[trigger] all.contains(i) by {
                if i == k {
                    assert(all[0] == i);
                } else {
                    assert(rest.contains(i));
                    let j = choose|j: int| 0 <= j < rest.len() && rest[j] == i;
                    assert(all[j + 1] == i);
                }
            }
        }
    }
}

proof fn lemma_position_from(e: Seq<int>, x: int, k: int)
    requires
        position_from(e, x, k) is Some,
    ensures
        0 <= position_from(e, x, k).unwrap() < e.len(),
        e[position_from(e, x, k).unwrap()] == x,
    decreases e.len() - k,
{
    if 0 <= k < e.len() && e[k] != x {
        lemma_position_from(e, x, k + 1);
    }
}

proof fn lemma_enabled_sorted(s: Seq<bool>, k: int)
    requires
        0 <= k <= s.len(),
    ensures
        forall|i: int, j: int|
            #![trigger enabled_from(s, k)[i], enabled_from(s, k)[j]]
            0 <= i < j < enabled_from(s, k).len() ==> enabled_from(s, k)[i] < enabled_from(
                s,
                k,
            )[j],
    decreases s.len() - k,
{
    if k < s.len() {
        lemma_enabled_sorted(s, k + 1);
        lemma_enabled_from(s, k + 1);
        let rest = enabled_from(s, k + 1);
        if s[k] {
            let all = seq![k] + rest;
            assert forall|i: int, j: int| #![trigger all[i], all[j]] 0 <= i < j < all.len() implies all[i]
                < all[j] by {
                assert(all[j] == rest[j - 1]);
                if i > 0 {
                    assert(all[i] == rest[i - 1]);
                }
            }
        }
    }
}

proof fn lemma_position_of_entry(e: Seq<int>, k: int, j: int)
    requires
        0 <= j <= k < e.len(),
        forall|a: int, b: int| #![trigger e[a], e[b]] 0 <= a < b < e.len() ==> e[a] < e[b],
    ensures
        position_from(e, e[k], j) == Some(k),
    decreases k - j,
{
    if j < k {
        assert(e[j] < e[k]);
        lemma_position_of_entry(e, k, j + 1);
    }
}

/// What the positions of the enabled entries are: every one of them in
/// range and enabled, in increasing order, and every enabled entry among them.
proof fn lemma_enabled_positions(s: Seq<bool>)
    ensures
        forall|j: int|
            0 <= j < enabled_positions(s).len() ==> 0 <= #[trigger] enabled_positions(s)[j]
                < s.len() && s[enabled_positions(s)[j]],
        forall|i: int, j: int|
            #![trigger enabled_positions(s)[i], enabled_positions(s)[j]]
            0 <= i < j < enabled_positions(s).len() ==> enabled_positions(s)[i]
                < enabled_positions(s)[j],
        forall|i: int|
            0 <= i < s.len() && s[i] ==> exists|m: int|
                0 <= m < enabled_positions(s).len() && #[trigger] enabled_positions(s)[m] == i,
{
    lemma_enabled_from(s, 0);
    lemma_enabled_from_complete(s, 0);
    lemma_enabled_sorted(s, 0);
    let e = enabled_positions(s);
    assert forall|i: int| 0 <= i < s.len() && s[i] implies exists|m: int|
        0 <= m < e.len() && #[trigger] e[m] == i by {
        assert(e.contains(i));
    }
}

/// A step through a choice list from an enabled entry: forward
/// (`0 <= direction < 100`) it lands on the nearest enabled entry after the
/// current one, or, when none follows, wraps round to the first enabled
/// entry; backward (`-100 < direction < 0`) it lands on the nearest enabled
/// entry before the current one, or wraps round to the last enabled entry.
pub proof fn lemma_step_from_enabled(s: Seq<bool>, current: int, direction: int)
    requires
        0 <= current < s.len(),
        s[current],
        -100 < direction < 100,
    ensures
        0 <= next_choice(s, current, direction) < s.len(),
        s[next_choice(s, current, direction)],
        0 <= direction && (exists|j: int| current < j < s.len() && s[j]) ==> current < next_choice(
            s,
            current,
            direction,
        ) && forall|j: int| current < j < next_choice(s, current, direction) ==> !s[j],
        0 <= direction && !(exists|j: int| current < j < s.len() && s[j]) ==> forall|j: int|
            0 <= j < next_choice(s, current, direction) ==> !s[j],
        direction < 0 && (exists|j: int| 0 <= j < current && s[j]) ==> next_choice(
            s,
            current,
            direction,
        ) < current && forall|j: int| next_choice(s, current, direction) < j < current ==> !s[j],
        direction < 0 && !(exists|j: int| 0 <= j < current && s[j]) ==> forall|j: int|
            next_choice(s, current, direction) < j < s.len() ==> !s[j],
{
    lemma_enabled_positions(s);
    let e = enabled_positions(s);
    let n = e.len() as int;
    let k = choose|m: int| 0 <= m < n && e[m] == current;
    lemma_position_of_entry(e, k, 0);
    let r = next_choice(s, current, direction);
    if direction >= 0 {
        if k + 1 < n {
            assert((k + 1) % n == k + 1) by {
                vstd::arithmetic::div_mod::lemma_small_mod((k + 1) as nat, n as nat);
            }
            assert(r == e[k + 1]);
            assert forall|j: int| current < j < r implies !s[j] by {
                if s[j] {
                    let m = choose|m: int| 0 <= m < n && e[m] == j;
                    if m <= k {
                        if m < k {
                            assert(e[m] < e[k]);
                        }
                    } else {
                        if m > k + 1 {
                            assert(e[k + 1] < e[m]);
                        }
                    }
                }
            }
        } else {
            assert((k + 1) % n == 0) by {
                vstd::arithmetic::div_mod::lemma_mod_self_0(n);
            }
            assert(r == e[0]);
            assert forall|j: int| current < j < s.len() implies !s[j] by {
                if s[j] {
                    let m = choose|m: int| 0 <= m < n && e[m] == j;
                    if m < k {
                        assert(e[m] < e[k]);
                    }
                }
            }
            assert forall|j: int| 0 <= j < r implies !s[j] by {
                if s[j] {
                    let m = choose|m: int| 0 <= m < n && e[m] == j;
                    if m > 0 {
                        assert(e[0] < e[m]);
                    }
                }
            }
        }
    } else {
        if k > 0 {
            assert((k + n - 1) % n == k - 1) by {
                vstd::arithmetic::div_mod::lemma_mod_add_multiples_vanish(k - 1, n);
                vstd::arithmetic::div_mod::lemma_small_mod((k - 1) as nat, n as nat);
            }
            assert(r == e[k - 1]);
            assert forall|j: int| r < j < current implies !s[j] by {
                if s[j] {
                    let m = choose|m: int| 0 <= m < n && e[m] == j;
                    if m >= k {
                        if m > k {
                            assert(e[k] < e[m]);
                        }
                    } else {
                        if m < k - 1 {
                            assert(e[m] < e[k - 1]);
                        }
                    }
                }
            }
        } else {
            assert((k + n - 1) % n == n - 1) by {
                vstd::arithmetic::div_mod::lemma_small_mod((n - 1) as nat, n as nat);
            }
            assert(r == e[n - 1]);
            assert forall|j: int| 0 <= j < current implies !s[j] by {
                if s[j] {
                    let m = choose|m: int| 0 <= m < n && e[m] == j;
                    if m > 0 {
                        assert(e[0] < e[m]);
                    }
                }
            }
            assert forall|j: int| r < j < s.len() implies !s[j] by {
                if s[j] {
                    let m = choose|m: int| 0 <= m < n && e[m] == j;
                    if m < n - 1 {
                        assert(e[m] < e[n - 1]);
                    }
                }
            }
        }
    }
}

/// A jump of at least 100 forward, or a forward step from an entry that is
/// not enabled, lands on the first enabled entry; a jump of at least 100
/// back, or a backward step from an entry that is not enabled, lands on the
/// last enabled entry.
pub proof fn lemma_jump_to_first_or_last(s: Seq<bool>, current: int, direction: int)
    requires
        exists|i: int| 0 <= i < s.len() && s[i],
    ensures
        0 <= next_choice(s, current, direction) < s.len(),
        s[next_choice(s, current, direction)],
        direction >= 100 || (0 <= direction && !(0 <= current < s.len() && s[current]))
            ==> forall|j: int| 0 <= j < next_choice(s, current, direction) ==> !s[j],
        direction <= -100 || (direction < 0 && !(0 <= current < s.len() && s[current]))
            ==> forall|j: int| next_choice(s, current, direction) < j < s.len() ==> !s[j],
{
    lemma_enabled_positions(s);
    let e = enabled_positions(s);
    let n = e.len() as int;
    let w = choose|i: int| 0 <= i < s.len() && s[i];
    let mw = choose|m: int| 0 <= m < n && e[m] == w;
    assert(n > 0);
    let enabled_here = 0 <= current < s.len() && s[current];
    if !enabled_here {
        if position_from(e, current, 0) is Some {
            lemma_position_from(e, current, 0);
        }
        assert(position_from(e, current, 0) is None);
    }
    assert forall|j: int| 0 <= j < e[0] implies !s[j] by {
        if s[j] {
            let m = choose|m: int| 0 <= m < n && e[m] == j;
            if m > 0 {
                assert(e[0] < e[m]);
            }
        }
    }
    assert forall|j: int| e[n - 1] < j < s.len() implies !s[j] by {
        if s[j] {
            let m = choose|m: int| 0 <= m < n && e[m] == j;
            if m < n - 1 {
                assert(e[m] < e[n - 1]);
            }
        }
    }
    if position_from(e, current, 0) is Some {
        lemma_position_from(e, current, 0);
    }
}

/// Keyboard navigation in the sidebar always lands on a page of the
/// catalogue.
pub proof fn lemma_page_after_in_range(current: int, delta: int)
    requires
        0 <= current < PAGE_COUNT,
    ensures
        0 <= page_after_spec(current, delta) < PAGE_COUNT,
{
}

/// Sidebar steps: one step forward and one step back undo each other,
/// stepping forward from the last page wraps to the first and stepping back
/// from the first wraps to the last, a step of 0 stays, and larger jumps go
/// to the first or the last page.
pub proof fn lemma_page_steps(current: int, delta: int)
    requires
        0 <= current < PAGE_COUNT,
    ensures
        page_after_spec(page_after_spec(current, 1), -1) == current,
        page_after_spec(page_after_spec(current, -1), 1) == current,
        current < PAGE_COUNT - 1 ==> page_after_spec(current, 1) == current + 1,
        current > 0 ==> page_after_spec(current, -1) == current - 1,
        page_after_spec(PAGE_COUNT - 1, 1) == 0,
        page_after_spec(0, -1) == PAGE_COUNT - 1,
        page_after_spec(current, 0) == current,
        delta < -1 ==> page_after_spec(current, delta) == 0,
        delta > 1 ==> page_after_spec(current, delta) == PAGE_COUNT - 1,
{
}

/// The smallest zoom level, in percent.
pub const MIN_ZOOM: i32 = 50;

/// The largest zoom level, in percent.
pub const MAX_ZOOM: i32 = 200;

/// The zoom level that a request for `percent` gets: the request, kept
/// within 50% and 200%.
pub fn clamp_zoom(percent: i32) -> (out: i32)
    ensures
        MIN_ZOOM <= out <= MAX_ZOOM,
        MIN_ZOOM <= percent <= MAX_ZOOM ==> out == percent,
        percent < MIN_ZOOM ==> out == MIN_ZOOM,
        percent > MAX_ZOOM ==> out == MAX_ZOOM,
{
    if percent < MIN_ZOOM {
        MIN_ZOOM
    } else if percent > MAX_ZOOM {
        MAX_ZOOM
    } else {
        percent
    }
}

/// The workspace name that `value` gives: the text without surrounding
/// white space, when anything is left.
pub fn workspace_name(value: &str) -> (out: Option<String>)
    ensures
        match out {
            Some(name) => trimmed(value@).len() > 0 && name@ == trimmed(value@),
            None => trimmed(value@).len() == 0,
        },
{
    let chars = chars_of(value);
    let (start, end) = trim_bounds(&chars);
    if start == end {
        None
    } else {
        Some(string_from(&chars, start, end))
    }
}

/// Whether a choice labelled `label` matches the search `query`: the query
/// occurs in the label, both in lower case.
pub open spec fn matches_query(label: Seq<char>, query: Seq<char>) -> bool {
    contains_text(text_lowercase(label), text_lowercase(query))
}

/// Positions at or after `k` of the labels that match `query`, in order.
pub open spec fn matching_from(labels: Seq<Seq<char>>, query: Seq<char>, k: int) -> Seq<int>
    decreases labels.len() - k,
{
    if k < 0 || k >= labels.len() {
        Seq::empty()
    } else if matches_query(labels[k], query) {
        seq![k] + matching_from(labels, query, k + 1)
    } else {
        matching_from(labels, query, k + 1)
    }
}

/// Every label matches a search for itself, and a search for any text whose
/// lower-case form stands somewhere in the label's lower-case form.
pub proof fn lemma_label_matches_its_pieces(
    label: Seq<char>,
    query: Seq<char>,
    before: Seq<char>,
    after: Seq<char>,
)
    requires
        text_lowercase(label) == before + text_lowercase(query) + after,
    ensures
        matches_query(label, query),
        matches_query(label, label),
{
    lemma_contains_every_piece(before, text_lowercase(query), after);
    lemma_contains_every_piece(Seq::empty(), text_lowercase(label), Seq::empty());
}

proof fn lemma_matching_from(labels: Seq<Seq<char>>, query: Seq<char>, k: int)
    requires
        0 <= k <= labels.len(),
    ensures
        forall|i: int|
            #[trigger] matching_from(labels, query, k).contains(i) <==> k <= i < labels.len()
                && matches_query(labels[i], query),
        forall|i: int, j: int|
            #![trigger matching_from(labels, query, k)[i], matching_from(labels, query, k)[j]]
            0 <= i < j < matching_from(labels, query, k).len() ==> matching_from(labels, query, k)[i]
                < matching_from(labels, query, k)[j],
    decreases labels.len() - k,
{
    if k < labels.len() {
        lemma_matching_from(labels, query, k + 1);
        let rest = matching_from(labels, query, k + 1);
        if matches_query(labels[k], query) {
            let all = seq![k] + rest;
            assert forall|i: int| #[trigger] all.contains(i) <==> k <= i < labels.len()
                && matches_query(labels[i], query) by {
                if i == k {
                    assert(all[0] == i);
                } else if all.contains(i) {
                    let m = choose|m: int| 0 <= m < all.len() && all[m] == i;
                    assert(rest[m - 1] == i);
                    assert(rest.contains(i));
                } else if k < i < labels.len() && matches_query(labels[i], query) {
                    assert(rest.contains(i));
                    let m = choose|m: int| 0 <= m < rest.len() && rest[m] == i;
                    assert(all[m + 1] == i);
                }
            }
            assert forall|i: int, j: int| #![trigger all[i], all[j]] 0 <= i < j < all.len() implies all[i]
                < all[j] by {
                assert(all[j] == rest[j - 1]);
                assert(rest.contains(all[j]));
                if i > 0 {
                    assert(all[i] == rest[i - 1]);
                }
            }
        }
    } else {
        assert forall|i: int| #[trigger] matching_from(labels, query, k).contains(i) <==> k <= i
            < labels.len() && matches_query(labels[i], query) by {
            assert(matching_from(labels, query, k) =~= Seq::<int>::empty());
        }
    }
}

/// A search returns the positions of exactly the labels that match it, in
/// increasing order.
pub proof fn lemma_matching_positions(labels: Seq<Seq<char>>, query: Seq<char>)
    ensures
        forall|i: int|
            #[trigger] matching_from(labels, query, 0).contains(i) <==> 0 <= i < labels.len()
                && matches_query(labels[i], query),
        forall|i: int, j: int|
            #![trigger matching_from(labels, query, 0)[i], matching_from(labels, query, 0)[j]]
            0 <= i < j < matching_from(labels, query, 0).len() ==> matching_from(labels, query, 0)[i]
                < matching_from(labels, query, 0)[j],
{
    lemma_matching_from(labels, query, 0);
}

/// Positions of the choices whose labels match `query`, in their order.
pub fn matching_choices(labels: &Vec<&str>, query: &str) -> (out: Vec<usize>)
    ensures
        out@.map_values(|i: usize| i as int) == matching_from(
            labels@.map_values(|l: &str| l@),
            query@,
            0,
        ),
{
    let ghost texts = labels@.map_values(|l: &str| l@);
    let lowered = lowercase_of(query);
    let mut out: Vec<usize> = Vec::new();
    let mut k: usize = 0;
    while k < labels.len()
        invariant
            k <= labels@.len(),
            texts == labels@.map_values(|l: &str| l@),
            lowered@ == text_lowercase(query@),
            matching_from(texts, query@, 0) == out@.map_values(|i: usize| i as int) + matching_from(
                texts,
                query@,
                k as int,
            ),
        decreases labels@.len() - k,
    {
        let label = lowercase_of(labels[k]);
        if contains(label.as_str(), lowered.as_str()) {
            out.push(k);
        }
        assert(out@.map_values(|i: usize| i as int) + matching_from(texts, query@, k + 1)
            =~= matching_from(texts, query@, 0));
        k = k + 1;
    }
    assert(matching_from(texts, query@, k as int) =~= Seq::<int>::empty());
    assert(out@.map_values(|i: usize| i as int) =~= matching_from(texts, query@, 0));
    out
}

} // verus!
