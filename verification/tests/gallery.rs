use slint_omarchy::gallery::{
    clamp_zoom, display_name, is_implemented, is_known_page, matching_choices,
    next_enabled_choice, page_after, page_category, page_description, page_name, page_position,
    workspace_name, PAGE_COUNT,
};

#[test]
fn choice_navigation_skips_disabled_options_and_wraps() {
    let model = [true, false, false, true];
    assert_eq!(next_enabled_choice(&model, -1, 100), 0);
    assert_eq!(next_enabled_choice(&model, 0, 1), 3);
    assert_eq!(next_enabled_choice(&model, 3, 1), 0);
    assert_eq!(next_enabled_choice(&model, 0, -1), 3);
    assert_eq!(next_enabled_choice(&model, -1, -100), 3);
    let empty = [false];
    assert_eq!(next_enabled_choice(&empty, -1, 100), -1);
}

#[test]
fn choice_navigation_from_an_unknown_entry() {
    let model = [false, true, true, false, true];
    assert_eq!(next_enabled_choice(&model, -1, 1), 1);
    assert_eq!(next_enabled_choice(&model, -1, -1), 4);
    assert_eq!(next_enabled_choice(&model, 3, 0), 1);
    assert_eq!(next_enabled_choice(&model, 2, -1), 1);
    assert_eq!(next_enabled_choice(&model, 1, -1), 4);
    assert_eq!(next_enabled_choice(&[], 0, 1), -1);
}

#[test]
fn display_names_are_capitalised_with_spaces() {
    assert_eq!(display_name("button_group"), "Button group");
    assert_eq!(display_name("overview"), "Overview");
    assert_eq!(display_name(""), "");
    assert_eq!(display_name("_x"), " x");
    assert_eq!(display_name("ß"), "SS");
}

#[test]
fn catalogue_lists_every_page_once() {
    assert_eq!(PAGE_COUNT, 46);
    assert_eq!(page_name(0), "overview");
    assert_eq!(page_category(0), "Explore");
    assert_eq!(page_name(45), "progress");
    assert_eq!(page_category(45), "Display");
    for i in 0..PAGE_COUNT {
        assert_eq!(page_position(page_name(i)), Some(i));
        assert!(is_implemented(page_name(i)));
        assert!(!page_description(page_name(i)).is_empty());
    }
    assert_eq!(page_position("dock"), None);
    assert!(!is_known_page("otp_input"));
    assert!(is_known_page("virtual_list"));
    assert!(!is_implemented("dock"));
}

#[test]
fn descriptions_follow_the_catalogue() {
    assert_eq!(page_description("tree"), "Explore nested folders and select a workspace document.");
    assert_eq!(page_description("progress"), "Show how much of a known task is complete.");
    assert_eq!(page_description("missing"), "");
}

#[test]
fn sidebar_navigation_wraps_and_jumps() {
    assert_eq!(page_after(0, -1), PAGE_COUNT - 1);
    assert_eq!(page_after(PAGE_COUNT - 1, 1), 0);
    assert_eq!(page_after(5, 1), 6);
    assert_eq!(page_after(5, 0), 5);
    assert_eq!(page_after(5, -2), 0);
    assert_eq!(page_after(5, 2), PAGE_COUNT - 1);
}

#[test]
fn zoom_stays_between_half_and_double() {
    assert_eq!(clamp_zoom(10), 50);
    assert_eq!(clamp_zoom(50), 50);
    assert_eq!(clamp_zoom(125), 125);
    assert_eq!(clamp_zoom(200), 200);
    assert_eq!(clamp_zoom(i32::MAX), 200);
    assert_eq!(clamp_zoom(i32::MIN), 50);
}

#[test]
fn workspace_names_are_trimmed_and_required() {
    assert_eq!(workspace_name("  Studio \n").as_deref(), Some("Studio"));
    assert_eq!(workspace_name("Personal workspace").as_deref(), Some("Personal workspace"));
    assert_eq!(workspace_name("   "), None);
    assert_eq!(workspace_name(""), None);
}

#[test]
fn choice_search_ignores_case() {
    let labels = vec!["Personal", "Studio", "Research", "Archive"];
    assert_eq!(matching_choices(&labels, "RE"), vec![2]);
    assert_eq!(matching_choices(&labels, "s"), vec![0, 1, 2]);
    assert_eq!(matching_choices(&labels, ""), vec![0, 1, 2, 3]);
    assert_eq!(matching_choices(&labels, "zz"), Vec::<usize>::new());
}
