use tokio_console::view::controls::{
    controls_paragraph, universal_controls, ControlDisplay, Controls, KeyDisplay, TextSpan,
};
use tokio_console::view::task::{
    location_max_width, shorten_location, view_controls, LOCATION_TITLE,
};

fn text(line: &[TextSpan]) -> String {
    line.iter().map(|span| span.text.as_str()).collect()
}

fn texts(lines: &[Vec<TextSpan>]) -> Vec<String> {
    lines.iter().map(|line| text(line)).collect()
}

fn control(action: &'static str, key: &'static str) -> ControlDisplay {
    ControlDisplay { action, keys: vec![KeyDisplay { base: key, utf8: None }] }
}

#[test]
fn universal_controls_are_pause_and_quit() {
    let controls = universal_controls();
    assert_eq!(controls.len(), 2);
    assert_eq!(controls[0].action, "toggle pause");
    assert_eq!(controls[0].keys.len(), 1);
    assert_eq!(controls[0].keys[0].base, "space");
    assert_eq!(controls[0].keys[0].utf8, None);
    assert_eq!(controls[1].action, "quit");
    assert_eq!(controls[1].keys[0].base, "q");
    assert_eq!(controls[1].keys[0].utf8, None);
}

#[test]
fn task_view_has_one_control() {
    let controls = view_controls();
    assert_eq!(controls.len(), 1);
    assert_eq!(controls[0].action, "return to task list");
    assert_eq!(controls[0].keys.len(), 1);
    assert_eq!(controls[0].keys[0].base, "esc");
    assert_eq!(controls[0].keys[0].utf8, Some("\u{238B} esc"));
}

#[test]
fn to_spans_shows_action_and_keys() {
    let control = ControlDisplay {
        action: "select",
        keys: vec![
            KeyDisplay { base: "up", utf8: Some("\u{2191}") },
            KeyDisplay { base: "k", utf8: None },
            KeyDisplay { base: "down", utf8: Some("\u{2193}") },
        ],
    };
    let spans = control.to_spans(false, 0);
    let parts: Vec<(&str, bool)> = spans.iter().map(|s| (s.text.as_str(), s.bold)).collect();
    assert_eq!(
        parts,
        vec![
            ("", false),
            ("select", false),
            (" = ", false),
            ("up", true),
            (" or ", false),
            ("k", true),
            (" or ", false),
            ("down", true),
        ]
    );
    let spans = control.to_spans(true, 2);
    assert_eq!(text(&spans), "  select = \u{2191} or k or \u{2193}");
    assert_eq!(spans[0].text, "  ");
    assert!(spans[3].bold);
    assert!(!spans[4].bold);
}

#[test]
fn to_spans_without_keys() {
    let control = ControlDisplay { action: "nothing", keys: Vec::new() };
    assert_eq!(text(&control.to_spans(true, 3)), "   nothing = ");
    assert_eq!(control.to_spans(true, 3).len(), 3);
}

#[test]
fn controls_fit_on_one_line_in_a_wide_area() {
    let controls = Controls::new(&view_controls(), 200, false);
    assert_eq!(controls.height(), 1);
    assert_eq!(
        texts(&controls.into_lines()),
        vec!["controls: return to task list = esc, toggle pause = space, quit = q"]
    );
}

#[test]
fn controls_use_the_nicer_key_names_with_utf8() {
    let controls = Controls::new(&view_controls(), 200, true);
    assert_eq!(
        texts(&controls.into_lines()),
        vec!["controls: return to task list = \u{238B} esc, toggle pause = space, quit = q"]
    );
}

#[test]
fn controls_wrap_where_the_area_is_narrow() {
    // "controls: return to task list = esc" is 35 columns wide,
    // ", toggle pause = space" adds 22, and ", quit = q" adds 10.
    let controls = Controls::new(&view_controls(), 57, false);
    assert_eq!(controls.height(), 2);
    assert_eq!(
        texts(&controls.into_lines()),
        vec!["controls: return to task list = esc, toggle pause = space, ", "quit = q"]
    );
    let controls = Controls::new(&view_controls(), 56, false);
    assert_eq!(controls.height(), 2);
    assert_eq!(
        texts(&controls.into_lines()),
        vec!["controls: return to task list = esc, ", "toggle pause = space, quit = q"]
    );
    // "toggle pause = space, quit = q" is 30 columns wide
    let controls = Controls::new(&view_controls(), 30, false);
    assert_eq!(controls.height(), 2);
    let controls = Controls::new(&view_controls(), 29, false);
    assert_eq!(controls.height(), 3);
    assert_eq!(
        texts(&controls.into_lines()),
        vec!["controls: return to task list = esc, ", "toggle pause = space, ", "quit = q"]
    );
    let controls = Controls::new(&view_controls(), 67, false);
    assert_eq!(controls.height(), 1);
    let controls = Controls::new(&view_controls(), 66, false);
    assert_eq!(controls.height(), 2);
}

#[test]
fn first_control_stays_on_the_heading_line_however_narrow() {
    let controls = Controls::new(&view_controls(), 0, false);
    assert_eq!(controls.height(), 3);
    assert_eq!(
        texts(&controls.into_lines()),
        vec!["controls: return to task list = esc, ", "toggle pause = space, ", "quit = q"]
    );
}

#[test]
fn controls_without_view_controls() {
    let controls = Controls::new(&Vec::new(), 200, false);
    assert_eq!(controls.height(), 1);
    assert_eq!(
        texts(&controls.into_lines()),
        vec!["controls: toggle pause = space, quit = q"]
    );
}

#[test]
fn width_counts_columns_not_bytes() {
    // the wide characters take two columns each, and three bytes
    let wide = vec![control("\u{4e16}\u{754c}", "w")];
    // "controls: 世界 = w" is 18 columns wide; with ", toggle pause = space" 40
    let controls = Controls::new(&wide, 40, false);
    assert_eq!(
        texts(&controls.into_lines()),
        vec!["controls: \u{4e16}\u{754c} = w, toggle pause = space, ", "quit = q"]
    );
    let controls = Controls::new(&wide, 39, false);
    assert_eq!(
        texts(&controls.into_lines()),
        vec!["controls: \u{4e16}\u{754c} = w, ", "toggle pause = space, quit = q"]
    );
}

#[test]
fn help_lists_one_control_per_line() {
    let lines = controls_paragraph(&view_controls(), true);
    assert_eq!(
        texts(&lines),
        vec![
            "controls:",
            "  return to task list = \u{238B} esc",
            "  toggle pause = space",
            "  quit = q",
        ]
    );
    let lines = controls_paragraph(&Vec::new(), false);
    assert_eq!(texts(&lines), vec!["controls:", "  toggle pause = space", "  quit = q"]);
}

#[test]
fn location_width_is_what_border_and_heading_leave() {
    assert_eq!(LOCATION_TITLE, "Location: ");
    assert_eq!(location_max_width(40, LOCATION_TITLE), 28);
    assert_eq!(location_max_width(13, LOCATION_TITLE), 1);
    assert_eq!(location_max_width(12, LOCATION_TITLE), 0);
    assert_eq!(location_max_width(11, LOCATION_TITLE), 0);
    assert_eq!(location_max_width(0, LOCATION_TITLE), 0);
    assert_eq!(location_max_width(u16::MAX, ""), 65_533);
}

#[test]
fn short_location_is_shown_whole() {
    assert_eq!(shorten_location("src/main.rs:10:5", 16, false), "src/main.rs:10:5");
    assert_eq!(shorten_location("src/main.rs:10:5", 100, true), "src/main.rs:10:5");
    assert_eq!(shorten_location("", 0, true), "");
}

#[test]
fn long_location_keeps_its_end() {
    assert_eq!(shorten_location("src/main.rs:10:5", 15, false), "...main.rs:10:5");
    assert_eq!(shorten_location("src/main.rs:10:5", 15, true), "\u{2026}c/main.rs:10:5");
    assert_eq!(shorten_location("src/main.rs:10:5", 4, false), "...5");
    assert_eq!(shorten_location("src/main.rs:10:5", 2, true), "\u{2026}5");
}

#[test]
fn ellipsis_stands_alone_where_nothing_else_fits() {
    assert_eq!(shorten_location("src/main.rs:10:5", 3, false), "...");
    assert_eq!(shorten_location("src/main.rs:10:5", 1, false), "...");
    assert_eq!(shorten_location("src/main.rs:10:5", 0, false), "...");
    assert_eq!(shorten_location("src/main.rs:10:5", 1, true), "\u{2026}");
    assert_eq!(shorten_location("src/main.rs:10:5", 0, true), "\u{2026}");
}

#[test]
fn location_is_cut_by_characters() {
    // seven characters, fifteen bytes
    let location = "\u{4e16}\u{754c}/a.rs";
    assert_eq!(shorten_location(location, 7, false), location);
    assert_eq!(shorten_location(location, 6, false), "....rs");
    assert_eq!(shorten_location(location, 6, true), "\u{2026}/a.rs");
    let other = "a/\u{4e16}\u{754c}";
    assert_eq!(shorten_location(other, 3, true), "\u{2026}\u{4e16}\u{754c}");
}
