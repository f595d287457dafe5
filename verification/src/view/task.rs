//! The view of a single task.

use crate::view::controls::{control_views, ControlDisplay, ControlView, KeyDisplay, KeyView};
use vstd::prelude::*;

verus! {

/// The controls of the view of a task: one, which leads back to the list of
/// tasks.
pub open spec fn task_controls() -> Seq<ControlView> {
    Seq::empty().push(
        ControlView {
            action: "return to task list"@,
            keys: Seq::empty().push(KeyView { base: "esc"@, utf8: Some("\u{238B} esc"@) }),
        },
    )
}

/// The controls of the view of a task.
pub fn view_controls() -> (controls: Vec<ControlDisplay>)
    ensures
        control_views(controls@) == task_controls(),
{
    let mut keys: Vec<KeyDisplay> = Vec::new();
    keys.push(KeyDisplay { base: "esc", utf8: Some("\u{238B} esc") });
    let mut controls: Vec<ControlDisplay> = Vec::new();
    controls.push(ControlDisplay { action: "return to task list", keys });
    proof {
        assert(controls@[0]@.keys =~= task_controls()[0].keys);
        assert(control_views(controls@) =~= task_controls());
    }
    controls
}

/// The heading in front of the place where a task was spawned.
pub const LOCATION_TITLE: &'static str = "Location: ";

/// What stands for the part of a text that was cut off: one character where
/// the terminal shows all of Unicode, else three dots.
pub open spec fn ellipsis(utf8: bool) -> Seq<char> {
    if utf8 {
        "\u{2026}"@
    } else {
        "..."@
    }
}

/// The number of characters that the place where a task was spawned may
/// take in an area that is `area_width` wide: what the border and a heading
/// of `title_len` characters leave of it.
pub open spec fn location_width(area_width: u16, title_len: nat) -> nat {
    if area_width >= 2 + title_len {
        (area_width - 2 - title_len) as nat
    } else {
        0
    }
}

/// The place where a task was spawned, cut to `max_width` characters: as it
/// is if it is short enough, else an ellipsis and the end of it. Where not
/// even the ellipsis fits, the ellipsis stands alone.
pub open spec fn shortened(location: Seq<char>, max_width: nat, utf8: bool) -> Seq<char> {
    if location.len() <= max_width {
        location
    } else if ellipsis(utf8).len() >= max_width {
        ellipsis(utf8)
    } else {
        ellipsis(utf8) + location.skip(location.len() - max_width + ellipsis(utf8).len())
    }
}

/// Computes [`location_width`].
pub fn location_max_width(area_width: u16, title: &str) -> (width: usize)
    ensures
        width == location_width(area_width, title@.len()),
{
    let title_len = title.unicode_len();
    let area_width = area_width as usize;
    if title_len <= area_width && area_width - title_len >= 2 {
        area_width - title_len - 2
    } else {
        0
    }
}

/// Computes [`shortened`].
pub fn shorten_location(location: &str, max_width: usize, utf8: bool) -> (text: String)
    ensures
        text@ == shortened(location@, max_width as nat, utf8),
        text@.len() <= max_width || text@ == ellipsis(utf8),
{
    let len = location.unicode_len();
    if len <= max_width {
        return location.to_owned();
    }
    let dots = if utf8 {
        "\u{2026}"
    } else {
        "..."
    };
    let dots_len = dots.unicode_len();
    let mut text = dots.to_owned();
    if dots_len >= max_width {
        return text;
    }
    let from = len - max_width + dots_len;
    text.append(location.substring_char(from, len));
    proof {
        assert(location@.subrange(from as int, len as int) =~= location@.skip(from as int));
    }
    text
}

} // verus!
