//! The list of controls that a view shows: which keys do what.
//!
//! The list is laid out here, as lines of spans of text. Drawing the lines
//! is left to the caller.

use vstd::prelude::*;

verus! {

/// The number of columns that `text` takes on a terminal, as `ratatui`
/// measures it.
pub uninterp spec fn display_width(text: Seq<char>) -> usize;

/// `Span::raw` and `Span::width` of `ratatui`: the width of a span that
/// holds `text`. It is the Unicode width of the text, which depends on the
/// text alone; the contract gives it its name.
#[verifier::external_body]
fn span_width(text: &str) -> (width: usize)
    ensures
        width == display_width(text@),
{
    ratatui::text::Span::raw(text).width()
}

/// What a [`KeyDisplay`] holds.
pub struct KeyView {
    /// The name of the key in ASCII.
    pub base: Seq<char>,
    /// A nicer name of the key, for terminals that show all of Unicode.
    pub utf8: Option<Seq<char>>,
}

/// What a [`ControlDisplay`] holds.
pub struct ControlView {
    /// What the control does.
    pub action: Seq<char>,
    /// The keys that trigger the control.
    pub keys: Seq<KeyView>,
}

/// A key as it is shown to the user.
pub struct KeyDisplay {
    /// The name of the key in ASCII.
    pub base: &'static str,
    /// A nicer name of the key, for terminals that show all of Unicode.
    pub utf8: Option<&'static str>,
}

/// A control as it is shown to the user: what it does, and the keys that
/// do it.
pub struct ControlDisplay {
    /// What the control does.
    pub action: &'static str,
    /// The keys that trigger the control.
    pub keys: Vec<KeyDisplay>,
}

impl View for KeyDisplay {
    type V = KeyView;

    open spec fn view(&self) -> KeyView {
        KeyView {
            base: self.base@,
            utf8: match self.utf8 {
                Some(name) => Some(name@),
                None => None,
            },
        }
    }
}

impl View for ControlDisplay {
    type V = ControlView;

    open spec fn view(&self) -> ControlView {
        ControlView {
            action: self.action@,
            keys: Seq::new(self.keys@.len(), |i: int| self.keys@[i]@),
        }
    }
}

/// What each of `controls` holds.
pub open spec fn control_views(controls: Seq<ControlDisplay>) -> Seq<ControlView> {
    Seq::new(controls.len(), |i: int| controls[i]@)
}

/// What a [`TextSpan`] holds.
pub struct SpanView {
    /// The text of the span.
    pub text: Seq<char>,
    /// Whether the text is shown in bold.
    pub bold: bool,
}

/// A piece of text of one style.
#[derive(Debug)]
pub struct TextSpan {
    /// The text of the span.
    pub text: String,
    /// Whether the text is shown in bold.
    pub bold: bool,
}

impl View for TextSpan {
    type V = SpanView;

    open spec fn view(&self) -> SpanView {
        SpanView { text: self.text@, bold: self.bold }
    }
}

/// What each span of a line holds.
pub open spec fn line_view(line: Seq<TextSpan>) -> Seq<SpanView> {
    Seq::new(line.len(), |i: int| line[i]@)
}

/// What each span of each line holds.
pub open spec fn lines_view(lines: Seq<Vec<TextSpan>>) -> Seq<Seq<SpanView>> {
    Seq::new(lines.len(), |i: int| line_view(lines[i]@))
}

/// A span of plain text.
pub open spec fn plain(text: Seq<char>) -> SpanView {
    SpanView { text, bold: false }
}

/// A span of bold text.
pub open spec fn bold(text: Seq<char>) -> SpanView {
    SpanView { text, bold: true }
}

/// A run of `n` spaces.
pub open spec fn spaces(n: nat) -> Seq<char> {
    Seq::new(n, |i: int| ' ')
}

/// The name under which `key` is shown: the nicer one if there is one and
/// the terminal shows all of Unicode, else the one in ASCII.
pub open spec fn key_text(key: KeyView, utf8: bool) -> Seq<char> {
    match key.utf8 {
        Some(name) => if utf8 {
            name
        } else {
            key.base
        },
        None => key.base,
    }
}

/// The spans that show `keys`: each key in bold, with " or " between one
/// key and the next.
pub open spec fn key_spans(keys: Seq<KeyView>, utf8: bool) -> Seq<SpanView>
    decreases keys.len(),
{
    if keys.len() == 0 {
        Seq::empty()
    } else if keys.len() == 1 {
        Seq::empty().push(bold(key_text(keys.last(), utf8)))
    } else {
        key_spans(keys.drop_last(), utf8).push(plain(" or "@)).push(
            bold(key_text(keys.last(), utf8)),
        )
    }
}

/// The spans that show `control`, behind `indent` spaces: what the control
/// does, " = ", and its keys.
pub open spec fn control_spans(control: ControlView, utf8: bool, indent: nat) -> Seq<SpanView> {
    Seq::empty().push(plain(spaces(indent))).push(plain(control.action)).push(plain(" = "@))
        + key_spans(control.keys, utf8)
}

/// The spans that show each of `controls`, without indent.
pub open spec fn all_control_spans(controls: Seq<ControlView>, utf8: bool) -> Seq<Seq<SpanView>> {
    Seq::new(controls.len(), |i: int| control_spans(controls[i], utf8, 0))
}

/// The width of a line: the widths of its spans added up.
pub open spec fn line_width(line: Seq<SpanView>) -> nat
    decreases line.len(),
{
    if line.len() == 0 {
        0
    } else {
        line_width(line.drop_last()) + display_width(line.last().text) as nat
    }
}

/// What stands between two controls on a line.
pub open spec fn separator() -> SpanView {
    plain(", "@)
}

/// The lines after the control with the number `idx` was placed.
///
/// The first control, and any control that finds the last line empty, goes
/// onto the last line as it is. Any other goes onto the last line behind a
/// separator if the line, the separator and the control together are at
/// most `area_width` wide; else the separator ends the last line, and the
/// control starts a new one.
pub open spec fn placed(
    lines: Seq<Seq<SpanView>>,
    idx: int,
    control: Seq<SpanView>,
    area_width: nat,
) -> Seq<Seq<SpanView>> {
    let current = lines.last();
    if idx == 0 || line_width(current) == 0 {
        lines.drop_last().push(current + control)
    } else if line_width(current) + display_width(separator().text) + line_width(control)
        <= area_width {
        lines.drop_last().push(current.push(separator()) + control)
    } else {
        lines.drop_last().push(current.push(separator())).push(control)
    }
}

/// The lines that show `controls` in an area that is `area_width` wide:
/// the heading "controls: ", and the controls placed behind it one by one.
pub open spec fn laid_out(controls: Seq<Seq<SpanView>>, area_width: nat) -> Seq<Seq<SpanView>>
    decreases controls.len(),
{
    if controls.len() == 0 {
        Seq::empty().push(Seq::empty().push(plain("controls: "@)))
    } else {
        placed(
            laid_out(controls.drop_last(), area_width),
            controls.len() - 1,
            controls.last(),
            area_width,
        )
    }
}

/// The lines that explain `controls` in a help text: the heading
/// "controls:", and each control on a line of its own, behind two spaces.
pub open spec fn listed(controls: Seq<ControlView>, utf8: bool) -> Seq<Seq<SpanView>> {
    Seq::empty().push(Seq::empty().push(plain("controls:"@))) + Seq::new(
        controls.len(),
        |i: int| control_spans(controls[i], utf8, 2),
    )
}

/// The controls that every view has: pausing and quitting.
pub open spec fn universal() -> Seq<ControlView> {
    Seq::empty().push(
        ControlView {
            action: "toggle pause"@,
            keys: Seq::empty().push(KeyView { base: "space"@, utf8: None }),
        },
    ).push(
        ControlView { action: "quit"@, keys: Seq::empty().push(KeyView { base: "q"@, utf8: None }) },
    )
}

/// The controls that every view has.
pub fn universal_controls() -> (controls: Vec<ControlDisplay>)
    ensures
        control_views(controls@) == universal(),
{
    let mut pause_keys: Vec<KeyDisplay> = Vec::new();
    pause_keys.push(KeyDisplay { base: "space", utf8: None });
    let mut quit_keys: Vec<KeyDisplay> = Vec::new();
    quit_keys.push(KeyDisplay { base: "q", utf8: None });
    let mut controls: Vec<ControlDisplay> = Vec::new();
    controls.push(ControlDisplay { action: "toggle pause", keys: pause_keys });
    controls.push(ControlDisplay { action: "quit", keys: quit_keys });
    proof {
        assert(controls@[0]@.keys =~= universal()[0].keys);
        assert(controls@[1]@.keys =~= universal()[1].keys);
        assert(control_views(controls@) =~= universal());
    }
    controls
}

/// A string of `n` spaces.
fn indentation(n: usize) -> (text: String)
    ensures
        text@ == spaces(n as nat),
{
    let mut text = String::new();
    let mut i: usize = 0;
    proof {
        reveal_strlit(" ");
    }
    while i < n
        invariant
            i <= n,
            text@ == spaces(i as nat),
            " "@.len() == 1,
            " "@[0] == ' ',
        decreases n - i,
    {
        text.append(" ");
        i += 1;
        assert(text@ =~= spaces(i as nat));
    }
    text
}

/// The width of a line.
fn width_of(line: &Vec<TextSpan>) -> (width: u128)
    ensures
        width == line_width(line_view(line@)),
{
    let mut width: u128 = 0;
    let mut i: usize = 0;
    while i < line.len()
        invariant
            i <= line@.len(),
            width == line_width(line_view(line@).take(i as int)),
            width <= i * usize::MAX,
        decreases line@.len() - i,
    {
        proof {
            assert(line_view(line@).take(i + 1).drop_last() =~= line_view(line@).take(i as int));
            assert((i + 1) * usize::MAX == i * usize::MAX + usize::MAX) by (nonlinear_arith);
            assert(i * usize::MAX <= usize::MAX * usize::MAX) by (nonlinear_arith)
                requires
                    i <= usize::MAX,
            ;
        }
        width = width + span_width(line[i].text.as_str()) as u128;
        i += 1;
    }
    proof {
        assert(line_view(line@).take(i as int) =~= line_view(line@));
    }
    width
}

impl ControlDisplay {
    /// The spans that show the control behind `indent` spaces, as
    /// [`control_spans`] describes.
    pub fn to_spans(&self, utf8: bool, indent: usize) -> (spans: Vec<TextSpan>)
        ensures
            line_view(spans@) == control_spans(self@, utf8, indent as nat),
    {
        let mut spans: Vec<TextSpan> = Vec::new();
        spans.push(TextSpan { text: indentation(indent), bold: false });
        spans.push(TextSpan { text: self.action.to_owned(), bold: false });
        spans.push(TextSpan { text: " = ".to_owned(), bold: false });
        let ghost head = line_view(spans@);
        assert(head =~= Seq::empty().push(plain(spaces(indent as nat))).push(
            plain(self.action@),
        ).push(plain(" = "@)));
        let mut idx: usize = 0;
        let ghost all_keys = self@.keys;
        assert(line_view(spans@) =~= head + key_spans(all_keys.take(0), utf8));
        while idx < self.keys.len()
            invariant
                idx <= self.keys@.len(),
                all_keys == self@.keys,
                line_view(spans@) == head + key_spans(all_keys.take(idx as int), utf8),
            decreases self.keys@.len() - idx,
        {
            let ghost before = line_view(spans@);
            proof {
                assert(all_keys.take(idx + 1).drop_last() =~= all_keys.take(idx as int));
            }
            if idx > 0 {
                spans.push(TextSpan { text: " or ".to_owned(), bold: false });
            }
            let key = &self.keys[idx];
            let name = match key.utf8 {
                Some(name) => if utf8 {
                    name
                } else {
                    key.base
                },
                None => key.base,
            };
            spans.push(TextSpan { text: name.to_owned(), bold: true });
            idx += 1;
            proof {
                let keys = all_keys.take(idx as int);
                assert(keys.last() == key@);
                if idx > 1 {
                    assert(line_view(spans@) =~= before.push(plain(" or "@)).push(
                        bold(key_text(keys.last(), utf8)),
                    ));
                } else {
                    assert(line_view(spans@) =~= before.push(bold(key_text(keys.last(), utf8))));
                    assert(key_spans(keys.drop_last(), utf8) =~= Seq::<SpanView>::empty());
                }
                assert(line_view(spans@) =~= head + key_spans(keys, utf8));
            }
        }
        proof {
            assert(all_keys.take(idx as int) =~= all_keys);
        }
        spans
    }
}

/// The list of the controls of a view, laid out for an area of a given
/// width.
pub struct Controls {
    lines: Vec<Vec<TextSpan>>,
    height: u16,
}

impl Controls {
    /// The lines of the list.
    pub closed spec fn lines(&self) -> Seq<Seq<SpanView>> {
        lines_view(self.lines@)
    }

    /// The number of lines of the list, as far as it fits in 16 bits.
    pub closed spec fn spec_height(&self) -> u16 {
        self.height
    }

    /// Lays out the controls of a view, followed by the controls that every
    /// view has, for an area that is `area_width` wide, as [`laid_out`]
    /// describes.
    pub fn new(view_controls: &Vec<ControlDisplay>, area_width: u16, utf8: bool) -> (controls:
        Controls)
        ensures
            controls.lines() == laid_out(
                all_control_spans(control_views(view_controls@) + universal(), utf8),
                area_width as nat,
            ),
            controls.spec_height() == controls.lines().len() % 0x10000,
    {
        let shared = universal_controls();
        let ghost all = control_views(view_controls@) + universal();
        let ghost spans = all_control_spans(all, utf8);
        let mut line_controls: Vec<Vec<TextSpan>> = Vec::new();
        let mut i: usize = 0;
        while i < view_controls.len()
            invariant
                i <= view_controls@.len(),
                all == control_views(view_controls@) + universal(),
                spans == all_control_spans(all, utf8),
                lines_view(line_controls@) == spans.take(i as int),
            decreases view_controls@.len() - i,
        {
            let ghost before = lines_view(line_controls@);
            line_controls.push(view_controls[i].to_spans(utf8, 0));
            i += 1;
            assert(lines_view(line_controls@) =~= before.push(spans[i - 1]));
            assert(spans.take(i as int) =~= before.push(spans[i - 1]));
        }
        let mut j: usize = 0;
        while j < shared.len()
            invariant
                j <= shared@.len(),
                control_views(shared@) == universal(),
                all == control_views(view_controls@) + universal(),
                spans == all_control_spans(all, utf8),
                lines_view(line_controls@) == spans.take(view_controls@.len() + j),
            decreases shared@.len() - j,
        {
            let ghost before = lines_view(line_controls@);
            line_controls.push(shared[j].to_spans(utf8, 0));
            j += 1;
            assert(lines_view(line_controls@) =~= before.push(spans[view_controls@.len() + j - 1]));
            assert(spans.take(view_controls@.len() + j) =~= before.push(
                spans[view_controls@.len() + j - 1],
            ));
        }
        assert(spans.take(spans.len() as int) =~= spans);
        let separator_width = span_width(", ") as u128;
        let area = area_width as u128;
        let mut done: Vec<Vec<TextSpan>> = Vec::new();
        let mut current: Vec<TextSpan> = Vec::new();
        current.push(TextSpan { text: "controls: ".to_owned(), bold: false });
        proof {
            let heading = Seq::<SpanView>::empty().push(plain("controls: "@));
            assert(line_view(current@) =~= heading);
            assert(lines_view(done@.push(current)) =~= Seq::<Seq<SpanView>>::empty().push(heading));
        }
        let ghost controls = line_controls@;
        let mut first = true;
        for control in it: line_controls
            invariant
                it.seq() == controls,
                lines_view(controls) == spans,
                first == (it.index() == 0),
                area == area_width,
                separator_width == display_width(separator().text),
                lines_view(done@.push(current)) == laid_out(
                    spans.take(it.index() as int),
                    area_width as nat,
                ),
        {
            let ghost idx = it.index() as int;
            let ghost lines = lines_view(done@.push(current));
            let ghost line = line_view(current@);
            proof {
                assert(spans.take(idx + 1).drop_last() =~= spans.take(idx));
                assert(spans.take(idx + 1).last() == spans[idx]);
                assert(line_view(control@) == lines_view(controls)[idx]);
                assert(lines.last() == line);
                assert(lines.drop_last() =~= lines_view(done@));
            }
            let current_width = width_of(&current);
            if first || current_width == 0 {
                let mut control = control;
                current.append(&mut control);
                proof {
                    assert(line_view(current@) =~= line + spans[idx]);
                    assert(lines_view(done@.push(current)) =~= lines.drop_last().push(
                        line + spans[idx],
                    ));
                }
            } else {
                let control_width = width_of(&control);
                current.push(TextSpan { text: ", ".to_owned(), bold: false });
                let fits = current_width <= area && separator_width <= area && control_width <= area
                    && current_width + separator_width + control_width <= area;
                if fits {
                    let mut control = control;
                    current.append(&mut control);
                    proof {
                        assert(line_view(current@) =~= line.push(separator()) + spans[idx]);
                        assert(lines_view(done@.push(current)) =~= lines.drop_last().push(
                            line.push(separator()) + spans[idx],
                        ));
                    }
                } else {
                    proof {
                        assert(line_view(current@) =~= line.push(separator()));
                    }
                    let mut finished: Vec<TextSpan> = control;
                    core::mem::swap(&mut current, &mut finished);
                    done.push(finished);
                    proof {
                        assert(lines_view(done@.push(current)) =~= lines.drop_last().push(
                            line.push(separator()),
                        ).push(spans[idx]));
                    }
                }
            }
            first = false;
        }
        done.push(current);
        let height = (done.len() % 0x10000) as u16;
        Controls { lines: done, height }
    }

    /// The number of lines of the list, as far as it fits in 16 bits.
    pub fn height(&self) -> (height: u16)
        ensures
            height == self.spec_height(),
    {
        self.height
    }

    /// The lines of the list, for drawing.
    pub fn into_lines(self) -> (lines: Vec<Vec<TextSpan>>)
        ensures
            lines_view(lines@) == self.lines(),
    {
        self.lines
    }
}

/// The lines that explain the controls of a view, followed by the controls
/// that every view has, in a help text, as [`listed`] describes.
pub fn controls_paragraph(view_controls: &Vec<ControlDisplay>, utf8: bool) -> (lines: Vec<
    Vec<TextSpan>,
>)
    ensures
        lines_view(lines@) == listed(control_views(view_controls@) + universal(), utf8),
{
    let shared = universal_controls();
    let ghost all = control_views(view_controls@) + universal();
    let mut lines: Vec<Vec<TextSpan>> = Vec::new();
    let mut heading: Vec<TextSpan> = Vec::new();
    heading.push(TextSpan { text: "controls:".to_owned(), bold: false });
    lines.push(heading);
    let ghost head = lines_view(lines@);
    proof {
        let heading = Seq::<SpanView>::empty().push(plain("controls:"@));
        assert(line_view(lines@[0]@) =~= heading);
        assert(head =~= Seq::<Seq<SpanView>>::empty().push(heading));
    }
    let mut i: usize = 0;
    while i < view_controls.len()
        invariant
            i <= view_controls@.len(),
            all == control_views(view_controls@) + universal(),
            lines_view(lines@) == head + Seq::new(
                i as nat,
                |k: int| control_spans(all[k], utf8, 2),
            ),
        decreases view_controls@.len() - i,
    {
        let ghost before = lines_view(lines@);
        lines.push(view_controls[i].to_spans(utf8, 2));
        i += 1;
        assert(lines_view(lines@) =~= before.push(control_spans(all[i - 1], utf8, 2)));
    }
    let mut j: usize = 0;
    while j < shared.len()
        invariant
            j <= shared@.len(),
            control_views(shared@) == universal(),
            all == control_views(view_controls@) + universal(),
            lines_view(lines@) == head + Seq::new(
                (view_controls@.len() + j) as nat,
                |k: int| control_spans(all[k], utf8, 2),
            ),
        decreases shared@.len() - j,
    {
        let ghost before = lines_view(lines@);
        lines.push(shared[j].to_spans(utf8, 2));
        j += 1;
        assert(lines_view(lines@) =~= before.push(
            control_spans(all[view_controls@.len() + j - 1], utf8, 2),
        ));
    }
    lines
}

} // verus!
