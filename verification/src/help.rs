//! The list of keys.

use crate::style;
use crate::style::{Colour, Line, Span, SpanView, Style};
use crate::text;
use vstd::prelude::*;

verus! {

/// How wide the column of keys is.
pub const KEY_WIDTH: usize = 14;

/// The row of a heading.
pub open spec fn heading_row(title: Seq<char>) -> Seq<SpanView> {
    seq![style::span_of(title, Style::emphasised(Colour::Yellow))]
}

/// The row of a key: the key in a column, then what it does.
pub open spec fn key_row(key: Seq<char>, does: Seq<char>) -> Seq<SpanView> {
    seq![
        style::span_of(
            "  "@ + text::left_aligned(key, KEY_WIDTH as nat),
            Style::coloured(Colour::Cyan),
        ),
        style::raw_span(does),
    ]
}

/// An empty row.
pub open spec fn blank_row() -> Seq<SpanView> {
    seq![]
}

fn add_heading(out: &mut Vec<Line>, title: &str)
    ensures
        style::lines_view(final(out)@) == style::lines_view(old(out)@).push(heading_row(title@)),
{
    style::add_line(out, Line::of(Span::styled(title, Style::bold(Colour::Yellow))));
}

fn add_key(out: &mut Vec<Line>, key: &str, does: &str)
    ensures
        style::lines_view(final(out)@) == style::lines_view(old(out)@).push(key_row(key@, does@)),
{
    let column = style::concat("  ", text::align_left(key, KEY_WIDTH).as_str());
    style::add_line(
        out,
        Line::of_two(
            Span::styled(column.as_str(), Style::colour(Colour::Cyan)),
            Span::raw(does),
        ),
    );
}

fn add_blank(out: &mut Vec<Line>)
    ensures
        style::lines_view(final(out)@) == style::lines_view(old(out)@).push(blank_row()),
{
    style::add_line(out, Line::empty());
}

/// The keys of normal mode.
pub open spec fn normal_rows() -> Seq<Seq<SpanView>> {
    seq![
        heading_row("Today screen — normal mode"@),
        key_row("i  a  o"@, "insert at cursor / after / open line below"@),
        key_row("I  A  O"@, "insert at line start / line end / open line above"@),
        key_row("h j k l"@, "move by char / line"@),
        key_row("w  b  e"@, "next/prev word, word end"@),
        key_row("0  $"@, "line start / end"@),
        key_row("gg  G"@, "buffer top / bottom"@),
        key_row("x"@, "delete char under cursor"@),
        key_row("dd  cc"@, "delete / change line"@),
        key_row("D  C"@, "delete / change to end of line"@),
        key_row("u  Ctrl-R"@, "undo / redo"@),
        key_row("Tab"@, "switch pane (yesterday-did ↔ today-planning)"@),
        key_row("</>"@, "previous / next day"@),
        key_row("q"@, "quit (saves)"@),
        blank_row(),
    ]
}

fn add_normal(out: &mut Vec<Line>)
    ensures
        style::lines_view(final(out)@) == style::lines_view(old(out)@) + normal_rows(),
{
    let ghost before = style::lines_view(out@);
    add_heading(out, "Today screen — normal mode");
    add_key(out, "i  a  o", "insert at cursor / after / open line below");
    add_key(out, "I  A  O", "insert at line start / line end / open line above");
    add_key(out, "h j k l", "move by char / line");
    add_key(out, "w  b  e", "next/prev word, word end");
    add_key(out, "0  $", "line start / end");
    add_key(out, "gg  G", "buffer top / bottom");
    add_key(out, "x", "delete char under cursor");
    add_key(out, "dd  cc", "delete / change line");
    add_key(out, "D  C", "delete / change to end of line");
    add_key(out, "u  Ctrl-R", "undo / redo");
    add_key(out, "Tab", "switch pane (yesterday-did ↔ today-planning)");
    add_key(out, "</>", "previous / next day");
    add_key(out, "q", "quit (saves)");
    add_blank(out);
    assert(style::lines_view(out@) =~= before + normal_rows());
}

/// The keys of insert mode.
pub open spec fn insert_rows() -> Seq<Seq<SpanView>> {
    seq![
        heading_row("Today screen — insert mode"@),
        key_row("Esc  jj"@, "back to normal mode"@),
        key_row("Ctrl-Bksp"@, "delete previous word"@),
        key_row("Tab"@, "switch pane"@),
        blank_row(),
    ]
}

fn add_insert(out: &mut Vec<Line>)
    ensures
        style::lines_view(final(out)@) == style::lines_view(old(out)@) + insert_rows(),
{
    let ghost before = style::lines_view(out@);
    add_heading(out, "Today screen — insert mode");
    add_key(out, "Esc  jj", "back to normal mode");
    add_key(out, "Ctrl-Bksp", "delete previous word");
    add_key(out, "Tab", "switch pane");
    add_blank(out);
    assert(style::lines_view(out@) =~= before + insert_rows());
}

/// What can be yanked.
pub open spec fn yank_rows() -> Seq<Seq<SpanView>> {
    seq![
        heading_row("Yank (press y then target)"@),
        key_row("yt"@, "Teams (HTML, paste into Teams)"@),
        key_row("yx"@, "Xero (plain newline-separated)"@),
        key_row("yd"@, "yesterday's did (bulleted)"@),
        key_row("yp"@, "today's planning (bulleted)"@),
        blank_row(),
    ]
}

fn add_yank(out: &mut Vec<Line>)
    ensures
        style::lines_view(final(out)@) == style::lines_view(old(out)@) + yank_rows(),
{
    let ghost before = style::lines_view(out@);
    add_heading(out, "Yank (press y then target)");
    add_key(out, "yt", "Teams (HTML, paste into Teams)");
    add_key(out, "yx", "Xero (plain newline-separated)");
    add_key(out, "yd", "yesterday's did (bulleted)");
    add_key(out, "yp", "today's planning (bulleted)");
    add_blank(out);
    assert(style::lines_view(out@) =~= before + yank_rows());
}

/// The commands behind a colon.
pub open spec fn ex_rows() -> Seq<Seq<SpanView>> {
    seq![
        heading_row("Ex commands"@),
        key_row(":w"@, "save"@),
        key_row(":wq  :x"@, "save and quit"@),
        key_row(":q"@, "quit"@),
        blank_row(),
    ]
}

fn add_ex(out: &mut Vec<Line>)
    ensures
        style::lines_view(final(out)@) == style::lines_view(old(out)@) + ex_rows(),
{
    let ghost before = style::lines_view(out@);
    add_heading(out, "Ex commands");
    add_key(out, ":w", "save");
    add_key(out, ":wq  :x", "save and quit");
    add_key(out, ":q", "quit");
    add_blank(out);
    assert(style::lines_view(out@) =~= before + ex_rows());
}

/// What the leader key opens.
pub open spec fn leader_rows() -> Seq<Seq<SpanView>> {
    seq![
        heading_row("Leader (Space then key)"@),
        key_row("<Space>h"@, "open history"@),
        key_row("<Space>s"@, "open settings"@),
        key_row("<Space>?"@, "open this help"@),
        blank_row(),
    ]
}

fn add_leader(out: &mut Vec<Line>)
    ensures
        style::lines_view(final(out)@) == style::lines_view(old(out)@) + leader_rows(),
{
    let ghost before = style::lines_view(out@);
    add_heading(out, "Leader (Space then key)");
    add_key(out, "<Space>h", "open history");
    add_key(out, "<Space>s", "open settings");
    add_key(out, "<Space>?", "open this help");
    add_blank(out);
    assert(style::lines_view(out@) =~= before + leader_rows());
}

/// The keys of the settings screen.
pub open spec fn settings_rows() -> Seq<Seq<SpanView>> {
    seq![
        heading_row("Settings screen"@),
        key_row("j  k"@, "move between items / fields"@),
        key_row("l Enter"@, "enter submenu / edit text / toggle"@),
        key_row("h  Esc"@, "back to previous level (Esc at top saves+closes)"@),
        key_row("Space"@, "toggle bool / enter edit on text"@),
        key_row("Esc/Enter"@, "exit edit mode (in edit)"@),
        key_row(":w"@, "save without closing"@),
        key_row(":wq  :x"@, "save and close"@),
        key_row(":q"@, "close without saving"@),
        blank_row(),
    ]
}

fn add_settings(out: &mut Vec<Line>)
    ensures
        style::lines_view(final(out)@) == style::lines_view(old(out)@) + settings_rows(),
{
    let ghost before = style::lines_view(out@);
    add_heading(out, "Settings screen");
    add_key(out, "j  k", "move between items / fields");
    add_key(out, "l Enter", "enter submenu / edit text / toggle");
    add_key(out, "h  Esc", "back to previous level (Esc at top saves+closes)");
    add_key(out, "Space", "toggle bool / enter edit on text");
    add_key(out, "Esc/Enter", "exit edit mode (in edit)");
    add_key(out, ":w", "save without closing");
    add_key(out, ":wq  :x", "save and close");
    add_key(out, ":q", "close without saving");
    add_blank(out);
    assert(style::lines_view(out@) =~= before + settings_rows());
}

/// The keys of the history screen.
pub open spec fn history_rows() -> Seq<Seq<SpanView>> {
    seq![
        heading_row("History screen"@),
        key_row("j  k"@, "move one day"@),
        key_row("<n>j  <n>k"@, "move n days (multi-digit, e.g. 22j)"@),
        key_row("gg"@, "jump to earliest recorded day"@),
        key_row("G"@, "jump to today"@),
        key_row("z"@, "toggle box / compact view"@),
        key_row("Enter"@, "select day (lands as yesterday's did)"@),
        key_row("Esc  q"@, "close history"@),
        blank_row(),
    ]
}

fn add_history(out: &mut Vec<Line>)
    ensures
        style::lines_view(final(out)@) == style::lines_view(old(out)@) + history_rows(),
{
    let ghost before = style::lines_view(out@);
    add_heading(out, "History screen");
    add_key(out, "j  k", "move one day");
    add_key(out, "<n>j  <n>k", "move n days (multi-digit, e.g. 22j)");
    add_key(out, "gg", "jump to earliest recorded day");
    add_key(out, "G", "jump to today");
    add_key(out, "z", "toggle box / compact view");
    add_key(out, "Enter", "select day (lands as yesterday's did)");
    add_key(out, "Esc  q", "close history");
    add_blank(out);
    assert(style::lines_view(out@) =~= before + history_rows());
}

/// The keys that work everywhere.
pub open spec fn anywhere_rows() -> Seq<Seq<SpanView>> {
    seq![
        heading_row("Anywhere"@),
        key_row("?"@, "open this help"@),
        key_row("Ctrl-Q"@, "quit (saves)"@),
        blank_row(),
    ]
}

fn add_anywhere(out: &mut Vec<Line>)
    ensures
        style::lines_view(final(out)@) == style::lines_view(old(out)@) + anywhere_rows(),
{
    let ghost before = style::lines_view(out@);
    add_heading(out, "Anywhere");
    add_key(out, "?", "open this help");
    add_key(out, "Ctrl-Q", "quit (saves)");
    add_blank(out);
    assert(style::lines_view(out@) =~= before + anywhere_rows());
}

/// The whole list.
pub open spec fn help_rows() -> Seq<Seq<SpanView>> {
    normal_rows() + insert_rows() + yank_rows() + ex_rows() + leader_rows() + settings_rows() + history_rows() + anywhere_rows() + seq![
        seq![style::span_of("  Press any key to dismiss."@, Style::coloured(Colour::DarkGray))],
    ]
}

/// The list of keys.
pub fn content() -> (r: Vec<Line>)
    ensures
        style::lines_view(r@) == help_rows(),
{
    let mut out: Vec<Line> = Vec::new();
    assert(style::lines_view(out@) =~= Seq::<Seq<SpanView>>::empty());
    add_normal(&mut out);
    add_insert(&mut out);
    add_yank(&mut out);
    add_ex(&mut out);
    add_leader(&mut out);
    add_settings(&mut out);
    add_history(&mut out);
    add_anywhere(&mut out);
    style::add_line(
        &mut out,
        Line::of(Span::styled("  Press any key to dismiss.", Style::colour(Colour::DarkGray))),
    );
    assert(style::lines_view(out@) =~= help_rows());
    out
}

/// The title of the list.
pub fn title() -> (r: Span)
    ensures
        r@ == style::span_of(" Keybinds "@, Style::emphasised(Colour::Cyan)),
{
    Span::styled(" Keybinds ", Style::bold(Colour::Cyan))
}

/// The colour of the border.
pub fn border() -> (r: Colour)
    ensures
        r == Colour::Cyan,
{
    Colour::Cyan
}

/// How much of the screen is left on either side of what takes `percent` of it, in
/// percent.
pub fn margin(percent: u16) -> (r: u16)
    requires
        percent <= 100,
    ensures
        r == (100 - percent) / 2,
{
    (100 - percent) / 2
}

/// A row of the list: the key in cyan, two columns in and as wide as the widest, then
/// what it does.
pub proof fn lemma_key_row(key: Seq<char>, does: Seq<char>)
    ensures
        key_row(key, does).len() == 2,
        key_row(key, does)[0].text == seq![' ', ' '] + text::left_aligned(key, 14),
        key_row(key, does)[0].style.fg == Some(Colour::Cyan),
        key_row(key, does)[1].text == does,
{
    reveal_strlit("  ");
    assert("  "@ =~= seq![' ', ' ']);
}

/// The list has a heading and a row for each key, screen by screen, and an empty row
/// between; at its end it says how to leave it.
pub proof fn lemma_help_layout()
    ensures
        ({
            let rows = help_rows();
            &&& rows.len() == 60
            &&& rows[0] == heading_row("Today screen — normal mode"@)
            &&& rows[15] == heading_row("Today screen — insert mode"@)
            &&& rows[20] == heading_row("Yank (press y then target)"@)
            &&& rows[26] == heading_row("Ex commands"@)
            &&& rows[31] == heading_row("Leader (Space then key)"@)
            &&& rows[36] == heading_row("Settings screen"@)
            &&& rows[46] == heading_row("History screen"@)
            &&& rows[55] == heading_row("Anywhere"@)
            &&& rows[59][0].text == "  Press any key to dismiss."@
            &&& forall|i: int|
                0 <= i < 59 ==> (#[trigger] rows[i]).len() == if i == 0 || i == 15 || i == 20 || i
                    == 26 || i == 31 || i == 36 || i == 46 || i == 55 {
                    1int
                } else if i == 14 || i == 19 || i == 25 || i == 30 || i == 35 || i == 45 || i == 54
                    || i == 58 {
                    0
                } else {
                    2
                }
        }),
{
    let rows = help_rows();
    assert(rows.len() == 60);
    assert forall|i: int| 0 <= i < 59 implies (#[trigger] rows[i]).len() == if i == 0 || i == 15
        || i == 20 || i == 26 || i == 31 || i == 36 || i == 46 || i == 55 {
        1int
    } else if i == 14 || i == 19 || i == 25 || i == 30 || i == 35 || i == 45 || i == 54 || i == 58 {
        0
    } else {
        2
    } by {
        if i < 15 {
            assert(rows[i] == normal_rows()[i]);
        } else if i < 20 {
            assert(rows[i] == insert_rows()[i - 15]);
        } else if i < 26 {
            assert(rows[i] == yank_rows()[i - 20]);
        } else if i < 31 {
            assert(rows[i] == ex_rows()[i - 26]);
        } else if i < 36 {
            assert(rows[i] == leader_rows()[i - 31]);
        } else if i < 46 {
            assert(rows[i] == settings_rows()[i - 36]);
        } else if i < 55 {
            assert(rows[i] == history_rows()[i - 46]);
        } else {
            assert(rows[i] == anywhere_rows()[i - 55]);
        }
    }
}

} // verus!
