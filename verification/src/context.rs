//! The context pane: yesterday's planning, or what GitLab recorded.

use crate::date;
use crate::date::Date;
use crate::gitlab;
use crate::gitlab::{ProjectGroup, RawEvent, SummaryLine};
use crate::style;
use crate::style::{Colour, Line, Span, SpanView, Style};
use crate::text;
use vstd::prelude::*;

verus! {

/// What the pane shows.
#[derive(Clone, Copy, PartialEq, Eq, Debug, Structural)]
pub enum Tab {
    Planning,
    Gitlab,
}

impl Tab {
    /// The number of the tab.
    pub open spec fn index(self) -> int {
        match self {
            Tab::Planning => 0,
            Tab::Gitlab => 1,
        }
    }
}

/// Which tab is shown.
pub struct ContextState {
    pub tab: Tab,
}

impl ContextState {
    /// Starts with tab `initial`.
    pub fn new(initial: Tab) -> (r: Self)
        ensures
            r.tab == initial,
    {
        ContextState { tab: initial }
    }

    /// Goes `delta` tabs further, round and round.
    pub fn cycle(&mut self, delta: i32)
        requires
            old(self).tab.index() + delta <= i32::MAX,
        ensures
            final(self).tab == cycled(old(self).tab, delta as int),
    {
        let cur: i32 = match self.tab {
            Tab::Planning => 0,
            Tab::Gitlab => 1,
        };
        // `%` alone would be negative for a negative sum.
        let next: i32 = ((cur + delta) % 2 + 2) % 2;
        self.tab = if next == 0 {
            Tab::Planning
        } else {
            Tab::Gitlab
        };
    }
}

/// Where tab `t` leads by `delta`.
pub open spec fn cycled(t: Tab, delta: int) -> Tab {
    if (t.index() + delta) % 2 == 0 {
        Tab::Planning
    } else {
        Tab::Gitlab
    }
}

/// Going on by `a` and then by `b` is going on by `a + b`; so one step back
/// undoes one step on.
pub proof fn lemma_cycle_adds_up(t: Tab, a: int, b: int)
    ensures
        cycled(cycled(t, a), b) == cycled(t, a + b),
        cycled(t, 0) == t,
{
}

// ---------------------------------------------------------------------------
// Wrapping
// ---------------------------------------------------------------------------

/// The words of `s`: what white space separates.
pub open spec fn words(s: Seq<char>) -> Seq<Seq<char>>
    decreases s.len(),
{
    if s.len() == 0 {
        seq![]
    } else {
        let before = words(s.drop_last());
        let c = s.last();
        if text::is_white(c) {
            before
        } else if s.len() == 1 || text::is_white(s[s.len() - 2]) {
            before.push(seq![c])
        } else {
            before.drop_last().push(before.last().push(c))
        }
    }
}

/// `words` in lines: a word goes on the line where it fits in `width` with a
/// space before it, else on a line of its own.
pub open spec fn filled(words: Seq<Seq<char>>, width: nat) -> Seq<Seq<char>>
    decreases words.len(),
{
    if words.len() == 0 {
        seq![]
    } else {
        let lines = filled(words.drop_last(), width);
        let word = words.last();
        if lines.len() > 0 && lines.last().len() + 1 + word.len() <= width {
            lines.drop_last().push(lines.last() + seq![' '] + word)
        } else {
            lines.push(word)
        }
    }
}

/// `s` in lines of at most `width` characters where words allow it; one empty
/// line where it has no words.
pub open spec fn wrapped(s: Seq<char>, width: nat) -> Seq<Seq<char>> {
    if words(s).len() == 0 {
        seq![seq![]]
    } else {
        filled(words(s), width)
    }
}

proof fn lemma_words(s: Seq<char>)
    ensures
        forall|i: int| 0 <= i < words(s).len() ==> #[trigger] words(s)[i].len() > 0,
        forall|i: int, j: int|
            0 <= i < words(s).len() && 0 <= j < words(s)[i].len() ==> !text::is_white(
                #[trigger] words(s)[i][j],
            ),
        s.len() > 0 && !text::is_white(s.last()) ==> words(s).len() > 0,
    decreases s.len(),
{
    if s.len() > 0 {
        lemma_words(s.drop_last());
        let before = words(s.drop_last());
        let now = words(s);
        assert forall|i: int| 0 <= i < now.len() implies #[trigger] now[i].len() > 0 by {
            if i < before.len() {
                assert(before[i].len() > 0);
            }
        }
        assert forall|i: int, j: int|
            0 <= i < now.len() && 0 <= j < now[i].len() implies !text::is_white(
            #[trigger] now[i][j],
        ) by {
            if i < before.len() && j < before[i].len() {
                assert(now[i][j] == before[i][j]);
            }
        }
    }
}

/// The words of `text`, by white space.
pub fn split_words(text: &str) -> (r: Vec<String>)
    ensures
        text::texts(r@) == words(text@),
{
    let cs = text::chars_of(text);
    let mut out: Vec<String> = Vec::new();
    let mut i: usize = 0;
    while i < cs.len()
        invariant
            i <= cs.len(),
            cs@ == text@,
            text::texts(out@) == words(cs@.take(i as int)),
        decreases cs.len() - i,
    {
        let ghost seen = cs@.take(i as int);
        let ghost now = cs@.take(i + 1);
        assert(now.drop_last() =~= seen);
        let c: char = cs[i];
        if !text::is_whitespace(c) {
            proof {
                lemma_words(seen);
            }
            if i == 0 || text::is_whitespace(cs[i - 1]) {
                let mut word = String::new();
                word.push(c);
                assert(word@ =~= seq![c]);
                out.push(word);
                assert(text::texts(out@) =~= words(now));
            } else {
                assert(text::texts(out@).len() > 0);
                let ghost before = out@;
                if let Some(last) = out.pop() {
                    let mut word = last;
                    assert(word@ == text::texts(before).last());
                    word.push(c);
                    out.push(word);
                    assert(text::texts(out@) =~= text::texts(before).drop_last().push(word@));
                }
            }
        }
        i += 1;
    }
    assert(cs@.take(i as int) =~= text@);
    out
}

/// Greedy word-wrap. Whitespace is collapsed; a word longer than `width` is
/// emitted on its own line and allowed to overflow rather than being broken
/// mid-word.
pub fn wrap_words(text: &str, width: usize) -> (r: Vec<String>)
    ensures
        text::texts(r@) == wrapped(text@, width as nat),
        r@.len() > 0,
{
    let list = split_words(text);
    let ghost all = words(text@);
    proof {
        lemma_words(text@);
    }
    let mut lines: Vec<String> = Vec::new();
    let mut current = String::new();
    let mut i: usize = 0;
    while i < list.len()
        invariant
            i <= list.len(),
            text::texts(list@) == all,
            forall|j: int| 0 <= j < all.len() ==> #[trigger] all[j].len() > 0,
            i == 0 ==> lines@.len() == 0 && current@.len() == 0,
            i > 0 ==> current@.len() > 0 && text::texts(lines@).push(current@) == filled(
                all.take(i as int),
                width as nat,
            ),
        decreases list.len() - i,
    {
        let word = list[i].as_str();
        let ghost done = text::texts(lines@);
        let ghost now = all.take(i + 1);
        assert(word@ == all[i as int]);
        assert(now.drop_last() =~= all.take(i as int));
        assert(now.last() == word@);
        let word_len: usize = word.unicode_len();
        let current_len: usize = current.as_str().unicode_len();
        if current_len == 0 {
            current.append(word);
            assert(filled(now, width as nat) =~= done.push(current@)) by {
                assert(filled(all.take(0), width as nat) =~= Seq::<Seq<char>>::empty());
            }
        } else if word_len < width && current_len <= width - word_len - 1 {
            let ghost line = current@;
            current.push(' ');
            current.append(word);
            assert(current@ =~= line + seq![' '] + word@);
            assert(done.push(line).drop_last() =~= done);
        } else {
            let ghost line = current@;
            lines.push(current);
            assert(text::texts(lines@) =~= done.push(line));
            current = word.to_owned();
        }
        i += 1;
    }
    assert(all.take(i as int) =~= all);
    if i > 0 {
        let ghost done = text::texts(lines@);
        let ghost line = current@;
        lines.push(current);
        assert(text::texts(lines@) =~= done.push(line));
    } else {
        lines.push(String::new());
        assert(text::texts(lines@) =~= seq![Seq::<char>::empty()]);
    }
    lines
}

proof fn lemma_joined_push(parts: Seq<Seq<char>>, part: Seq<char>, sep: Seq<char>)
    ensures
        text::joined(parts.push(part), sep) == if parts.len() == 0 {
            part
        } else {
            text::joined(parts, sep) + sep + part
        },
{
    assert(parts.push(part).drop_last() =~= parts);
}

proof fn lemma_joined_extend_last(
    parts: Seq<Seq<char>>,
    last: Seq<char>,
    tail: Seq<char>,
    sep: Seq<char>,
)
    ensures
        text::joined(parts.push(last + tail), sep) == text::joined(parts.push(last), sep) + tail,
{
    lemma_joined_push(parts, last + tail, sep);
    lemma_joined_push(parts, last, sep);
    if parts.len() > 0 {
        let head = text::joined(parts, sep) + sep;
        assert(head + (last + tail) =~= (head + last) + tail);
    }
}

proof fn lemma_filled_joined(words: Seq<Seq<char>>, width: nat)
    ensures
        text::joined(filled(words, width), seq![' ']) == text::joined(words, seq![' ']),
        (filled(words, width).len() == 0) == (words.len() == 0),
    decreases words.len(),
{
    if words.len() > 0 {
        let before = words.drop_last();
        let word = words.last();
        let lines = filled(before, width);
        lemma_filled_joined(before, width);
        assert(before.push(word) =~= words);
        lemma_joined_push(before, word, seq![' ']);
        lemma_joined_push(lines, word, seq![' ']);
        if lines.len() > 0 {
            assert(lines.drop_last().push(lines.last()) =~= lines);
            lemma_joined_extend_last(lines.drop_last(), lines.last(), seq![' '] + word, seq![' ']);
            assert(lines.last() + (seq![' '] + word) =~= lines.last() + seq![' '] + word);
            let head = text::joined(lines, seq![' ']);
            assert(head + (seq![' '] + word) =~= head + seq![' '] + word);
        }
    }
}

/// Wrapping loses no word and changes none: the lines, put side by side, are the
/// words side by side.
pub proof fn lemma_wrap_keeps_words(s: Seq<char>, width: nat)
    ensures
        text::joined(wrapped(s, width), seq![' ']) == text::joined(words(s), seq![' ']),
{
    lemma_filled_joined(words(s), width);
}

proof fn lemma_filled_width(words: Seq<Seq<char>>, width: nat, i: int)
    requires
        0 <= i < filled(words, width).len(),
    ensures
        filled(words, width)[i].len() <= width || words.contains(filled(words, width)[i]),
    decreases words.len(),
{
    let before = words.drop_last();
    let lines = filled(before, width);
    if i < lines.len() {
        lemma_filled_width(before, width, i);
        if before.contains(lines[i]) {
            let k = choose|k: int| 0 <= k < before.len() && before[k] == lines[i];
            assert(words[k] == lines[i]);
        }
    } else {
        assert(words[words.len() - 1] == filled(words, width)[i]);
    }
}

/// Every line fits in the width, unless it is one word that does not.
pub proof fn lemma_wrap_fits(s: Seq<char>, width: nat, i: int)
    requires
        0 <= i < wrapped(s, width).len(),
    ensures
        wrapped(s, width)[i].len() <= width || words(s).contains(wrapped(s, width)[i]),
{
    if words(s).len() > 0 {
        lemma_filled_width(words(s), width, i);
    }
}

/// What is left of `width` behind a prefix, at least 1.
pub open spec fn body_width(width: nat, prefix: nat) -> nat {
    if width > prefix {
        (width - prefix) as nat
    } else {
        1
    }
}

fn width_left(width: usize, prefix: usize) -> (r: usize)
    ensures
        r == body_width(width as nat, prefix as nat),
{
    if width > prefix {
        width - prefix
    } else {
        1
    }
}

/// `segments`, the first behind `prefix` and the others indented as far.
pub open spec fn hung(
    prefix: Seq<char>,
    segments: Seq<Seq<char>>,
    style: Style,
) -> Seq<Seq<SpanView>> {
    Seq::new(
        segments.len(),
        |i: int|
            seq![
                style::span_of(
                    if i == 0 {
                        prefix
                    } else {
                        text::spaces(prefix.len())
                    },
                    style,
                ),
                style::span_of(segments[i], style),
            ],
    )
}

/// Wrap `text` so the first line carries `prefix` and continuation lines are
/// padded with spaces of the same visible width. Used for the planning tab.
pub fn wrap_with_prefix(prefix: &str, text: &str, style: Style, width: usize) -> (r: Vec<Line>)
    ensures
        style::lines_view(r@) == hung(
            prefix@,
            wrapped(text@, body_width(width as nat, prefix@.len())),
            style,
        ),
{
    let prefix_width: usize = prefix.unicode_len();
    let segments = wrap_words(text, width_left(width, prefix_width));
    let ghost all = text::texts(segments@);
    let indent = text::spaces_string(prefix_width);
    let mut out: Vec<Line> = Vec::new();
    let mut i: usize = 0;
    while i < segments.len()
        invariant
            i <= segments.len(),
            all == text::texts(segments@),
            indent@ == text::spaces(prefix@.len()),
            style::lines_view(out@) == hung(prefix@, all, style).take(i as int),
        decreases segments.len() - i,
    {
        let head = if i == 0 {
            prefix
        } else {
            indent.as_str()
        };
        let line = Line::of_two(
            Span::styled(head, style),
            Span::styled(segments[i].as_str(), style),
        );
        assert(all[i as int] == segments@[i as int]@);
        assert(hung(prefix@, all, style)[i as int] =~= line@);
        style::add_line(&mut out, line);
        assert(hung(prefix@, all, style).take(i + 1) =~= hung(prefix@, all, style).take(
            i as int,
        ).push(line@));
        i += 1;
    }
    assert(hung(prefix@, all, style).take(i as int) =~= hung(prefix@, all, style));
    out
}

/// How wide an icon is taken to be.
pub open spec fn icon_width(icon: Seq<char>) -> nat {
    if icon.len() > 0 {
        icon.len()
    } else {
        1
    }
}

/// `segments` of a summary line, the first behind its icon and the others
/// indented as far: 4 left margin + icon + 2 spaces + text.
pub open spec fn hung_by_icon(icon: Seq<char>, segments: Seq<Seq<char>>) -> Seq<Seq<SpanView>> {
    Seq::new(
        segments.len(),
        |i: int|
            if i == 0 {
                seq![
                    style::raw_span(text::spaces(4)),
                    style::span_of(icon, Style::coloured(Colour::Cyan)),
                    style::raw_span(text::spaces(2)),
                    style::raw_span(segments[i]),
                ]
            } else {
                seq![
                    style::raw_span(text::spaces(6 + icon_width(icon))),
                    style::raw_span(segments[i]),
                ]
            },
    )
}

/// A summary line in the pane.
pub open spec fn summary_rows(icon: Seq<char>, text: Seq<char>, width: nat) -> Seq<Seq<SpanView>> {
    hung_by_icon(icon, wrapped(text, body_width(width, 6 + icon_width(icon))))
}

/// Wrap a single GitLab summary line so continuation rows align under the
/// text column (past the icon), matching the unfocused-editor hang style.
pub fn wrap_gitlab_line(icon: &str, text: &str, width: usize) -> (r: Vec<Line>)
    ensures
        style::lines_view(r@) == summary_rows(icon@, text@, width as nat),
{
    let icon_len: usize = icon.unicode_len();
    let shown: usize = if icon_len > 0 {
        icon_len
    } else {
        1
    };
    let left: usize = if width > 6 {
        width_left(width - 6, shown)
    } else {
        1
    };
    let segments = wrap_words(text, left);
    let ghost all = text::texts(segments@);
    let ghost rows = hung_by_icon(icon@, all);
    let margin = text::spaces_string(4);
    let gap = text::spaces_string(2);
    let mut indent = text::spaces_string(6);
    indent.append(text::spaces_string(shown).as_str());
    assert(indent@ =~= text::spaces(6 + icon_width(icon@)));
    let mut out: Vec<Line> = Vec::new();
    let mut i: usize = 0;
    while i < segments.len()
        invariant
            i <= segments.len(),
            all == text::texts(segments@),
            rows == hung_by_icon(icon@, all),
            margin@ == text::spaces(4),
            gap@ == text::spaces(2),
            indent@ == text::spaces(6 + icon_width(icon@)),
            style::lines_view(out@) == rows.take(i as int),
        decreases segments.len() - i,
    {
        assert(all[i as int] == segments@[i as int]@);
        let seg = Span::raw(segments[i].as_str());
        let line = if i == 0 {
            Line::of_two(
                Span::raw(margin.as_str()),
                Span::styled(icon, Style::colour(Colour::Cyan)),
            ).with(Span::raw(gap.as_str())).with(seg)
        } else {
            Line::of_two(Span::raw(indent.as_str()), seg)
        };
        assert(rows[i as int] =~= line@);
        style::add_line(&mut out, line);
        assert(rows.take(i + 1) =~= rows.take(i as int).push(line@));
        i += 1;
    }
    assert(rows.take(i as int) =~= rows);
    out
}

// ---------------------------------------------------------------------------
// The pane
// ---------------------------------------------------------------------------

/// What is known of the day's GitLab events.
pub enum GitlabPaneStatus<'a> {
    Disabled,
    Loading,
    Events(&'a [RawEvent]),
    Error(&'a str),
}

impl<'a> GitlabPaneStatus<'a> {
    /// The commits of the events, if there are any, can be counted.
    pub open spec fn countable(self) -> bool {
        match self {
            GitlabPaneStatus::Events(events) => gitlab::commits_fit(gitlab::events_of(events@)),
            _ => true,
        }
    }

    /// How many events there are.
    pub open spec fn event_count(self) -> Option<nat> {
        match self {
            GitlabPaneStatus::Events(events) => Some(events@.len()),
            _ => None,
        }
    }
}

/// The title of the pane.
pub fn title(yesterday: Date) -> (r: String)
    ensures
        r@ == " Context — "@ + date::day_label(yesterday@) + " "@,
{
    let mut out = " Context — ".to_owned();
    out.append(yesterday.label().as_str());
    out.append(" ");
    out
}

/// The colour of the border.
pub fn border(focused: bool) -> (r: Colour)
    ensures
        r == if focused {
            Colour::Yellow
        } else {
            Colour::DarkGray
        },
{
    if focused {
        Colour::Yellow
    } else {
        Colour::DarkGray
    }
}

/// How the name of a tab is shown.
pub open spec fn tab_style(shown: bool) -> Style {
    if shown {
        Style::emphasised(Colour::Yellow)
    } else {
        Style::coloured(Colour::DarkGray)
    }
}

/// The line of tabs.
pub open spec fn tabs_row(tab: Tab, event_count: Option<nat>) -> Seq<SpanView> {
    seq![
        style::raw_span(" "@),
        style::span_of("Yesterday Planning"@, tab_style(tab == Tab::Planning)),
        style::raw_span("    "@),
        style::span_of(
            match event_count {
                Some(n) => "GitLab ("@ + text::decimal(n) + ")"@,
                None => "GitLab"@,
            },
            tab_style(tab == Tab::Gitlab),
        ),
        style::span_of("        [ ] switch tab"@, Style::coloured(Colour::DarkGray)),
    ]
}

fn name_style(shown: bool) -> (r: Style)
    ensures
        r == tab_style(shown),
{
    if shown {
        Style::bold(Colour::Yellow)
    } else {
        Style::colour(Colour::DarkGray)
    }
}

/// The line of tabs, the shown one standing out, and with the number of events
/// where they are known.
pub fn tabs(state: &ContextState, gitlab: &GitlabPaneStatus) -> (r: Line)
    ensures
        r@ == tabs_row(state.tab, gitlab.event_count()),
{
    let label = match gitlab {
        GitlabPaneStatus::Events(events) => {
            let mut out = "GitLab (".to_owned();
            out.append(text::to_decimal(events.len() as u64).as_str());
            out.append(")");
            out
        },
        _ => "GitLab".to_owned(),
    };
    let row = Line::of_two(
        Span::raw(" "),
        Span::styled("Yesterday Planning", name_style(state.tab == Tab::Planning)),
    ).with(Span::raw("    ")).with(
        Span::styled(label.as_str(), name_style(state.tab == Tab::Gitlab)),
    ).with(Span::styled("        [ ] switch tab", Style::colour(Colour::DarkGray)));
    assert(row@ =~= tabs_row(state.tab, gitlab.event_count()));
    row
}

/// The rows of some bullets, from the first to the last.
pub open spec fn planning_rows(bullets: Seq<Seq<char>>, width: nat) -> Seq<Seq<SpanView>>
    decreases bullets.len(),
{
    if bullets.len() == 0 {
        seq![]
    } else {
        planning_rows(bullets.drop_last(), width) + hung(
            " - "@,
            wrapped(bullets.last(), body_width(width, 3)),
            Style::default_style(),
        )
    }
}

/// The rows of the planning tab.
pub open spec fn planning_tab(bullets: Seq<Seq<char>>, width: nat) -> Seq<Seq<SpanView>> {
    if bullets.len() == 0 {
        seq![seq![style::span_of(" (no planning recorded)"@, Style::coloured(Colour::DarkGray))]]
    } else {
        planning_rows(bullets, width)
    }
}

fn notice(message: &str, colour: Colour) -> (r: Vec<Line>)
    ensures
        style::lines_view(r@) == seq![seq![style::span_of(message@, Style::coloured(colour))]],
{
    let mut out: Vec<Line> = Vec::new();
    let ghost none = style::lines_view(out@);
    style::add_line(&mut out, Line::of(Span::styled(message, Style::colour(colour))));
    assert(none =~= Seq::<Seq<SpanView>>::empty());
    assert(style::lines_view(out@) =~= seq![
        seq![style::span_of(message@, Style::coloured(colour))],
    ]);
    out
}

/// The planning tab: a bullet per item, wrapped to the width.
pub fn planning_body(planning: &[String], width: usize) -> (r: Vec<Line>)
    ensures
        style::lines_view(r@) == planning_tab(text::texts(planning@), width as nat),
{
    if planning.len() == 0 {
        return notice(" (no planning recorded)", Colour::DarkGray);
    }
    let ghost all = text::texts(planning@);
    let mut out: Vec<Line> = Vec::new();
    assert(style::lines_view(out@) =~= planning_rows(all.take(0), width as nat));
    let mut i: usize = 0;
    while i < planning.len()
        invariant
            i <= planning.len(),
            all == text::texts(planning@),
            style::lines_view(out@) == planning_rows(all.take(i as int), width as nat),
        decreases planning.len() - i,
    {
        let rows = wrap_with_prefix(" - ", planning[i].as_str(), Style::plain(), width);
        proof {
            reveal_strlit(" - ");
            assert(all.take(i + 1).drop_last() =~= all.take(i as int));
            assert(all.take(i + 1).last() == planning@[i as int]@);
        }
        style::add_lines(&mut out, rows);
        i += 1;
    }
    assert(all.take(i as int) =~= all);
    out
}

/// The rows of the first lines of a group.
pub open spec fn group_rows(lines: Seq<gitlab::LineView>, width: nat) -> Seq<Seq<SpanView>>
    decreases lines.len(),
{
    if lines.len() == 0 {
        seq![]
    } else {
        group_rows(lines.drop_last(), width) + summary_rows(
            lines.last().icon,
            lines.last().text,
            width,
        )
    }
}

/// The rows of some groups: each under its project, an empty row between
/// neighbours.
pub open spec fn groups_rows(groups: Seq<gitlab::GroupView>, width: nat) -> Seq<Seq<SpanView>>
    decreases groups.len(),
{
    if groups.len() == 0 {
        seq![]
    } else {
        let gap = if groups.len() > 1 {
            seq![Seq::<SpanView>::empty()]
        } else {
            seq![]
        };
        groups_rows(groups.drop_last(), width) + gap + seq![
            seq![
                style::span_of(
                    " "@ + groups.last().project,
                    Style::emphasised(Colour::Yellow),
                ),
            ],
        ] + group_rows(groups.last().lines, width)
    }
}

/// The rows of the GitLab tab.
pub open spec fn gitlab_tab(status: GitlabPaneStatus, width: nat) -> Seq<Seq<SpanView>> {
    match status {
        GitlabPaneStatus::Disabled => seq![
            seq![
                style::span_of(
                    " GitLab integration disabled — enable in <Space>s settings"@,
                    Style::coloured(Colour::DarkGray),
                ),
            ],
        ],
        GitlabPaneStatus::Loading => seq![
            seq![style::span_of(" fetching…"@, Style::coloured(Colour::DarkGray))],
        ],
        GitlabPaneStatus::Error(msg) => seq![
            seq![style::span_of(" error: "@ + msg@, Style::coloured(Colour::Red))],
        ],
        GitlabPaneStatus::Events(events) => {
            let groups = gitlab::summary(gitlab::events_of(events@));
            if groups.len() == 0 {
                seq![
                    seq![
                        style::span_of(
                            " no activity recorded"@,
                            Style::coloured(Colour::DarkGray),
                        ),
                    ],
                ]
            } else {
                groups_rows(groups, width)
            }
        },
    }
}

fn group_body(lines: &Vec<SummaryLine>, width: usize) -> (r: Vec<Line>)
    ensures
        style::lines_view(r@) == group_rows(gitlab::line_views(lines@), width as nat),
{
    let ghost all = gitlab::line_views(lines@);
    let mut out: Vec<Line> = Vec::new();
    assert(style::lines_view(out@) =~= group_rows(all.take(0), width as nat));
    let mut i: usize = 0;
    while i < lines.len()
        invariant
            i <= lines.len(),
            all == gitlab::line_views(lines@),
            style::lines_view(out@) == group_rows(all.take(i as int), width as nat),
        decreases lines.len() - i,
    {
        let line = &lines[i];
        let rows = wrap_gitlab_line(line.icon, line.text.as_str(), width);
        proof {
            assert(all.take(i + 1).drop_last() =~= all.take(i as int));
            assert(all.take(i + 1).last() == lines@[i as int]@);
        }
        style::add_lines(&mut out, rows);
        i += 1;
    }
    assert(all.take(i as int) =~= all);
    out
}

fn groups_body(groups: &Vec<ProjectGroup>, width: usize) -> (r: Vec<Line>)
    ensures
        style::lines_view(r@) == groups_rows(gitlab::group_views(groups@), width as nat),
{
    let ghost all = gitlab::group_views(groups@);
    let mut out: Vec<Line> = Vec::new();
    assert(style::lines_view(out@) =~= groups_rows(all.take(0), width as nat));
    let mut i: usize = 0;
    while i < groups.len()
        invariant
            i <= groups.len(),
            all == gitlab::group_views(groups@),
            style::lines_view(out@) == groups_rows(all.take(i as int), width as nat),
        decreases groups.len() - i,
    {
        let ghost before = style::lines_view(out@);
        if i > 0 {
            style::add_line(&mut out, Line::empty());
        }
        let ghost gapped = style::lines_view(out@);
        let group = &groups[i];
        let heading = style::concat(" ", group.project.as_str());
        style::add_line(
            &mut out,
            Line::of(Span::styled(heading.as_str(), Style::bold(Colour::Yellow))),
        );
        let rows = group_body(&group.lines, width);
        style::add_lines(&mut out, rows);
        proof {
            let now = all.take(i + 1);
            assert(now.drop_last() =~= all.take(i as int));
            assert(now.last() == groups@[i as int]@);
            let gap = if now.len() > 1 {
                seq![Seq::<SpanView>::empty()]
            } else {
                seq![]
            };
            assert(gapped =~= before + gap);
            assert(style::lines_view(out@) =~= groups_rows(now, width as nat));
        }
        i += 1;
    }
    assert(all.take(i as int) =~= all);
    out
}

/// The GitLab tab: the day's summary, or why there is none.
pub fn gitlab_body(status: &GitlabPaneStatus, width: usize) -> (r: Vec<Line>)
    requires
        status.countable(),
    ensures
        style::lines_view(r@) == gitlab_tab(*status, width as nat),
{
    match status {
        GitlabPaneStatus::Disabled => notice(
            " GitLab integration disabled — enable in <Space>s settings",
            Colour::DarkGray,
        ),
        GitlabPaneStatus::Loading => notice(" fetching…", Colour::DarkGray),
        GitlabPaneStatus::Error(msg) => {
            let text = style::concat(" error: ", msg);
            notice(text.as_str(), Colour::Red)
        },
        GitlabPaneStatus::Events(events) => {
            let groups = gitlab::summarise(events);
            if groups.len() == 0 {
                notice(" no activity recorded", Colour::DarkGray)
            } else {
                groups_body(&groups, width)
            }
        },
    }
}

/// [`gitlab_body`], or `None` where the events' commits are too many to count.
pub fn try_gitlab_body(status: &GitlabPaneStatus, width: usize) -> (r: Option<Vec<Line>>)
    ensures
        r is Some == status.countable(),
        r matches Some(lines) ==> style::lines_view(lines@) == gitlab_tab(*status, width as nat),
{
    if let GitlabPaneStatus::Events(events) = status {
        if gitlab::try_summarise(events).is_none() {
            return None;
        }
    }
    Some(gitlab_body(status, width))
}

/// The rows under the tabs: those of the shown tab.
pub fn body(
    state: &ContextState,
    planning: &[String],
    gitlab: &GitlabPaneStatus,
    width: usize,
) -> (r: Vec<Line>)
    requires
        gitlab.countable(),
    ensures
        style::lines_view(r@) == match state.tab {
            Tab::Planning => planning_tab(text::texts(planning@), width as nat),
            Tab::Gitlab => gitlab_tab(*gitlab, width as nat),
        },
{
    match state.tab {
        Tab::Planning => planning_body(planning, width),
        Tab::Gitlab => gitlab_body(gitlab, width),
    }
}

// ---------------------------------------------------------------------------
// Laws
// ---------------------------------------------------------------------------

/// One step on leads from either tab to the other.
pub proof fn lemma_other_tab(t: Tab)
    ensures
        cycled(t, 1) != t,
        cycled(t, -1) != t,
        cycled(t, 2) == t,
{
}

/// White space between two texts separates their words, and a text without white
/// space is one word.
pub proof fn lemma_words_split(a: Seq<char>, c: char, b: Seq<char>)
    requires
        text::is_white(c),
    ensures
        words(a.push(c) + b) == words(a) + words(b),
        a.len() == 0 ==> words(a) == Seq::<Seq<char>>::empty(),
        a.len() > 0 && (forall|i: int| 0 <= i < a.len() ==> !text::is_white(#[trigger] a[i]))
            ==> words(a) == seq![a],
    decreases b.len(),
{
    if a.len() > 0 && (forall|i: int| 0 <= i < a.len() ==> !text::is_white(#[trigger] a[i])) {
        lemma_one_word(a);
    }
    let all = a.push(c) + b;
    if b.len() == 0 {
        assert(all.drop_last() =~= a);
        assert(words(a) + words(b) =~= words(a));
    } else {
        lemma_words_split(a, c, b.drop_last());
        assert(all.drop_last() =~= a.push(c) + b.drop_last());
        assert(all.last() == b.last());
        lemma_words(b.drop_last());
        let before = words(b.drop_last());
        if text::is_white(b.last()) {
        } else if b.len() == 1 {
            assert(all[all.len() - 2] == c);
            assert(words(all) =~= words(a) + words(b));
        } else {
            assert(all[all.len() - 2] == b[b.len() - 2]);
            if !text::is_white(b[b.len() - 2]) {
                assert(before.len() > 0);
            }
            assert(words(all) =~= words(a) + words(b));
        }
    }
}

proof fn lemma_one_word(a: Seq<char>)
    requires
        a.len() > 0,
        forall|i: int| 0 <= i < a.len() ==> !text::is_white(#[trigger] a[i]),
    ensures
        words(a) == seq![a],
    decreases a.len(),
{
    let head = a.drop_last();
    assert(!text::is_white(a.last()));
    if a.len() == 1 {
        assert(words(head) =~= Seq::<Seq<char>>::empty());
        assert(seq![a.last()] =~= a);
        assert(words(a) =~= seq![a]);
    } else {
        lemma_one_word(head);
        assert(!text::is_white(a[a.len() - 2]));
        assert(head.push(a.last()) =~= a);
        assert(words(a) =~= seq![a]);
    }
}

/// Whether line `line` starts with the word `word`.
pub open spec fn starts_with_word(line: Seq<char>, word: Seq<char>) -> bool {
    &&& word.len() <= line.len()
    &&& line.take(word.len() as int) == word
    &&& word.len() == line.len() || line[word.len() as int] == ' '
}

proof fn lemma_filled_greedy(words: Seq<Seq<char>>, width: nat, i: int)
    requires
        0 <= i < filled(words, width).len(),
    ensures
        exists|k: int|
            0 <= k < words.len() && #[trigger] starts_with_word(
                filled(words, width)[i],
                words[k],
            ) && (i > 0 ==> filled(words, width)[i - 1].len() + 1 + words[k].len() > width),
    decreases words.len(),
{
    let before = words.drop_last();
    let lines = filled(before, width);
    let now = filled(words, width);
    let word = words.last();
    if i < lines.len() {
        lemma_filled_greedy(before, width, i);
        let k = choose|k: int|
            0 <= k < before.len() && #[trigger] starts_with_word(lines[i], before[k]) && (i > 0
                ==> lines[i - 1].len() + 1 + before[k].len() > width);
        assert(words[k] == before[k]);
        if now[i] != lines[i] {
            assert(now[i] == lines[i] + seq![' '] + word);
            assert(now[i].take(words[k].len() as int) =~= lines[i].take(words[k].len() as int));
        }
        assert(starts_with_word(now[i], words[k]));
        if i > 0 {
            assert(now[i - 1] == lines[i - 1]);
        }
    } else {
        let k = words.len() - 1;
        assert(now[i] == word);
        assert(word.take(word.len() as int) =~= word);
        assert(starts_with_word(now[i], words[k]));
    }
}

/// A line is begun only where the word does not fit on the one before: a line
/// starts with a word, and that word with a space before it would not have fitted.
pub proof fn lemma_wrap_fills_lines(s: Seq<char>, width: nat, i: int)
    requires
        words(s).len() > 0,
        0 <= i < wrapped(s, width).len(),
    ensures
        exists|k: int|
            0 <= k < words(s).len() && #[trigger] starts_with_word(
                wrapped(s, width)[i],
                words(s)[k],
            ) && (i > 0 ==> wrapped(s, width)[i - 1].len() + 1 + words(s)[k].len() > width),
{
    lemma_filled_greedy(words(s), width, i);
}

/// A text without words is one empty line, and one that has words has lines.
pub proof fn lemma_wrap_blank(s: Seq<char>, width: nat)
    ensures
        words(s).len() == 0 ==> wrapped(s, width) == seq![Seq::<char>::empty()],
        wrapped(s, width).len() > 0,
{
    lemma_filled_joined(words(s), width);
}

/// A hanging text: the first row carries the prefix, the others are indented as
/// far, and behind that the segments stand one by one.
pub proof fn lemma_hanging_rows(prefix: Seq<char>, segments: Seq<Seq<char>>, style: Style, i: int)
    requires
        0 <= i < segments.len(),
    ensures
        hung(prefix, segments, style).len() == segments.len(),
        ({
            let row = hung(prefix, segments, style)[i];
            &&& row.len() == 2
            &&& i == 0 ==> row[0].text == prefix
            &&& i > 0 ==> row[0].text == Seq::new(prefix.len(), |j: int| ' ')
            &&& row[1].text == segments[i]
            &&& row[0].style == style
            &&& row[1].style == style
        }),
{
    assert(text::spaces(prefix.len()) =~= Seq::new(prefix.len(), |j: int| ' '));
}

/// The rows of a summary line: four spaces, the icon in cyan, two spaces and the
/// text; further rows are indented up to where the text starts.
pub proof fn lemma_summary_rows(icon: Seq<char>, text: Seq<char>, width: nat, i: int)
    requires
        icon.len() > 0,
        0 <= i < wrapped(text, vstd::math::max(1, width - 6 - icon.len()) as nat).len(),
    ensures
        summary_rows(icon, text, width).len() == wrapped(
            text,
            vstd::math::max(1, width - 6 - icon.len()) as nat,
        ).len(),
        ({
            let row = summary_rows(icon, text, width)[i];
            &&& row.last().text == wrapped(
                text,
                vstd::math::max(1, width - 6 - icon.len()) as nat,
            )[i]
            &&& i == 0 ==> row.len() == 4 && row[0].text == seq![' ', ' ', ' ', ' ']
                && row[1].text == icon && row[1].style.fg == Some(Colour::Cyan) && row[2].text
                == seq![' ', ' ']
            &&& i > 0 ==> row.len() == 2 && row[0].text == Seq::new(
                6 + icon.len(),
                |j: int| ' ',
            )
        }),
{
    assert(text::spaces(4) =~= seq![' ', ' ', ' ', ' ']);
    assert(text::spaces(2) =~= seq![' ', ' ']);
    assert(text::spaces(6 + icon.len()) =~= Seq::new(6 + icon.len(), |j: int| ' '));
}

/// The planning tab shows every bullet, one after the other: each behind ` - `, and
/// wrapped to what is left of the width.
pub proof fn lemma_planning_adds_up(
    a: Seq<Seq<char>>,
    b: Seq<Seq<char>>,
    bullet: Seq<char>,
    width: nat,
)
    ensures
        planning_rows(a + b, width) == planning_rows(a, width) + planning_rows(b, width),
        planning_rows(seq![bullet], width) == hung(
            seq![' ', '-', ' '],
            wrapped(bullet, vstd::math::max(1, width - 3) as nat),
            Style::default_style(),
        ),
        a.len() > 0 ==> planning_tab(a, width) == planning_rows(a, width),
        planning_tab(seq![], width) == seq![
            seq![
                style::span_of(
                    " (no planning recorded)"@,
                    Style { fg: Some(Colour::DarkGray), bg: None, bold: false },
                ),
            ],
        ],
    decreases b.len(),
{
    reveal_strlit(" - ");
    assert(" - "@ =~= seq![' ', '-', ' ']);
    let one = seq![bullet];
    assert(one.drop_last() =~= Seq::<Seq<char>>::empty());
    assert(planning_rows(Seq::<Seq<char>>::empty(), width) =~= Seq::<Seq<SpanView>>::empty());
    assert(planning_rows(one, width) =~= hung(
        " - "@,
        wrapped(bullet, body_width(width, 3)),
        Style::default_style(),
    ));
    if b.len() == 0 {
        assert(a + b =~= a);
        assert(planning_rows(a, width) + planning_rows(b, width) =~= planning_rows(a, width));
    } else {
        lemma_planning_adds_up(a, b.drop_last(), bullet, width);
        assert((a + b).drop_last() =~= a + b.drop_last());
        assert(planning_rows(a + b, width) =~= planning_rows(a, width) + planning_rows(b, width));
    }
}

/// A group shows its project, then every line; an empty row stands between it and
/// the groups before.
pub proof fn lemma_group_rows(
    groups: Seq<gitlab::GroupView>,
    group: gitlab::GroupView,
    lines: Seq<gitlab::LineView>,
    line: gitlab::LineView,
    width: nat,
)
    ensures
        group_rows(seq![], width) == Seq::<Seq<SpanView>>::empty(),
        group_rows(lines.push(line), width) == group_rows(lines, width) + summary_rows(
            line.icon,
            line.text,
            width,
        ),
        ({
            let head = style::span_of(
                seq![' '] + group.project,
                Style { fg: Some(Colour::Yellow), bg: None, bold: true },
            );
            let shown = seq![seq![head]] + group_rows(group.lines, width);
            &&& groups_rows(seq![group], width) == shown
            &&& groups.len() > 0 ==> groups_rows(groups.push(group), width) == groups_rows(
                groups,
                width,
            ).push(seq![]) + shown
        }),
{
    reveal_strlit(" ");
    assert(" "@ =~= seq![' ']);
    assert(lines.push(line).drop_last() =~= lines);
    assert(groups.push(group).drop_last() =~= groups);
    assert(seq![group].drop_last() =~= Seq::<gitlab::GroupView>::empty());
    assert(groups_rows(Seq::<gitlab::GroupView>::empty(), width) =~= Seq::<
        Seq<SpanView>,
    >::empty());
    let head = style::span_of(
        seq![' '] + group.project,
        Style { fg: Some(Colour::Yellow), bg: None, bold: true },
    );
    let shown = seq![seq![head]] + group_rows(group.lines, width);
    assert(groups_rows(seq![group], width) =~= shown);
    if groups.len() > 0 {
        assert(groups_rows(groups.push(group), width) =~= groups_rows(groups, width).push(seq![])
            + shown);
    }
}

/// The GitLab tab shows the day's groups where there are any, and else one row that
/// says why not.
pub proof fn lemma_gitlab_tab(status: GitlabPaneStatus, width: nat)
    ensures
        match status {
            GitlabPaneStatus::Disabled => {
                &&& gitlab_tab(status, width).len() == 1
                &&& gitlab_tab(status, width)[0].len() == 1
                &&& gitlab_tab(status, width)[0][0].text
                    == " GitLab integration disabled — enable in <Space>s settings"@
            },
            GitlabPaneStatus::Loading => {
                &&& gitlab_tab(status, width).len() == 1
                &&& gitlab_tab(status, width)[0].len() == 1
                &&& gitlab_tab(status, width)[0][0].text == " fetching…"@
            },
            GitlabPaneStatus::Error(msg) => {
                &&& gitlab_tab(status, width).len() == 1
                &&& gitlab_tab(status, width)[0].len() == 1
                &&& gitlab_tab(status, width)[0][0].text == " error: "@ + msg@
                &&& gitlab_tab(status, width)[0][0].style.fg == Some(Colour::Red)
            },
            GitlabPaneStatus::Events(events) => {
                let groups = gitlab::summary(gitlab::events_of(events@));
                &&& groups.len() > 0 ==> gitlab_tab(status, width) == groups_rows(groups, width)
                &&& groups.len() == 0 ==> gitlab_tab(status, width).len() == 1
                    && gitlab_tab(status, width)[0].len() == 1
                    && gitlab_tab(status, width)[0][0].text == " no activity recorded"@
            },
        },
{
}

/// The line of tabs names both tabs, the shown one bold and yellow and the other
/// gray, and counts the events where they are known.
pub proof fn lemma_tabs_row(tab: Tab, event_count: Option<nat>)
    ensures
        ({
            let row = tabs_row(tab, event_count);
            let shown = Style { fg: Some(Colour::Yellow), bg: None, bold: true };
            let hidden = Style { fg: Some(Colour::DarkGray), bg: None, bold: false };
            &&& row.len() == 5
            &&& row[1].text == "Yesterday Planning"@
            &&& event_count is None ==> row[3].text == "GitLab"@
            &&& event_count matches Some(n) ==> row[3].text == "GitLab ("@ + text::decimal(n) + ")"@
            &&& row[4].text == "        [ ] switch tab"@
            &&& tab == Tab::Planning ==> row[1].style == shown && row[3].style == hidden
            &&& tab == Tab::Gitlab ==> row[1].style == hidden && row[3].style == shown
        }),
{
}

/// The rows under the tabs are those of the tab that is shown, whatever the other has.
pub proof fn lemma_body(
    state: &ContextState,
    planning: &[String],
    gitlab: &GitlabPaneStatus,
    width: usize,
    r: Vec<Line>,
)
    requires
        call_ensures(body, (state, planning, gitlab, width), r),
    ensures
        state.tab == Tab::Planning ==> style::lines_view(r@) == planning_tab(
            text::texts(planning@),
            width as nat,
        ),
        state.tab == Tab::Gitlab ==> style::lines_view(r@) == gitlab_tab(*gitlab, width as nat),
{
}

/// The title names the day before, and the border is yellow just where the pane has the
/// focus.
pub proof fn lemma_title_and_border(yesterday: Date, focused: bool, r: String, c: Colour)
    requires
        call_ensures(title, (yesterday,), r),
        call_ensures(border, (focused,), c),
    ensures
        r@ == " Context — "@ + date::day_label(yesterday@) + " "@,
        (c == Colour::Yellow) == focused,
        (c == Colour::DarkGray) == !focused,
{
}

} // verus!
