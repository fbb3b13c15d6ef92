//! What is put on the clipboard.

use crate::date;
use crate::date::Date;
use crate::storage;
use crate::storage::{Entry, Store};
use crate::text;
use vstd::prelude::*;

verus! {

// ---------------------------------------------------------------------------
// Items
// ---------------------------------------------------------------------------

/// Whether an item is a sub-item: it starts with `- ` after trimming.
pub open spec fn is_sub(item: Seq<char>) -> bool {
    "- "@.is_prefix_of(text::trimmed(item))
}

/// What an item says: of a sub-item what follows the mark.
pub open spec fn content(item: Seq<char>) -> Seq<char> {
    if is_sub(item) {
        text::trim_left(item).skip(2)
    } else {
        item
    }
}

/// A line starting with `- ` (after trimming) denotes a sub-item nested under
/// the most recent top-level item. Returns `(level, content)` where level is
/// 0 for top-level and 1 for sub-items.
pub fn parse_item(item: &str) -> (r: (usize, &str))
    ensures
        r.0 == if is_sub(item@) {
            1int
        } else {
            0
        },
        r.1@ == content(item@),
{
    proof {
        reveal_strlit("- ");
    }
    if text::starts_with(text::trim(item), "- ") {
        proof {
            text::lemma_trimmed_starts(item@);
        }
        let start = text::trim_start(item);
        let len: usize = start.unicode_len();
        let rest = start.substring_char(2, len);
        assert(rest@ =~= start@.skip(2));
        (1, rest)
    } else {
        (0, item)
    }
}

// ---------------------------------------------------------------------------
// HTML
// ---------------------------------------------------------------------------

/// A character in HTML text.
pub open spec fn escaped_char(c: char) -> Seq<char> {
    if c == '&' {
        "&amp;"@
    } else if c == '<' {
        "&lt;"@
    } else if c == '>' {
        "&gt;"@
    } else {
        seq![c]
    }
}

/// `s` in HTML text.
pub open spec fn escaped(s: Seq<char>) -> Seq<char>
    decreases s.len(),
{
    if s.len() == 0 {
        seq![]
    } else {
        escaped(s.drop_last()) + escaped_char(s.last())
    }
}

/// A top-level item with its sub-items.
#[verifier::ext_equal]
pub struct Node {
    pub content: Seq<char>,
    pub subs: Seq<Seq<char>>,
}

/// How many sub-items come first.
pub open spec fn leading_subs(items: Seq<Seq<char>>) -> nat
    decreases items.len(),
{
    if items.len() == 0 || !is_sub(items[0]) {
        0
    } else {
        1 + leading_subs(items.drop_first())
    }
}

/// No more items come first than there are.
pub proof fn lemma_leading_bound(items: Seq<Seq<char>>)
    ensures
        leading_subs(items) <= items.len(),
    decreases items.len(),
{
    if items.len() > 0 {
        lemma_leading_bound(items.drop_first());
    }
}

/// The contents of some items.
pub open spec fn contents(items: Seq<Seq<char>>) -> Seq<Seq<char>> {
    Seq::new(items.len(), |i: int| content(items[i]))
}

/// The items as top-level items with the sub-items that follow them. A sub-item
/// that follows no top-level item is itself one.
pub open spec fn nodes(items: Seq<Seq<char>>) -> Seq<Node>
    decreases items.len(),
{
    if items.len() == 0 {
        seq![]
    } else if is_sub(items[0]) {
        seq![Node { content: content(items[0]), subs: seq![] }] + nodes(items.drop_first())
    } else {
        let rest = items.drop_first();
        let n = leading_subs(rest) as int;
        proof {
            lemma_leading_bound(rest);
        }
        seq![Node { content: content(items[0]), subs: contents(rest.take(n)) }] + nodes(
            rest.skip(n),
        )
    }
}

/// List elements without anything in them but text.
pub open spec fn subs_html(subs: Seq<Seq<char>>) -> Seq<char>
    decreases subs.len(),
{
    if subs.len() == 0 {
        seq![]
    } else {
        subs_html(subs.drop_last()) + "<li>"@ + escaped(subs.last()) + "</li>"@
    }
}

/// The list element of a top-level item; a list of its sub-items is inside.
pub open spec fn node_html(node: Node) -> Seq<char> {
    "<li>"@ + escaped(node.content) + (if node.subs.len() == 0 {
        seq![]
    } else {
        "<ul>"@ + subs_html(node.subs) + "</ul>"@
    }) + "</li>"@
}

/// The list elements of some items.
pub open spec fn nodes_html(nodes: Seq<Node>) -> Seq<char>
    decreases nodes.len(),
{
    if nodes.len() == 0 {
        seq![]
    } else {
        node_html(nodes[0]) + nodes_html(nodes.drop_first())
    }
}

/// The list of some items; a line break where there is none.
pub open spec fn section_html(items: Seq<Seq<char>>) -> Seq<char> {
    if items.len() == 0 {
        "<br>"@
    } else {
        "<ul>"@ + nodes_html(nodes(items)) + "</ul>"@
    }
}

/// Appends `s` with `&`, `<` and `>` escaped.
pub fn push_html_escaped(out: &mut String, s: &str)
    ensures
        final(out)@ == old(out)@ + escaped(s@),
{
    let cs = text::chars_of(s);
    let ghost before = out@;
    assert(before + escaped(s@.take(0)) =~= before);
    let mut i: usize = 0;
    while i < cs.len()
        invariant
            i <= cs.len(),
            cs@ == s@,
            out@ == before + escaped(s@.take(i as int)),
        decreases cs.len() - i,
    {
        let ghost now = s@.take(i + 1);
        assert(now.drop_last() =~= s@.take(i as int));
        let c: char = cs[i];
        match c {
            '&' => out.append("&amp;"),
            '<' => out.append("&lt;"),
            '>' => out.append("&gt;"),
            _ => out.push(c),
        }
        assert(out@ =~= before + escaped(now));
        i += 1;
    }
    assert(s@.take(i as int) =~= s@);
}

proof fn lemma_leading_subs(items: Seq<Seq<char>>, n: int)
    requires
        0 <= n <= items.len(),
        forall|i: int| 0 <= i < n ==> is_sub(#[trigger] items[i]),
        n < items.len() ==> !is_sub(items[n]),
    ensures
        leading_subs(items) == n,
    decreases n,
{
    if n > 0 {
        assert(is_sub(items[0]));
        let rest = items.drop_first();
        assert forall|i: int| 0 <= i < n - 1 implies is_sub(#[trigger] rest[i]) by {
            assert(is_sub(items[i + 1]));
        }
        lemma_leading_subs(rest, n - 1);
    }
}

/// Appends the elements of the sub-items that come from `from` on, in a list of
/// their own, and returns where they end.
fn push_sub_items(out: &mut String, items: &[String], from: usize) -> (r: usize)
    requires
        from <= items@.len(),
    ensures
        r == from + leading_subs(text::texts(items@).skip(from as int)),
        r <= items@.len(),
        ({
            let subs = contents(text::texts(items@).subrange(from as int, r as int));
            final(out)@ == old(out)@ + (if subs.len() == 0 {
                seq![]
            } else {
                "<ul>"@ + subs_html(subs) + "</ul>"@
            })
        }),
{
    let ghost all = text::texts(items@);
    let ghost before = out@;
    let mut j: usize = from;
    let mut sub_open = false;
    assert(contents(all.subrange(from as int, from as int)) =~= Seq::<Seq<char>>::empty());
    while j < items.len() && parse_item(items[j].as_str()).0 == 1
        invariant
            from <= j <= items.len(),
            all == text::texts(items@),
            sub_open == (j > from),
            forall|k: int| from <= k < j ==> is_sub(#[trigger] all[k]),
            !sub_open ==> out@ == before,
            sub_open ==> out@ == before + "<ul>"@ + subs_html(
                contents(all.subrange(from as int, j as int)),
            ),
        decreases items.len() - j,
    {
        let ghost so_far = contents(all.subrange(from as int, j as int));
        let ghost now = contents(all.subrange(from as int, j + 1));
        let (_, sub_content) = parse_item(items[j].as_str());
        assert(all[j as int] == items@[j as int]@);
        assert(now.drop_last() =~= so_far);
        assert(now.last() == sub_content@);
        if !sub_open {
            out.append("<ul>");
            sub_open = true;
            assert(subs_html(so_far) =~= Seq::<char>::empty());
            assert(out@ =~= before + "<ul>"@ + subs_html(so_far));
        }
        out.append("<li>");
        push_html_escaped(out, sub_content);
        out.append("</li>");
        assert(out@ =~= before + "<ul>"@ + subs_html(now));
        j += 1;
    }
    proof {
        if j < all.len() {
            assert(all[j as int] == items@[j as int]@);
        }
        let rest = all.skip(from as int);
        assert forall|k: int| 0 <= k < j - from implies is_sub(#[trigger] rest[k]) by {
            assert(is_sub(all[from + k]));
        }
        lemma_leading_subs(rest, j - from);
    }
    if sub_open {
        out.append("</ul>");
    }
    proof {
        let subs = contents(all.subrange(from as int, j as int));
        let list = if subs.len() == 0 {
            seq![]
        } else {
            "<ul>"@ + subs_html(subs) + "</ul>"@
        };
        assert(out@ =~= before + list);
    }
    j
}

/// Appends the list of some items.
pub fn push_html_section(out: &mut String, items: &[String])
    ensures
        final(out)@ == old(out)@ + section_html(text::texts(items@)),
{
    let ghost all = text::texts(items@);
    let ghost start = out@;
    if items.len() == 0 {
        out.append("<br>");
        return;
    }
    out.append("<ul>");
    let ghost open = out@;
    let mut i: usize = 0;
    assert(all.skip(0) =~= all);
    while i < items.len()
        invariant
            i <= items.len(),
            all == text::texts(items@),
            out@ + nodes_html(nodes(all.skip(i as int))) == open + nodes_html(nodes(all)),
        decreases items.len() - i,
    {
        let ghost before = out@;
        let ghost rest = all.skip(i as int);
        let (level, item) = parse_item(items[i].as_str());
        assert(rest[0] == items@[i as int]@);
        let ghost tail = rest.drop_first();
        assert(tail =~= all.skip(i + 1));
        out.append("<li>");
        push_html_escaped(out, item);
        if level == 0 {
            // Sub-items immediately following this parent go into a nested <ul>
            // *inside* its <li>.
            let j: usize = push_sub_items(out, items, i + 1);
            out.append("</li>");
            proof {
                let n = leading_subs(tail) as int;
                let node = Node { content: item@, subs: contents(tail.take(n)) };
                assert(tail.take(n) =~= all.subrange(i + 1, j as int));
                assert(tail.skip(n) =~= all.skip(j as int));
                assert(out@ =~= before + node_html(node));
                let others = nodes(all.skip(j as int));
                assert(nodes(rest) =~= seq![node] + others);
                assert(nodes(rest).drop_first() =~= others);
                assert(out@ + nodes_html(others) =~= before + nodes_html(nodes(rest)));
            }
            i = j;
        } else {
            // Orphan sub-item (no preceding top-level): render as top-level
            // rather than dropping or wrapping in an empty <li>.
            out.append("</li>");
            proof {
                let node = Node { content: item@, subs: seq![] };
                assert(out@ =~= before + node_html(node));
                let others = nodes(tail);
                assert(nodes(rest) =~= seq![node] + others);
                assert(nodes(rest).drop_first() =~= others);
                assert(out@ + nodes_html(others) =~= before + nodes_html(nodes(rest)));
            }
            i += 1;
        }
    }
    proof {
        assert(all.skip(i as int) =~= Seq::<Seq<char>>::empty());
        assert(out@ =~= open + nodes_html(nodes(all)));
    }
    out.append("</ul>");
    assert(out@ =~= start + section_html(all));
}

/// Teams-paste standup for a given day, as HTML to be put on the clipboard
/// with the `text/html` MIME type. Teams renders this as bold headings
/// followed by bullet lists.
///
/// Shape: `<b>Yesterday</b><ul><li>...</li>...</ul><b>Today</b><ul>...</ul>`.
/// Empty sections substitute a `<br>` for the `<ul>` so the next heading
/// doesn't end up inline with the previous one.
pub fn standup_html(store: &Store, day: Date) -> (r: String)
    requires
        date::is_day(day@ - storage::days_back(day@ as int)),
    ensures
        r@ == "<b>Yesterday</b>"@ + section_html(
            storage::entry_of(store@, (day@ - storage::days_back(day@ as int)) as i32).did,
        ) + "<b>Today</b>"@ + section_html(storage::entry_of(store@, day@).planning),
{
    let yest = storage::previous_workday(day);
    let none: Vec<String> = Vec::new();
    assert(text::texts(none@) =~= Seq::<Seq<char>>::empty());
    let did = match store.get(yest) {
        Some(e) => e.did.as_slice(),
        None => none.as_slice(),
    };
    let planning = match store.get(day) {
        Some(e) => e.planning.as_slice(),
        None => none.as_slice(),
    };
    let mut out = "<b>Yesterday</b>".to_owned();
    push_html_section(&mut out, did);
    out.append("<b>Today</b>");
    push_html_section(&mut out, planning);
    out
}

// ---------------------------------------------------------------------------
// Plain text
// ---------------------------------------------------------------------------

/// Timesheet for a given day: the `did` bullets, plain text, one per line, no prefix.
pub fn timesheet(store: &Store, day: Date) -> (r: String)
    ensures
        r@ == text::joined(storage::entry_of(store@, day@).did, "\n"@),
{
    match store.get(day) {
        Some(e) => text::join(e.did.as_slice(), "\n"),
        None => String::new(),
    }
}

/// The line of an item; that of a sub-item is indented.
pub open spec fn bullet(item: Seq<char>) -> Seq<char> {
    if is_sub(item) {
        "  - "@ + content(item)
    } else {
        "- "@ + content(item)
    }
}

/// The lines of some items.
pub open spec fn bullet_list(items: Seq<Seq<char>>) -> Seq<Seq<char>> {
    Seq::new(items.len(), |i: int| bullet(items[i]))
}

/// `lines`, each with its end.
pub open spec fn ended(lines: Seq<Seq<char>>) -> Seq<char>
    decreases lines.len(),
{
    if lines.len() == 0 {
        seq![]
    } else {
        ended(lines.drop_last()) + lines.last() + seq!['\n']
    }
}

proof fn lemma_ended(lines: Seq<Seq<char>>)
    ensures
        lines.len() > 0 ==> ended(lines) == text::joined(lines, seq!['\n']) + seq!['\n'],
    decreases lines.len(),
{
    if lines.len() > 0 {
        lemma_ended(lines.drop_last());
    }
    if lines.len() == 1 {
        assert(ended(lines.drop_last()) =~= Seq::<char>::empty());
        assert(ended(lines) =~= lines[0] + seq!['\n']);
    }
}

fn push_bullets(out: &mut String, items: &[String])
    ensures
        final(out)@ == old(out)@ + ended(bullet_list(text::texts(items@))),
{
    let ghost all = text::texts(items@);
    let ghost lines = bullet_list(all);
    let ghost before = out@;
    let mut i: usize = 0;
    assert(before + ended(lines.take(0)) =~= before);
    while i < items.len()
        invariant
            i <= items.len(),
            all == text::texts(items@),
            lines == bullet_list(all),
            out@ == before + ended(lines.take(i as int)),
        decreases items.len() - i,
    {
        let (level, item) = parse_item(items[i].as_str());
        assert(all[i as int] == items@[i as int]@);
        out.append(
            if level == 0 {
                "- "
            } else {
                "  - "
            },
        );
        out.append(item);
        out.push('\n');
        proof {
            let now = lines.take(i + 1);
            assert(now.drop_last() =~= lines.take(i as int));
            assert(now.last() == bullet(all[i as int]));
            assert(out@ =~= before + ended(now));
        }
        i += 1;
    }
    assert(lines.take(i as int) =~= lines);
}

/// Just one section's bullets as `- ` prefixed lines, for yanking a single section.
pub fn bullets(items: &[String]) -> (r: String)
    ensures
        r@ == text::joined(bullet_list(text::texts(items@)), "\n"@),
{
    let mut out = String::new();
    push_bullets(&mut out, items);
    proof {
        let lines = bullet_list(text::texts(items@));
        reveal_strlit("\n");
        assert("\n"@ =~= seq!['\n']);
        assert(out@ =~= ended(lines));
        lemma_ended(lines);
        if lines.len() > 0 {
            assert(out@.drop_last() =~= text::joined(lines, seq!['\n']));
        }
    }
    // No newline at the end, since yank-just-this-section shouldn't have one.
    if items.len() > 0 {
        out.pop();
    }
    out
}

/// The bullets of what was done.
pub fn did(entry: &Entry) -> (r: String)
    ensures
        r@ == text::joined(bullet_list(entry@.did), "\n"@),
{
    bullets(entry.did.as_slice())
}

/// The bullets of what is planned.
pub fn planning(entry: &Entry) -> (r: String)
    ensures
        r@ == text::joined(bullet_list(entry@.planning), "\n"@),
{
    bullets(entry.planning.as_slice())
}

// ---------------------------------------------------------------------------
// Laws
// ---------------------------------------------------------------------------

/// The text that HTML text stands for, as far as `&amp;`, `&lt;` and `&gt;` go.
pub open spec fn unescaped(s: Seq<char>) -> Seq<char>
    decreases s.len(),
{
    if s.len() == 0 {
        seq![]
    } else if "&amp;"@.is_prefix_of(s) && s.len() >= 5 {
        seq!['&'] + unescaped(s.skip(5))
    } else if "&lt;"@.is_prefix_of(s) && s.len() >= 4 {
        seq!['<'] + unescaped(s.skip(4))
    } else if "&gt;"@.is_prefix_of(s) && s.len() >= 4 {
        seq!['>'] + unescaped(s.skip(4))
    } else {
        seq![s[0]] + unescaped(s.drop_first())
    }
}

proof fn lemma_escaped_front(s: Seq<char>)
    requires
        s.len() > 0,
    ensures
        escaped(s) == escaped_char(s[0]) + escaped(s.drop_first()),
    decreases s.len(),
{
    if s.len() == 1 {
        assert(s.drop_last() =~= Seq::<char>::empty());
        assert(s.drop_first() =~= Seq::<char>::empty());
        assert(escaped(s.drop_last()) =~= Seq::<char>::empty());
        assert(escaped(s) =~= escaped_char(s[0]));
        assert(escaped_char(s[0]) + escaped(s.drop_first()) =~= escaped_char(s[0]));
    } else {
        let init = s.drop_last();
        lemma_escaped_front(init);
        assert(init.drop_first() =~= s.drop_first().drop_last());
        assert(escaped(s) =~= escaped_char(s[0]) + (escaped(init.drop_first()) + escaped_char(
            s.last(),
        )));
    }
}

/// Escaping loses nothing: what it stands for is the text itself.
pub proof fn lemma_unescape_after_escape(s: Seq<char>)
    ensures
        unescaped(escaped(s)) == s,
    decreases s.len(),
{
    reveal_strlit("&amp;");
    reveal_strlit("&lt;");
    reveal_strlit("&gt;");
    if s.len() > 0 {
        let c = s[0];
        let tail = escaped(s.drop_first());
        let all = escaped(s);
        lemma_escaped_front(s);
        lemma_unescape_after_escape(s.drop_first());
        assert(seq![c] + s.drop_first() =~= s);
        if c == '&' {
            assert(all.subrange(0, 5) =~= "&amp;"@);
            assert(all.skip(5) =~= tail);
        } else if c == '<' {
            assert(all.subrange(0, 4) =~= "&lt;"@);
            assert(all.skip(4) =~= tail);
            assert("&amp;"@.is_prefix_of(all) ==> all.subrange(0, 5)[1] == "&amp;"@[1]);
        } else if c == '>' {
            assert(all.subrange(0, 4) =~= "&gt;"@);
            assert(all.skip(4) =~= tail);
            assert("&amp;"@.is_prefix_of(all) ==> all.subrange(0, 5)[1] == "&amp;"@[1]);
            assert("&lt;"@.is_prefix_of(all) ==> all.subrange(0, 4)[1] == "&lt;"@[1]);
        } else {
            assert(all[0] == c);
            assert(all.drop_first() =~= tail);
            assert("&amp;"@.is_prefix_of(all) ==> all.subrange(0, 5)[0] == "&amp;"@[0]);
            assert("&lt;"@.is_prefix_of(all) ==> all.subrange(0, 4)[0] == "&lt;"@[0]);
            assert("&gt;"@.is_prefix_of(all) ==> all.subrange(0, 4)[0] == "&gt;"@[0]);
        }
    }
}

/// No text can be mistaken for a tag.
pub proof fn lemma_escaped_has_no_tags(s: Seq<char>)
    ensures
        !escaped(s).contains('<'),
        !escaped(s).contains('>'),
    decreases s.len(),
{
    reveal_strlit("&amp;");
    reveal_strlit("&lt;");
    reveal_strlit("&gt;");
    if s.len() > 0 {
        lemma_escaped_has_no_tags(s.drop_last());
        let head = escaped(s.drop_last());
        let tail = escaped_char(s.last());
        assert forall|i: int| 0 <= i < (head + tail).len() implies #[trigger] (head + tail)[i] != '<'
            && (head + tail)[i] != '>' by {
            if i < head.len() {
                assert(head.contains(head[i]));
            } else {
                assert((head + tail)[i] == tail[i - head.len()]);
            }
        }
    }
}

/// The contents of the nodes: each top-level item, then its sub-items.
pub open spec fn flattened(nodes: Seq<Node>) -> Seq<Seq<char>>
    decreases nodes.len(),
{
    if nodes.len() == 0 {
        seq![]
    } else {
        seq![nodes[0].content] + nodes[0].subs + flattened(nodes.drop_first())
    }
}

/// No item is dropped, doubled or moved.
pub proof fn lemma_nodes_keep_items(items: Seq<Seq<char>>)
    ensures
        flattened(nodes(items)) == contents(items),
    decreases items.len(),
{
    if items.len() == 0 {
        assert(contents(items) =~= Seq::<Seq<char>>::empty());
    } else {
        let rest = items.drop_first();
        let n = if is_sub(items[0]) {
            0
        } else {
            leading_subs(rest) as int
        };
        lemma_leading_bound(rest);
        let others = rest.skip(n);
        lemma_nodes_keep_items(others);
        if is_sub(items[0]) {
            assert(others =~= rest);
        }
        let subs = contents(rest.take(n));
        let node = Node { content: content(items[0]), subs };
        assert(subs.len() == n);
        if is_sub(items[0]) {
            assert(subs =~= Seq::<Seq<char>>::empty());
        }
        assert(nodes(items) =~= seq![node] + nodes(others));
        assert(nodes(items).drop_first() =~= nodes(others));
        assert(flattened(nodes(items)) =~= contents(items));
    }
}

/// A text with `- ` in front of it is a sub-item that says that text, however far it
/// is indented, as long as there is something to say.
pub proof fn lemma_sub_item(lead: Seq<char>, rest: Seq<char>)
    requires
        forall|i: int| 0 <= i < lead.len() ==> text::is_white(#[trigger] lead[i]),
        exists|i: int| 0 <= i < rest.len() && !text::is_white(#[trigger] rest[i]),
    ensures
        is_sub(lead + seq!['-', ' '] + rest),
        content(lead + seq!['-', ' '] + rest) == rest,
{
    reveal_strlit("- ");
    let start = seq!['-', ' '] + rest;
    let item = lead + seq!['-', ' '] + rest;
    assert(item =~= lead + start);
    text::lemma_trim_lead(lead, start);
    text::lemma_trimmed_starts(item);
    let k = choose|i: int| 0 <= i < rest.len() && !text::is_white(#[trigger] rest[i]);
    assert(start[k + 2] == rest[k]);
    text::lemma_trim_keeps(start, k + 2);
    assert(text::trimmed(item).len() >= 2);
    assert("- "@ =~= text::trimmed(item).subrange(0, 2));
    assert(start.skip(2) =~= rest);
}

/// Any other text is a top-level item and is kept as it is.
pub proof fn lemma_top_item(item: Seq<char>)
    requires
        ({
            let s = text::trimmed(item);
            s.len() < 2 || s[0] != '-' || s[1] != ' '
        }),
    ensures
        !is_sub(item),
        content(item) == item,
{
    reveal_strlit("- ");
    let s = text::trimmed(item);
    if is_sub(item) {
        assert(s.subrange(0, 2)[0] == '-' && s.subrange(0, 2)[1] == ' ');
    }
}

/// The line of a sub-item is indented by two spaces; that of a top-level item is
/// the item behind `- `.
pub proof fn lemma_bullet_line(items: Seq<Seq<char>>, i: int, lead: Seq<char>, rest: Seq<char>)
    requires
        0 <= i < items.len(),
    ensures
        bullet_list(items).len() == items.len(),
        !is_sub(items[i]) ==> bullet_list(items)[i] == seq!['-', ' '] + items[i],
        items[i] == lead + seq!['-', ' '] + rest && (forall|j: int|
            0 <= j < lead.len() ==> text::is_white(#[trigger] lead[j])) && (exists|j: int|
            0 <= j < rest.len() && !text::is_white(#[trigger] rest[j])) ==> bullet_list(items)[i]
            == seq![' ', ' ', '-', ' '] + rest,
{
    reveal_strlit("- ");
    reveal_strlit("  - ");
    assert("- "@ =~= seq!['-', ' ']);
    assert("  - "@ =~= seq![' ', ' ', '-', ' ']);
    if items[i] == lead + seq!['-', ' '] + rest && (forall|j: int|
        0 <= j < lead.len() ==> text::is_white(#[trigger] lead[j])) && (exists|j: int|
        0 <= j < rest.len() && !text::is_white(#[trigger] rest[j])) {
        lemma_sub_item(lead, rest);
    }
}

/// Escaping goes character by character: a text in two parts is escaped as the two
/// parts are, and of single characters only `&`, `<` and `>` change.
pub proof fn lemma_escape_adds_up(a: Seq<char>, b: Seq<char>, c: char)
    ensures
        escaped(a + b) == escaped(a) + escaped(b),
        escaped(seq!['&']) == seq!['&', 'a', 'm', 'p', ';'],
        escaped(seq!['<']) == seq!['&', 'l', 't', ';'],
        escaped(seq!['>']) == seq!['&', 'g', 't', ';'],
        c != '&' && c != '<' && c != '>' ==> escaped(seq![c]) == seq![c],
    decreases b.len(),
{
    reveal_strlit("&amp;");
    reveal_strlit("&lt;");
    reveal_strlit("&gt;");
    assert forall|d: char| escaped(#[trigger] seq![d]) == escaped_char(d) by {
        assert(seq![d].drop_last() =~= Seq::<char>::empty());
        assert(escaped(Seq::<char>::empty()) =~= Seq::<char>::empty());
        assert(escaped(seq![d]) =~= escaped_char(d));
    }
    assert("&amp;"@ =~= seq!['&', 'a', 'm', 'p', ';']);
    assert("&lt;"@ =~= seq!['&', 'l', 't', ';']);
    assert("&gt;"@ =~= seq!['&', 'g', 't', ';']);
    if b.len() == 0 {
        assert(a + b =~= a);
        assert(escaped(a) + escaped(b) =~= escaped(a));
    } else {
        lemma_escape_adds_up(a, b.drop_last(), c);
        assert((a + b).drop_last() =~= a + b.drop_last());
        assert(escaped(a + b) =~= escaped(a) + escaped(b));
    }
}

/// The list elements of sub-items, in order: each is the escaped text between
/// `<li>` and `</li>`.
pub proof fn lemma_sub_elements(subs: Seq<Seq<char>>, sub: Seq<char>)
    ensures
        subs_html(seq![]) == Seq::<char>::empty(),
        subs_html(subs.push(sub)) == subs_html(subs) + (seq!['<', 'l', 'i', '>'] + escaped(sub)
            + seq!['<', '/', 'l', 'i', '>']),
{
    reveal_strlit("<li>");
    reveal_strlit("</li>");
    assert(subs.push(sub).drop_last() =~= subs);
    assert("<li>"@ =~= seq!['<', 'l', 'i', '>']);
    assert("</li>"@ =~= seq!['<', '/', 'l', 'i', '>']);
    assert(subs_html(subs.push(sub)) =~= subs_html(subs) + (seq!['<', 'l', 'i', '>'] + escaped(sub)
        + seq!['<', '/', 'l', 'i', '>']));
}

/// The list elements of a section, one by one from the front. A sub-item at the
/// front has an element of its own. A top-level item has one with all the
/// sub-items behind it, up to the next top-level item, in a list inside.
pub proof fn lemma_section_elements(item: Seq<char>, subs: Seq<Seq<char>>, rest: Seq<Seq<char>>)
    requires
        forall|i: int| 0 <= i < subs.len() ==> is_sub(#[trigger] subs[i]),
        rest.len() > 0 ==> !is_sub(rest[0]),
    ensures
        nodes_html(nodes(seq![])) == Seq::<char>::empty(),
        is_sub(item) ==> nodes_html(nodes(seq![item] + (subs + rest))) == "<li>"@ + escaped(
            content(item),
        ) + "</li>"@ + nodes_html(nodes(subs + rest)),
        !is_sub(item) && subs.len() == 0 ==> nodes_html(nodes(seq![item] + (subs + rest)))
            == "<li>"@ + escaped(item) + "</li>"@ + nodes_html(nodes(rest)),
        !is_sub(item) && subs.len() > 0 ==> nodes_html(nodes(seq![item] + (subs + rest)))
            == "<li>"@ + escaped(item) + "<ul>"@ + subs_html(
            Seq::new(subs.len(), |i: int| content(subs[i])),
        ) + "</ul>"@ + "</li>"@ + nodes_html(nodes(rest)),
{
    let tail = subs + rest;
    let all = seq![item] + tail;
    assert(all.drop_first() =~= tail);
    assert(all[0] == item);
    let node = Node {
        content: content(item),
        subs: if is_sub(item) {
            seq![]
        } else {
            contents(subs)
        },
    };
    let others = if is_sub(item) {
        nodes(tail)
    } else {
        nodes(rest)
    };
    if !is_sub(item) {
        let n = subs.len() as int;
        assert forall|i: int| 0 <= i < n implies is_sub(#[trigger] tail[i]) by {
            assert(tail[i] == subs[i]);
        }
        if n < tail.len() {
            assert(tail[n] == rest[0]);
        }
        lemma_leading_subs(tail, n);
        assert(tail.take(n) =~= subs);
        assert(tail.skip(n) =~= rest);
    }
    assert(nodes(all) =~= seq![node] + others);
    assert(nodes(all).drop_first() =~= others);
    assert(nodes(all)[0] == node);
    assert(nodes_html(nodes(all)) == node_html(node) + nodes_html(others));
    assert(contents(subs) =~= Seq::new(subs.len(), |i: int| content(subs[i])));
    let head = "<li>"@ + escaped(node.content);
    if node.subs.len() == 0 {
        assert(head + seq![] + "</li>"@ =~= head + "</li>"@);
    } else {
        let list = subs_html(contents(subs));
        assert(head + ("<ul>"@ + list + "</ul>"@) + "</li>"@ =~= head + "<ul>"@ + list + "</ul>"@
            + "</li>"@);
    }
}

/// A section is a list of its elements; one without items is a line break alone.
pub proof fn lemma_section(items: Seq<Seq<char>>)
    ensures
        items.len() == 0 ==> section_html(items) == seq!['<', 'b', 'r', '>'],
        items.len() > 0 ==> section_html(items) == seq!['<', 'u', 'l', '>'] + nodes_html(
            nodes(items),
        ) + seq!['<', '/', 'u', 'l', '>'],
{
    reveal_strlit("<br>");
    reveal_strlit("<ul>");
    reveal_strlit("</ul>");
    assert("<br>"@ =~= seq!['<', 'b', 'r', '>']);
    assert("<ul>"@ =~= seq!['<', 'u', 'l', '>']);
    assert("</ul>"@ =~= seq!['<', '/', 'u', 'l', '>']);
}

/// What [`standup_html`] returns names what was done on the workday before and what is
/// planned for the day itself; a day without an entry gives an empty section.
pub proof fn lemma_standup(store: &Store, day: Date, r: String)
    requires
        call_ensures(standup_html, (store, day), r),
    ensures
        ({
            let last = (day@ - storage::days_back(day@ as int)) as i32;
            let did = if store@.contains_key(last) {
                store@[last].did
            } else {
                seq![]
            };
            let planned = if store@.contains_key(day@) {
                store@[day@].planning
            } else {
                seq![]
            };
            r@ == "<b>Yesterday</b>"@ + section_html(did) + "<b>Today</b>"@ + section_html(planned)
        }),
{
}

/// What [`timesheet`] returns is what was done on the day, a line for each item, as it was
/// written; nothing for a day without an entry.
pub proof fn lemma_timesheet(store: &Store, day: Date, r: String)
    requires
        call_ensures(timesheet, (store, day), r),
    ensures
        store@.contains_key(day@) ==> r@ == text::joined(store@[day@].did, seq!['\n']),
        !store@.contains_key(day@) ==> r@.len() == 0,
{
    reveal_strlit("\n");
    assert("\n"@ =~= seq!['\n']);
}

/// What [`bullets`], [`did`] and [`planning`] return: the lines of the items, of what was
/// done and of what is planned, one below the other and without a line break at the end.
pub proof fn lemma_yanked_bullets(
    items: &[String],
    entry: &Entry,
    r: String,
    done: String,
    planned: String,
)
    requires
        call_ensures(bullets, (items,), r),
        call_ensures(did, (entry,), done),
        call_ensures(planning, (entry,), planned),
    ensures
        r@ == text::joined(bullet_list(text::texts(items@)), seq!['\n']),
        done@ == text::joined(bullet_list(entry@.did), seq!['\n']),
        planned@ == text::joined(bullet_list(entry@.planning), seq!['\n']),
{
    reveal_strlit("\n");
    assert("\n"@ =~= seq!['\n']);
}

} // verus!
