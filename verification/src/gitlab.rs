//! A day of GitLab events, summarised by project.

use crate::json;
use crate::text;
use serde_json::Value;
use vstd::prelude::*;

verus! {

/// One event from `/api/v4/events`, kept as raw JSON.
pub type RawEvent = Value;

/// Glyph in front of pushes.
pub const ICON_PUSH: &'static str = "\u{f126}";

/// Glyph in front of comments.
pub const ICON_COMMENT: &'static str = "\u{f075}";

/// Glyph in front of approvals.
pub const ICON_APPROVE: &'static str = "\u{f00c}";

/// Glyph in front of what was opened.
pub const ICON_OPEN: &'static str = "\u{f067}";

/// Glyph in front of merges.
pub const ICON_MERGE: &'static str = "\u{f407}";

/// Glyph in front of what was closed.
pub const ICON_CLOSE: &'static str = "\u{f00d}";

/// Glyph in front of every other action.
pub const ICON_OTHER: &'static str = "\u{f129}";

/// One line of a summary.
#[derive(Debug, Clone)]
pub struct SummaryLine {
    pub icon: &'static str,
    pub text: String,
}

/// What was done in one project.
#[derive(Debug, Clone)]
pub struct ProjectGroup {
    pub project: String,
    pub lines: Vec<SummaryLine>,
}

/// The fields of an event that a summary reads.
#[derive(Debug, Clone)]
pub struct EventFields {
    pub action: Option<String>,
    pub target_type: Option<String>,
    pub target_title: Option<String>,
    pub project_name: Option<String>,
    pub project_id: Option<u64>,
    pub branch: Option<String>,
    pub commits: Option<u64>,
    pub noteable_type: Option<String>,
    pub mr_author: Option<String>,
}

/// What a [`SummaryLine`] shows.
pub struct LineView {
    pub icon: Seq<char>,
    pub text: Seq<char>,
}

/// What a [`ProjectGroup`] shows.
pub struct GroupView {
    pub project: Seq<char>,
    pub lines: Seq<LineView>,
}

/// What [`EventFields`] hold.
pub struct EventView {
    pub action: Option<Seq<char>>,
    pub target_type: Option<Seq<char>>,
    pub target_title: Option<Seq<char>>,
    pub project_name: Option<Seq<char>>,
    pub project_id: Option<u64>,
    pub branch: Option<Seq<char>>,
    pub commits: Option<u64>,
    pub noteable_type: Option<Seq<char>>,
    pub mr_author: Option<Seq<char>>,
}

/// What a comment is counted under: kind of target, title, author of the merge
/// request.
pub struct CommentKey {
    pub kind: Seq<char>,
    pub title: Seq<char>,
    pub author: Seq<char>,
}

impl View for SummaryLine {
    type V = LineView;

    open spec fn view(&self) -> LineView {
        LineView { icon: self.icon@, text: self.text@ }
    }
}

/// What a sequence of lines shows.
pub open spec fn line_views(lines: Seq<SummaryLine>) -> Seq<LineView> {
    Seq::new(lines.len(), |i: int| lines[i]@)
}

impl View for ProjectGroup {
    type V = GroupView;

    open spec fn view(&self) -> GroupView {
        GroupView { project: self.project@, lines: line_views(self.lines@) }
    }
}

/// What a sequence of groups shows.
pub open spec fn group_views(groups: Seq<ProjectGroup>) -> Seq<GroupView> {
    Seq::new(groups.len(), |i: int| groups[i]@)
}

impl View for EventFields {
    type V = EventView;

    open spec fn view(&self) -> EventView {
        EventView {
            action: text::opt_text(self.action),
            target_type: text::opt_text(self.target_type),
            target_title: text::opt_text(self.target_title),
            project_name: text::opt_text(self.project_name),
            project_id: self.project_id,
            branch: text::opt_text(self.branch),
            commits: self.commits,
            noteable_type: text::opt_text(self.noteable_type),
            mr_author: text::opt_text(self.mr_author),
        }
    }
}

/// What a sequence of events holds.
pub open spec fn event_views(events: Seq<EventFields>) -> Seq<EventView> {
    Seq::new(events.len(), |i: int| events[i]@)
}

// ---------------------------------------------------------------------------
// What a summary is
// ---------------------------------------------------------------------------

/// What follows the last `/`; everything where there is none.
pub open spec fn after_last_slash(path: Seq<char>) -> Seq<char>
    decreases path.len(),
{
    if path.len() > 0 && path.contains('/') {
        after_last_slash(path.drop_first())
    } else {
        path
    }
}

/// The short word for a kind of target.
pub open spec fn target_word(t: Seq<char>) -> Seq<char> {
    if t == "MergeRequest"@ {
        "MR"@
    } else if t == "Issue"@ {
        "issue"@
    } else if t == "DiffNote"@ || t == "Note"@ || t == "DiscussionNote"@ {
        "note"@
    } else if t == "Milestone"@ {
        "milestone"@
    } else if t == "WikiPage::Meta"@ || t == "WikiPage"@ {
        "wiki"@
    } else if t == "Commit"@ {
        "commit"@
    } else {
        "item"@
    }
}

/// The ending of "commit" for a count.
pub open spec fn plural_ending(n: nat) -> Seq<char> {
    if n == 1 {
        ""@
    } else {
        "s"@
    }
}

/// The ending of "push" for a count.
pub open spec fn plural_es_ending(n: nat) -> Seq<char> {
    if n == 1 {
        ""@
    } else {
        "es"@
    }
}

impl EventView {
    /// The name of the project that the event belongs to.
    pub open spec fn project(self) -> Seq<char> {
        match self.project_name {
            Some(name) => after_last_slash(name),
            None => match self.project_id {
                Some(id) => "#"@ + text::decimal(id as nat),
                None => "?"@,
            },
        }
    }

    /// The action, empty where none is given.
    pub open spec fn verb(self) -> Seq<char> {
        text::text_or(self.action, ""@)
    }

    /// The title of the target, empty where none is given.
    pub open spec fn title(self) -> Seq<char> {
        text::text_or(self.target_title, ""@)
    }

    /// The word for the kind of target.
    pub open spec fn target(self) -> Seq<char> {
        target_word(text::text_or(self.target_type, ""@))
    }

    /// Whether the event is a push.
    pub open spec fn is_push(self) -> bool {
        self.verb() == "pushed to"@ || self.verb() == "pushed new"@ || self.verb() == "pushed"@
    }

    /// Whether the event is a comment.
    pub open spec fn is_comment(self) -> bool {
        self.verb() == "commented on"@
    }

    /// The branch of a push.
    pub open spec fn push_branch(self) -> Seq<char> {
        text::text_or(self.branch, "(unknown)"@)
    }

    /// The number of commits of a push.
    pub open spec fn push_commits(self) -> nat {
        match self.commits {
            Some(n) => n as nat,
            None => 0,
        }
    }

    /// ` (by someone)`, empty where the author of the merge request is unknown.
    pub open spec fn by_author(self) -> Seq<char> {
        match self.mr_author {
            Some(author) => " (by "@ + author + ")"@,
            None => ""@,
        }
    }

    /// What a comment is counted under.
    pub open spec fn comment_key(self) -> CommentKey {
        CommentKey {
            kind: target_word(text::text_or(self.noteable_type, text::text_or(self.target_type, ""@))),
            title: self.title(),
            author: text::text_or(self.mr_author, ""@),
        }
    }

    /// The line of an event that is neither a push nor a comment.
    pub open spec fn other_line(self) -> LineView {
        if self.verb() == "opened"@ {
            LineView {
                icon: ICON_OPEN@,
                text: "Opened "@ + self.target() + ": "@ + self.title() + self.by_author(),
            }
        } else if self.verb() == "closed"@ {
            LineView {
                icon: ICON_CLOSE@,
                text: "Closed "@ + self.target() + ": "@ + self.title() + self.by_author(),
            }
        } else if self.verb() == "accepted"@ || self.verb() == "merged"@ {
            LineView { icon: ICON_MERGE@, text: "Merged MR: "@ + self.title() + self.by_author() }
        } else if self.verb() == "approved"@ {
            LineView { icon: ICON_APPROVE@, text: "Approved: "@ + self.title() + self.by_author() }
        } else if self.title().len() == 0 {
            LineView { icon: ICON_OTHER@, text: self.verb() }
        } else {
            LineView { icon: ICON_OTHER@, text: self.verb() + ": "@ + self.title() }
        }
    }
}

/// `list` with `x` at its place in the order of strings; `list` itself where
/// `x` is in it already.
pub open spec fn with_text(list: Seq<Seq<char>>, x: Seq<char>) -> Seq<Seq<char>>
    decreases list.len(),
{
    if list.len() == 0 {
        seq![x]
    } else if list[0] == x {
        list
    } else if text::text_before(x, list[0]) {
        seq![x] + list
    } else {
        seq![list[0]] + with_text(list.drop_first(), x)
    }
}

/// The different projects of `events`, in order.
pub open spec fn projects(events: Seq<EventView>) -> Seq<Seq<char>>
    decreases events.len(),
{
    if events.len() == 0 {
        seq![]
    } else {
        with_text(projects(events.drop_last()), events.last().project())
    }
}

/// The events of one project, as they came.
pub open spec fn of_project(events: Seq<EventView>, project: Seq<char>) -> Seq<EventView>
    decreases events.len(),
{
    if events.len() == 0 {
        seq![]
    } else if events.last().project() == project {
        of_project(events.drop_last(), project).push(events.last())
    } else {
        of_project(events.drop_last(), project)
    }
}

/// The different branches that were pushed to, in order.
pub open spec fn branches(events: Seq<EventView>) -> Seq<Seq<char>>
    decreases events.len(),
{
    if events.len() == 0 {
        seq![]
    } else if events.last().is_push() {
        with_text(branches(events.drop_last()), events.last().push_branch())
    } else {
        branches(events.drop_last())
    }
}

/// How many pushes went to `branch`.
pub open spec fn push_count(events: Seq<EventView>, branch: Seq<char>) -> nat
    decreases events.len(),
{
    if events.len() == 0 {
        0
    } else {
        push_count(events.drop_last(), branch) + if events.last().is_push()
            && events.last().push_branch() == branch {
            1nat
        } else {
            0nat
        }
    }
}

/// How many commits were pushed to `branch`.
pub open spec fn commit_total(events: Seq<EventView>, branch: Seq<char>) -> nat
    decreases events.len(),
{
    if events.len() == 0 {
        0
    } else {
        commit_total(events.drop_last(), branch) + if events.last().is_push()
            && events.last().push_branch() == branch {
            events.last().push_commits()
        } else {
            0nat
        }
    }
}

/// What the comments are counted under, each once, in the order of the first
/// comment.
pub open spec fn comment_keys(events: Seq<EventView>) -> Seq<CommentKey>
    decreases events.len(),
{
    if events.len() == 0 {
        seq![]
    } else {
        let before = comment_keys(events.drop_last());
        if events.last().is_comment() && !before.contains(events.last().comment_key()) {
            before.push(events.last().comment_key())
        } else {
            before
        }
    }
}

/// How many comments are counted under `key`.
pub open spec fn comment_count(events: Seq<EventView>, key: CommentKey) -> nat
    decreases events.len(),
{
    if events.len() == 0 {
        0
    } else {
        comment_count(events.drop_last(), key) + if events.last().is_comment()
            && events.last().comment_key() == key {
            1nat
        } else {
            0nat
        }
    }
}

/// The lines of the events that are neither pushes nor comments, as they came.
pub open spec fn other_lines(events: Seq<EventView>) -> Seq<LineView>
    decreases events.len(),
{
    if events.len() == 0 {
        seq![]
    } else if events.last().is_push() || events.last().is_comment() {
        other_lines(events.drop_last())
    } else {
        other_lines(events.drop_last()).push(events.last().other_line())
    }
}

/// What follows the branch: how many pushes and commits.
pub open spec fn push_suffix(pushes: nat, commits: nat) -> Seq<char> {
    if pushes == 1 && commits == 0 {
        ""@
    } else if pushes == 1 {
        " ("@ + text::decimal(commits) + " commit"@ + plural_ending(commits) + ")"@
    } else if commits == 0 {
        " ("@ + text::decimal(pushes) + " push"@ + plural_es_ending(pushes) + ")"@
    } else {
        " ("@ + text::decimal(pushes) + " push"@ + plural_es_ending(pushes) + ", "@ + text::decimal(
            commits,
        ) + " commit"@ + plural_ending(commits) + ")"@
    }
}

/// The line of one branch.
pub open spec fn push_line(branch: Seq<char>, pushes: nat, commits: nat) -> LineView {
    LineView { icon: ICON_PUSH@, text: branch + push_suffix(pushes, commits) }
}

/// The line of the comments under one key.
pub open spec fn comment_line(key: CommentKey, count: nat) -> LineView {
    let on = if key.title.len() == 0 {
        "Commented on "@ + key.kind
    } else {
        "Commented on "@ + key.kind + ": "@ + key.title
    };
    let by = if key.author.len() == 0 {
        ""@
    } else {
        " (by "@ + key.author + ")"@
    };
    let times = if count > 1 {
        " ("@ + text::decimal(count) + " comments)"@
    } else {
        ""@
    };
    LineView { icon: ICON_COMMENT@, text: on + by + times }
}

/// The lines of the pushes, one for each branch.
pub open spec fn push_lines(events: Seq<EventView>) -> Seq<LineView> {
    Seq::new(
        branches(events).len(),
        |i: int|
            push_line(
                branches(events)[i],
                push_count(events, branches(events)[i]),
                commit_total(events, branches(events)[i]),
            ),
    )
}

/// The lines of the comments, one for each key.
pub open spec fn comment_lines(events: Seq<EventView>) -> Seq<LineView> {
    Seq::new(
        comment_keys(events).len(),
        |i: int|
            comment_line(comment_keys(events)[i], comment_count(events, comment_keys(events)[i])),
    )
}

/// The lines of one project: pushes, then comments, then the rest.
pub open spec fn project_lines(events: Seq<EventView>) -> Seq<LineView> {
    push_lines(events) + comment_lines(events) + other_lines(events)
}

/// The summary of `events`: a group for each project, in order.
pub open spec fn summary(events: Seq<EventView>) -> Seq<GroupView> {
    Seq::new(
        projects(events).len(),
        |i: int|
            GroupView {
                project: projects(events)[i],
                lines: project_lines(of_project(events, projects(events)[i])),
            },
    )
}

/// Whether the commits pushed to each branch of each project can be counted.
pub open spec fn commits_fit(events: Seq<EventView>) -> bool {
    forall|p: Seq<char>, b: Seq<char>| #[trigger]
        commit_total(of_project(events, p), b) <= u64::MAX
}

// ---------------------------------------------------------------------------
// Facts about ordered lists and tallies
// ---------------------------------------------------------------------------

/// Whether `list` is in the order of strings, with nothing twice.
pub open spec fn in_order(list: Seq<Seq<char>>) -> bool {
    forall|i: int, j: int|
        0 <= i < j < list.len() ==> text::text_before(#[trigger] list[i], #[trigger] list[j])
}

proof fn lemma_with_text_in_order(list: Seq<Seq<char>>, x: Seq<char>)
    requires
        in_order(list),
    ensures
        in_order(with_text(list, x)),
    decreases list.len(),
{
    if list.len() > 0 && list[0] != x {
        if text::text_before(x, list[0]) {
            let new = seq![x] + list;
            assert forall|i: int, j: int| 0 <= i < j < new.len() implies text::text_before(
                #[trigger] new[i],
                #[trigger] new[j],
            ) by {
                if i > 0 {
                    assert(new[i] == list[i - 1] && new[j] == list[j - 1]);
                } else if j > 1 {
                    assert(new[j] == list[j - 1]);
                    text::lemma_text_before_transitive(x, list[0], list[j - 1]);
                }
            }
        } else {
            let rest = list.drop_first();
            assert(in_order(rest)) by {
                assert forall|i: int, j: int| 0 <= i < j < rest.len() implies text::text_before(
                    #[trigger] rest[i],
                    #[trigger] rest[j],
                ) by {
                    assert(rest[i] == list[i + 1] && rest[j] == list[j + 1]);
                }
            }
            lemma_with_text_in_order(rest, x);
            let tail = with_text(rest, x);
            let new = seq![list[0]] + tail;
            assert forall|i: int, j: int| 0 <= i < j < new.len() implies text::text_before(
                #[trigger] new[i],
                #[trigger] new[j],
            ) by {
                assert(new[j] == tail[j - 1]);
                if i > 0 {
                    assert(new[i] == tail[i - 1]);
                } else {
                    let y = tail[j - 1];
                    assert(tail.contains(y));
                    lemma_with_text_contains(rest, x, y);
                    if y == x {
                        text::lemma_text_before_total(list[0], x);
                    } else {
                        let k = choose|k: int| 0 <= k < rest.len() && rest[k] == y;
                        assert(list[k + 1] == y);
                    }
                }
            }
        }
    }
}

/// The projects of a summary come in the order of strings, each once.
pub proof fn lemma_projects_in_order(events: Seq<EventView>)
    ensures
        in_order(projects(events)),
    decreases events.len(),
{
    if events.len() > 0 {
        lemma_projects_in_order(events.drop_last());
        lemma_with_text_in_order(projects(events.drop_last()), events.last().project());
    }
}

/// The branches of a project come in the order of strings, each once.
pub proof fn lemma_branches_in_order(events: Seq<EventView>)
    ensures
        in_order(branches(events)),
    decreases events.len(),
{
    if events.len() > 0 {
        lemma_branches_in_order(events.drop_last());
        if events.last().is_push() {
            lemma_with_text_in_order(branches(events.drop_last()), events.last().push_branch());
        }
    }
}

proof fn lemma_with_text_at(list: Seq<Seq<char>>, x: Seq<char>, k: int)
    requires
        0 <= k <= list.len(),
        forall|j: int| 0 <= j < k ==> #[trigger] list[j] != x && !text::text_before(x, list[j]),
        k < list.len() ==> list[k] == x || text::text_before(x, list[k]),
    ensures
        k < list.len() && list[k] == x ==> with_text(list, x) == list,
        !(k < list.len() && list[k] == x) ==> with_text(list, x) == list.insert(k, x),
    decreases list.len(),
{
    if list.len() == 0 {
        assert(list.insert(0, x) == seq![x]);
    } else if k == 0 {
        assert(list.insert(0, x) == seq![x] + list);
    } else {
        let rest = list.drop_first();
        lemma_with_text_at(rest, x, k - 1);
        assert(list[0] != x && !text::text_before(x, list[0]));
        assert(list == seq![list[0]] + rest);
        assert(list.insert(k, x) == seq![list[0]] + rest.insert(k - 1, x));
    }
}

proof fn lemma_with_text_contains(list: Seq<Seq<char>>, x: Seq<char>, y: Seq<char>)
    ensures
        with_text(list, x).contains(y) == (list.contains(y) || x == y),
    decreases list.len(),
{
    if list.len() == 0 {
        assert(seq![x][0] == x);
    } else if list[0] == x {
    } else if text::text_before(x, list[0]) {
        let new = seq![x] + list;
        assert(new[0] == x);
        assert forall|i: int| 0 <= i < list.len() implies list[i] == new[i + 1] by {}
        if list.contains(y) {
            let i = choose|i: int| 0 <= i < list.len() && list[i] == y;
            assert(new[i + 1] == y);
        }
        if new.contains(y) && x != y {
            let i = choose|i: int| 0 <= i < new.len() && new[i] == y;
            assert(list[i - 1] == y);
        }
    } else {
        let rest = list.drop_first();
        lemma_with_text_contains(rest, x, y);
        let tail = with_text(rest, x);
        let new = seq![list[0]] + tail;
        assert(new[0] == list[0]);
        assert forall|i: int| 0 <= i < tail.len() implies tail[i] == new[i + 1] by {}
        assert forall|i: int| 0 <= i < rest.len() implies rest[i] == list[i + 1] by {}
        if tail.contains(y) {
            let i = choose|i: int| 0 <= i < tail.len() && tail[i] == y;
            assert(new[i + 1] == y);
        }
        if rest.contains(y) {
            let i = choose|i: int| 0 <= i < rest.len() && rest[i] == y;
            assert(list[i + 1] == y);
        }
        if new.contains(y) && list[0] != y {
            let i = choose|i: int| 0 <= i < new.len() && new[i] == y;
            assert(tail[i - 1] == y);
        }
        if list.contains(y) && list[0] != y {
            let i = choose|i: int| 0 <= i < list.len() && list[i] == y;
            assert(rest[i - 1] == y);
        }
    }
}

/// A project that no event names has no events.
proof fn lemma_unnamed_project(events: Seq<EventView>, p: Seq<char>)
    requires
        !projects(events).contains(p),
    ensures
        of_project(events, p) == Seq::<EventView>::empty(),
    decreases events.len(),
{
    if events.len() > 0 {
        lemma_with_text_contains(projects(events.drop_last()), events.last().project(), p);
        lemma_unnamed_project(events.drop_last(), p);
    }
}

/// A branch that no push names has no pushes.
proof fn lemma_unnamed_branch(events: Seq<EventView>, b: Seq<char>)
    requires
        !branches(events).contains(b),
    ensures
        push_count(events, b) == 0,
        commit_total(events, b) == 0,
    decreases events.len(),
{
    if events.len() > 0 {
        if events.last().is_push() {
            lemma_with_text_contains(branches(events.drop_last()), events.last().push_branch(), b);
        }
        lemma_unnamed_branch(events.drop_last(), b);
    }
}

/// A key that no comment has counts none.
proof fn lemma_unnamed_key(events: Seq<EventView>, key: CommentKey)
    requires
        !comment_keys(events).contains(key),
    ensures
        comment_count(events, key) == 0,
    decreases events.len(),
{
    if events.len() > 0 {
        let before = comment_keys(events.drop_last());
        if before.contains(key) {
            let i = choose|i: int| 0 <= i < before.len() && before[i] == key;
            assert(comment_keys(events)[i] == key);
        }
        if events.last().is_comment() && events.last().comment_key() == key {
            let all = comment_keys(events);
            assert(all == before.push(key));
            assert(all[all.len() - 1] == key);
        }
        lemma_unnamed_key(events.drop_last(), key);
    }
}

/// A project has a group just where some event is about it.
pub proof fn lemma_group_where_events(events: Seq<EventView>, p: Seq<char>)
    ensures
        projects(events).contains(p) == (of_project(events, p).len() > 0),
    decreases events.len(),
{
    if events.len() > 0 {
        lemma_with_text_contains(projects(events.drop_last()), events.last().project(), p);
        lemma_group_where_events(events.drop_last(), p);
    }
}

/// A branch has a line just where it was pushed to, and a target just where it
/// was commented on.
pub proof fn lemma_line_where_counted(events: Seq<EventView>, b: Seq<char>, key: CommentKey)
    ensures
        branches(events).contains(b) == (push_count(events, b) > 0),
        comment_keys(events).contains(key) == (comment_count(events, key) > 0),
    decreases events.len(),
{
    if events.len() > 0 {
        let before = events.drop_last();
        lemma_line_where_counted(before, b, key);
        if events.last().is_push() {
            lemma_with_text_contains(branches(before), events.last().push_branch(), b);
        }
        if !comment_keys(events).contains(key) {
            lemma_unnamed_key(events, key);
        } else {
            let all = comment_keys(events);
            let i = choose|i: int| 0 <= i < all.len() && all[i] == key;
            let earlier = comment_keys(before);
            if i < earlier.len() {
                assert(earlier[i] == key);
            }
        }
    }
}

proof fn lemma_counts_bounded(events: Seq<EventView>, b: Seq<char>, key: CommentKey)
    ensures
        push_count(events, b) <= events.len(),
        comment_count(events, key) <= events.len(),
    decreases events.len(),
{
    if events.len() > 0 {
        lemma_counts_bounded(events.drop_last(), b, key);
    }
}

proof fn lemma_of_project_bounded(events: Seq<EventView>, p: Seq<char>)
    ensures
        of_project(events, p).len() <= events.len(),
    decreases events.len(),
{
    if events.len() > 0 {
        lemma_of_project_bounded(events.drop_last(), p);
    }
}

proof fn lemma_commits_fit_prefix(events: Seq<EventView>, n: int)
    requires
        commits_fit(events),
        0 <= n <= events.len(),
    ensures
        commits_fit(events.take(n)),
    decreases events.len(),
{
    if n == events.len() {
        assert(events.take(n) == events);
    } else {
        let shorter = events.drop_last();
        assert forall|p: Seq<char>, b: Seq<char>| #[trigger]
            commit_total(of_project(shorter, p), b) <= u64::MAX by {
            assert(commit_total(of_project(events, p), b) <= u64::MAX);
            assert(of_project(shorter, p).push(events.last()).drop_last() == of_project(shorter, p));
        }
        lemma_commits_fit_prefix(shorter, n);
        assert(shorter.take(n) == events.take(n));
    }
}

// ---------------------------------------------------------------------------
// Reading an event
// ---------------------------------------------------------------------------

/// The text of `o`, or `other`.
fn or_else<'a>(o: &'a Option<String>, other: &'a str) -> (r: &'a str)
    ensures
        r@ == text::text_or(text::opt_text(*o), other@),
{
    match o {
        Some(s) => s.as_str(),
        None => other,
    }
}

/// What follows the last `/` of `path`.
pub fn short_project(path: &str) -> (r: &str)
    ensures
        r@ == after_last_slash(path@),
{
    let cs = text::chars_of(path);
    let mut i: usize = cs.len();
    while i > 0 && cs[i - 1] != '/'
        invariant
            i <= cs.len(),
            forall|j: int| i <= j < cs.len() ==> #[trigger] cs@[j] != '/',
        decreases i,
    {
        i -= 1;
    }
    proof {
        lemma_after_last_slash(cs@, i as int);
    }
    path.substring_char(i, cs.len())
}

proof fn lemma_after_last_slash(path: Seq<char>, i: int)
    requires
        0 <= i <= path.len(),
        forall|j: int| i <= j < path.len() ==> #[trigger] path[j] != '/',
        i > 0 ==> path[i - 1] == '/',
    ensures
        after_last_slash(path) == path.subrange(i, path.len() as int),
    decreases path.len(),
{
    if i == 0 {
        assert(!path.contains('/'));
        assert(path.subrange(0, path.len() as int) == path);
    } else {
        assert(path.contains('/'));
        let rest = path.drop_first();
        assert forall|j: int| i - 1 <= j < rest.len() implies #[trigger] rest[j] != '/' by {
            assert(path[j + 1] != '/');
        }
        lemma_after_last_slash(rest, i - 1);
        assert(rest.subrange(i - 1, rest.len() as int) == path.subrange(i, path.len() as int));
    }
}

/// The short word for a kind of target.
pub fn pretty_target(t: &str) -> (r: &'static str)
    ensures
        r@ == target_word(t@),
{
    if text::same_text(t, "MergeRequest") {
        "MR"
    } else if text::same_text(t, "Issue") {
        "issue"
    } else if text::same_text(t, "DiffNote") || text::same_text(t, "Note") || text::same_text(
        t,
        "DiscussionNote",
    ) {
        "note"
    } else if text::same_text(t, "Milestone") {
        "milestone"
    } else if text::same_text(t, "WikiPage::Meta") || text::same_text(t, "WikiPage") {
        "wiki"
    } else if text::same_text(t, "Commit") {
        "commit"
    } else {
        "item"
    }
}

/// The ending of "commit" for `n` of them.
pub fn plural(n: u64) -> (r: &'static str)
    ensures
        r@ == plural_ending(n as nat),
{
    if n == 1 {
        ""
    } else {
        "s"
    }
}

/// The ending of "push" for `n` of them.
pub fn plural_es(n: u64) -> (r: &'static str)
    ensures
        r@ == plural_es_ending(n as nat),
{
    if n == 1 {
        ""
    } else {
        "es"
    }
}

/// The name of the project that `ev` belongs to.
fn event_project(ev: &EventFields) -> (r: String)
    ensures
        r@ == ev@.project(),
{
    match &ev.project_name {
        Some(name) => short_project(name.as_str()).to_owned(),
        None => match ev.project_id {
            Some(id) => {
                let mut out = "#".to_owned();
                out.append(text::to_decimal(id).as_str());
                out
            },
            None => "?".to_owned(),
        },
    }
}

/// ` (by someone)` for the author of the merge request.
fn mr_author_suffix(ev: &EventFields) -> (r: String)
    ensures
        r@ == ev@.by_author(),
{
    match &ev.mr_author {
        Some(u) => {
            let mut out = " (by ".to_owned();
            out.append(u.as_str());
            out.append(")");
            out
        },
        None => "".to_owned(),
    }
}

// ---------------------------------------------------------------------------
// Summarising
// ---------------------------------------------------------------------------

/// Where `x` is in the ordered `list`, or where it belongs.
fn place(list: &Vec<String>, x: &str) -> (r: (usize, bool))
    requires
        in_order(text::texts(list@)),
    ensures
        r.0 <= list.len(),
        r.1 ==> r.0 < list.len() && list@[r.0 as int]@ == x@ && with_text(text::texts(list@), x@)
            == text::texts(list@),
        !r.1 ==> !text::texts(list@).contains(x@) && with_text(text::texts(list@), x@)
            == text::texts(list@).insert(r.0 as int, x@),
{
    let ghost all = text::texts(list@);
    let mut k: usize = 0;
    while k < list.len()
        invariant
            k <= list.len(),
            all == text::texts(list@),
            in_order(all),
            forall|j: int|
                0 <= j < k ==> #[trigger] all[j] != x@ && !text::text_before(x@, all[j]),
        decreases list.len() - k,
    {
        assert(all[k as int] == list@[k as int]@);
        if text::same_text(list[k].as_str(), x) {
            proof {
                lemma_with_text_at(all, x@, k as int);
            }
            return (k, true);
        }
        if text::is_before(x, list[k].as_str()) {
            proof {
                lemma_with_text_at(all, x@, k as int);
                if all.contains(x@) {
                    let j = choose|j: int| 0 <= j < all.len() && all[j] == x@;
                    if k < j {
                        text::lemma_text_before_transitive(x@, all[k as int], all[j]);
                    }
                    text::lemma_text_before_irreflexive(x@);
                }
            }
            return (k, false);
        }
        k += 1;
    }
    proof {
        lemma_with_text_at(all, x@, k as int);
    }
    (k, false)
}

/// How often a branch was pushed to, and how many commits that made.
struct PushTally {
    pushes: usize,
    commits: u64,
}

/// How many comments there are under one key.
struct CommentTally {
    kind: &'static str,
    title: String,
    author: String,
    count: usize,
}

impl CommentTally {
    spec fn key(self) -> CommentKey {
        CommentKey { kind: self.kind@, title: self.title@, author: self.author@ }
    }
}

spec fn tally_keys(tallies: Seq<CommentTally>) -> Seq<CommentKey> {
    Seq::new(tallies.len(), |i: int| tallies[i].key())
}

/// What has been collected of one project.
struct Bucket {
    branches: Vec<String>,
    pushes: Vec<PushTally>,
    comments: Vec<CommentTally>,
    other: Vec<SummaryLine>,
}

impl Bucket {
    /// Whether the bucket holds what `events` come to.
    spec fn holds(self, events: Seq<EventView>) -> bool {
        &&& text::texts(self.branches@) == branches(events)
        &&& self.pushes@.len() == self.branches@.len()
        &&& forall|i: int|
            0 <= i < self.pushes@.len() ==> #[trigger] self.pushes@[i].pushes == push_count(
                events,
                self.branches@[i]@,
            ) && self.pushes@[i].commits == commit_total(events, self.branches@[i]@)
        &&& tally_keys(self.comments@) == comment_keys(events)
        &&& forall|i: int|
            0 <= i < self.comments@.len() ==> #[trigger] self.comments@[i].count == comment_count(
                events,
                self.comments@[i].key(),
            )
        &&& line_views(self.other@) == other_lines(events)
    }

    fn new() -> (r: Self)
        ensures
            r.holds(Seq::empty()),
    {
        let r = Bucket {
            branches: Vec::new(),
            pushes: Vec::new(),
            comments: Vec::new(),
            other: Vec::new(),
        };
        proof {
            assert(text::texts(r.branches@) =~= branches(Seq::empty()));
            assert(tally_keys(r.comments@) =~= comment_keys(Seq::empty()));
            assert(line_views(r.other@) =~= other_lines(Seq::empty()));
        }
        r
    }

    /// Counts a push.
    fn add_push(&mut self, ev: &EventFields, Ghost(events): Ghost<Seq<EventView>>)
        requires
            old(self).holds(events),
            ev@.is_push(),
            events.len() < usize::MAX,
            commit_total(events.push(ev@), ev@.push_branch()) <= u64::MAX,
        ensures
            final(self).holds(events.push(ev@)),
    {
        let branch = or_else(&ev.branch, "(unknown)");
        let commits: u64 = match ev.commits {
            Some(n) => n,
            None => 0,
        };
        let ghost after = events.push(ev@);
        proof {
            assert(after.drop_last() == events);
            reveal_strlit("pushed to");
            reveal_strlit("pushed new");
            reveal_strlit("pushed");
            reveal_strlit("commented on");
            assert("commented on"@[0] == 'c');
            assert(ev@.verb()[0] == 'p');
            lemma_branches_in_order(events);
            lemma_counts_bounded(events, branch@, ev@.comment_key());
        }
        let (k, found) = place(&self.branches, branch);
        if found {
            let t = PushTally {
                pushes: self.pushes[k].pushes + 1,
                commits: self.pushes[k].commits + commits,
            };
            self.pushes[k] = t;
            proof {
                assert forall|i: int| 0 <= i < self.pushes@.len() implies #[trigger] self.pushes@[i].pushes
                    == push_count(after, self.branches@[i]@) && self.pushes@[i].commits
                    == commit_total(after, self.branches@[i]@) by {
                    let all = text::texts(self.branches@);
                    if i != k {
                        assert(all[i] == self.branches@[i]@ && all[k as int]
                            == self.branches@[k as int]@);
                        if i < k {
                            assert(text::text_before(all[i], all[k as int]));
                        } else {
                            assert(text::text_before(all[k as int], all[i]));
                        }
                        text::lemma_text_before_irreflexive(branch@);
                        assert(old(self).pushes@[i].pushes == push_count(
                            events,
                            self.branches@[i]@,
                        ));
                    }
                }
            }
        } else {
            proof {
                lemma_unnamed_branch(events, branch@);
            }
            self.branches.insert(k, branch.to_owned());
            self.pushes.insert(k, PushTally { pushes: 1, commits });
            proof {
                assert(text::texts(self.branches@) =~= text::texts(old(self).branches@).insert(
                    k as int,
                    branch@,
                ));
                assert forall|i: int| 0 <= i < self.pushes@.len() implies #[trigger] self.pushes@[i].pushes
                    == push_count(after, self.branches@[i]@) && self.pushes@[i].commits
                    == commit_total(after, self.branches@[i]@) by {
                    let all = text::texts(old(self).branches@);
                    if i < k {
                        assert(self.pushes@[i] == old(self).pushes@[i]);
                        assert(all[i] == self.branches@[i]@);
                        assert(old(self).pushes@[i].pushes == push_count(
                            events,
                            self.branches@[i]@,
                        ));
                    } else if i > k {
                        assert(self.pushes@[i] == old(self).pushes@[i - 1]);
                        assert(all[i - 1] == self.branches@[i]@);
                        assert(old(self).pushes@[i - 1].pushes == push_count(
                            events,
                            old(self).branches@[i - 1]@,
                        ));
                    }
                }
            }
        }
    }

    /// Counts a comment.
    fn add_comment(&mut self, ev: &EventFields, Ghost(events): Ghost<Seq<EventView>>)
        requires
            old(self).holds(events),
            ev@.is_comment(),
            events.len() < usize::MAX,
        ensures
            final(self).holds(events.push(ev@)),
    {
        let ghost after = events.push(ev@);
        let kind = pretty_target(or_else(&ev.noteable_type, or_else(&ev.target_type, "")));
        let title = or_else(&ev.target_title, "");
        let author = or_else(&ev.mr_author, "");
        let ghost key = ev@.comment_key();
        proof {
            assert(after.drop_last() == events);
            reveal_strlit("pushed to");
            reveal_strlit("pushed new");
            reveal_strlit("pushed");
            reveal_strlit("commented on");
            assert(ev@.verb()[0] == 'c');
            assert("pushed to"@[0] == 'p' && "pushed new"@[0] == 'p' && "pushed"@[0] == 'p');
            assert(!ev@.is_push());
            lemma_counts_bounded(events, seq![], key);
        }
        let mut k: usize = 0;
        while k < self.comments.len() && !(text::same_text(self.comments[k].kind, kind)
            && text::same_text(self.comments[k].title.as_str(), title) && text::same_text(
            self.comments[k].author.as_str(),
            author,
        ))
            invariant
                k <= self.comments.len(),
                *self == *old(self),
                key == (CommentKey { kind: kind@, title: title@, author: author@ }),
                forall|j: int| 0 <= j < k ==> #[trigger] tally_keys(self.comments@)[j] != key,
            decreases self.comments.len() - k,
        {
            assert(tally_keys(self.comments@)[k as int] == self.comments@[k as int].key());
            k += 1;
        }
        proof {
            assert forall|i: int| 0 <= i < self.pushes@.len() implies #[trigger] self.pushes@[i].pushes
                == push_count(after, self.branches@[i]@) && self.pushes@[i].commits == commit_total(
                after,
                self.branches@[i]@,
            ) by {
                assert(old(self).pushes@[i].pushes == push_count(events, self.branches@[i]@));
            }
        }
        if k < self.comments.len() {
            proof {
                assert(tally_keys(self.comments@)[k as int] == self.comments@[k as int].key());
                assert(self.comments@[k as int].key() == key);
                assert(comment_keys(events).contains(key)) by {
                    assert(comment_keys(events)[k as int] == key);
                }
                assert(self.comments@[k as int].count == comment_count(events, key));
            }
            let n: usize = self.comments[k].count + 1;
            let t = CommentTally { kind, title: title.to_owned(), author: author.to_owned(), count: n };
            self.comments[k] = t;
            proof {
                assert(tally_keys(self.comments@) =~= comment_keys(after)) by {
                    assert(comment_keys(after) == comment_keys(events));
                    assert forall|i: int| 0 <= i < self.comments@.len() implies tally_keys(
                        self.comments@,
                    )[i] == tally_keys(old(self).comments@)[i] by {}
                }
                assert forall|i: int| 0 <= i < self.comments@.len() implies #[trigger] self.comments@[i].count
                    == comment_count(after, self.comments@[i].key()) by {
                    if i != k {
                        assert(self.comments@[i] == old(self).comments@[i]);
                        assert(old(self).comments@[i].count == comment_count(
                            events,
                            self.comments@[i].key(),
                        ));
                        lemma_comment_keys_distinct(events);
                        assert(comment_keys(events)[i] == self.comments@[i].key());
                        assert(comment_keys(events)[k as int] == key);
                    }
                }
            }
        } else {
            proof {
                assert(!comment_keys(events).contains(key));
                lemma_unnamed_key(events, key);
            }
            self.comments.push(
                CommentTally { kind, title: title.to_owned(), author: author.to_owned(), count: 1 },
            );
            proof {
                assert(tally_keys(self.comments@) =~= tally_keys(old(self).comments@).push(key));
                assert forall|i: int| 0 <= i < self.comments@.len() implies #[trigger] self.comments@[i].count
                    == comment_count(after, self.comments@[i].key()) by {
                    if i < k {
                        assert(self.comments@[i] == old(self).comments@[i]);
                        assert(old(self).comments@[i].count == comment_count(
                            events,
                            self.comments@[i].key(),
                        ));
                        assert(tally_keys(old(self).comments@)[i] == self.comments@[i].key());
                    }
                }
            }
        }
    }

    /// Adds the line of an event that is neither a push nor a comment.
    fn add_other(&mut self, line: SummaryLine, Ghost(ev): Ghost<EventView>, Ghost(events): Ghost<
        Seq<EventView>,
    >)
        requires
            old(self).holds(events),
            !ev.is_push(),
            !ev.is_comment(),
            line@ == ev.other_line(),
        ensures
            final(self).holds(events.push(ev)),
    {
        let ghost after = events.push(ev);
        self.other.push(line);
        proof {
            assert(after.drop_last() == events);
            assert(line_views(self.other@) =~= line_views(old(self).other@).push(line@));
            assert forall|i: int| 0 <= i < self.pushes@.len() implies #[trigger] self.pushes@[i].pushes
                == push_count(after, self.branches@[i]@) && self.pushes@[i].commits == commit_total(
                after,
                self.branches@[i]@,
            ) by {
                assert(old(self).pushes@[i].pushes == push_count(events, self.branches@[i]@));
            }
            assert forall|i: int| 0 <= i < self.comments@.len() implies #[trigger] self.comments@[i].count
                == comment_count(after, self.comments@[i].key()) by {
                assert(old(self).comments@[i].count == comment_count(
                    events,
                    self.comments@[i].key(),
                ));
            }
        }
    }
}

/// No comment key is listed twice.
pub proof fn lemma_comment_keys_distinct(events: Seq<EventView>)
    ensures
        comment_keys(events).no_duplicates(),
    decreases events.len(),
{
    if events.len() > 0 {
        lemma_comment_keys_distinct(events.drop_last());
    }
}

/// `head`, then `middle`, then `tail`.
fn concat3(head: &str, middle: &str, tail: &str) -> (r: String)
    ensures
        r@ == head@ + middle@ + tail@,
{
    let mut out = head.to_owned();
    out.append(middle);
    out.append(tail);
    out
}

/// The line of an event that is neither a push nor a comment.
fn other_line(ev: &EventFields) -> (r: SummaryLine)
    ensures
        r@ == ev@.other_line(),
{
    let action = or_else(&ev.action, "");
    let title = or_else(&ev.target_title, "");
    let by = mr_author_suffix(ev);
    if text::same_text(action, "opened") {
        let target = pretty_target(or_else(&ev.target_type, ""));
        let mut text = concat3("Opened ", target, ": ");
        text.append(title);
        text.append(by.as_str());
        SummaryLine { icon: ICON_OPEN, text }
    } else if text::same_text(action, "closed") {
        let target = pretty_target(or_else(&ev.target_type, ""));
        let mut text = concat3("Closed ", target, ": ");
        text.append(title);
        text.append(by.as_str());
        SummaryLine { icon: ICON_CLOSE, text }
    } else if text::same_text(action, "accepted") || text::same_text(action, "merged") {
        SummaryLine { icon: ICON_MERGE, text: concat3("Merged MR: ", title, by.as_str()) }
    } else if text::same_text(action, "approved") {
        SummaryLine { icon: ICON_APPROVE, text: concat3("Approved: ", title, by.as_str()) }
    } else if title.is_empty() {
        SummaryLine { icon: ICON_OTHER, text: action.to_owned() }
    } else {
        SummaryLine { icon: ICON_OTHER, text: concat3(action, ": ", title) }
    }
}

/// The line of one branch.
fn branch_line(branch: &str, pushes: usize, commits: u64) -> (r: SummaryLine)
    ensures
        r@ == push_line(branch@, pushes as nat, commits as nat),
{
    let mut text = branch.to_owned();
    let p = text::to_decimal(pushes as u64);
    let c = text::to_decimal(commits);
    if pushes == 1 && commits == 0 {
        proof {
            reveal_strlit("");
            assert(branch@ + ""@ == branch@);
        }
    } else if pushes == 1 {
        let suffix = concat3(concat3(" (", c.as_str(), " commit").as_str(), plural(commits), ")");
        text.append(suffix.as_str());
    } else if commits == 0 {
        let suffix = concat3(
            concat3(" (", p.as_str(), " push").as_str(),
            plural_es(pushes as u64),
            ")",
        );
        text.append(suffix.as_str());
    } else {
        let mut suffix = concat3(
            concat3(" (", p.as_str(), " push").as_str(),
            plural_es(pushes as u64),
            ", ",
        );
        suffix.append(c.as_str());
        suffix.append(" commit");
        suffix.append(plural(commits));
        suffix.append(")");
        text.append(suffix.as_str());
    }
    SummaryLine { icon: ICON_PUSH, text }
}

/// The line of the comments under one key.
fn comments_line(t: &CommentTally) -> (r: SummaryLine)
    ensures
        r@ == comment_line(t.key(), t.count as nat),
{
    let mut text = "Commented on ".to_owned();
    text.append(t.kind);
    if !t.title.as_str().is_empty() {
        text.append(": ");
        text.append(t.title.as_str());
    }
    let ghost on = text@;
    let by = if t.author.as_str().is_empty() {
        "".to_owned()
    } else {
        concat3(" (by ", t.author.as_str(), ")")
    };
    let times = if t.count > 1 {
        let n = text::to_decimal(t.count as u64);
        concat3(" (", n.as_str(), " comments)")
    } else {
        "".to_owned()
    };
    text.append(by.as_str());
    text.append(times.as_str());
    SummaryLine { icon: ICON_COMMENT, text }
}

impl Bucket {
    /// Counts or lists one more event.
    fn add(&mut self, ev: &EventFields, Ghost(events): Ghost<Seq<EventView>>)
        requires
            old(self).holds(events),
            events.len() < usize::MAX,
            commit_total(events.push(ev@), ev@.push_branch()) <= u64::MAX,
        ensures
            final(self).holds(events.push(ev@)),
    {
        let action = or_else(&ev.action, "");
        if text::same_text(action, "pushed to") || text::same_text(action, "pushed new")
            || text::same_text(action, "pushed") {
            self.add_push(ev, Ghost(events));
        } else if text::same_text(action, "commented on") {
            self.add_comment(ev, Ghost(events));
        } else {
            self.add_other(other_line(ev), Ghost(ev@), Ghost(events));
        }
    }

    /// The lines of the project: pushes, then comments, then the rest.
    fn lines(&self, Ghost(events): Ghost<Seq<EventView>>) -> (r: Vec<SummaryLine>)
        requires
            self.holds(events),
        ensures
            line_views(r@) == project_lines(events),
    {
        let ghost all = project_lines(events);
        let ghost nb = self.branches@.len() as int;
        let ghost nc = self.comments@.len() as int;
        let mut out: Vec<SummaryLine> = Vec::new();
        proof {
            assert(text::texts(self.branches@).len() == nb);
            assert(tally_keys(self.comments@).len() == nc);
            assert(line_views(self.other@).len() == self.other@.len());
        }
        let mut i: usize = 0;
        while i < self.branches.len()
            invariant
                i <= self.branches.len(),
                self.holds(events),
                nb == self.branches@.len(),
                nb == branches(events).len(),
                all == project_lines(events),
                out@.len() == i,
                forall|j: int| 0 <= j < i ==> #[trigger] out@[j]@ == all[j],
            decreases self.branches.len() - i,
        {
            out.push(
                branch_line(self.branches[i].as_str(), self.pushes[i].pushes, self.pushes[i].commits),
            );
            proof {
                assert(text::texts(self.branches@)[i as int] == self.branches@[i as int]@);
                assert(self.pushes@[i as int].pushes == push_count(
                    events,
                    self.branches@[i as int]@,
                ));
                assert(push_lines(events)[i as int] == out@[i as int]@);
                assert(all[i as int] == push_lines(events)[i as int]);
            }
            i += 1;
        }
        let mut i: usize = 0;
        while i < self.comments.len()
            invariant
                i <= self.comments.len(),
                self.holds(events),
                nb == branches(events).len(),
                nc == self.comments@.len(),
                nc == comment_keys(events).len(),
                all == project_lines(events),
                out@.len() == nb + i,
                forall|j: int| 0 <= j < nb + i ==> #[trigger] out@[j]@ == all[j],
            decreases self.comments.len() - i,
        {
            out.push(comments_line(&self.comments[i]));
            proof {
                assert(tally_keys(self.comments@)[i as int] == self.comments@[i as int].key());
                assert(self.comments@[i as int].count == comment_count(
                    events,
                    self.comments@[i as int].key(),
                ));
                assert(comment_lines(events)[i as int] == out@[nb + i]@);
                assert(all[nb + i] == comment_lines(events)[i as int]);
            }
            i += 1;
        }
        let mut i: usize = 0;
        while i < self.other.len()
            invariant
                i <= self.other.len(),
                self.holds(events),
                nb == branches(events).len(),
                nc == comment_keys(events).len(),
                all == project_lines(events),
                out@.len() == nb + nc + i,
                forall|j: int| 0 <= j < nb + nc + i ==> #[trigger] out@[j]@ == all[j],
            decreases self.other.len() - i,
        {
            let line = &self.other[i];
            out.push(SummaryLine { icon: line.icon, text: line.text.clone() });
            proof {
                assert(line_views(self.other@)[i as int] == self.other@[i as int]@);
                assert(all[nb + nc + i] == other_lines(events)[i as int]);
            }
            i += 1;
        }
        assert(line_views(self.other@).len() == self.other@.len());
        assert(line_views(out@) =~= all);
        out
    }
}

/// Group a day of events under their project. Within each group: pushes
/// (collapsed by branch), then comments (collapsed by target), then the other
/// actions as they came.
pub fn summarise_fields(events: &[EventFields]) -> (r: Vec<ProjectGroup>)
    requires
        commits_fit(event_views(events@)),
    ensures
        group_views(r@) == summary(event_views(events@)),
{
    let ghost all = event_views(events@);
    let mut names: Vec<String> = Vec::new();
    let mut buckets: Vec<Bucket> = Vec::new();
    let mut i: usize = 0;
    assert(text::texts(names@) =~= projects(all.take(0)));
    while i < events.len()
        invariant
            i <= events.len(),
            all == event_views(events@),
            commits_fit(all),
            text::texts(names@) == projects(all.take(i as int)),
            buckets@.len() == names@.len(),
            forall|j: int|
                0 <= j < buckets@.len() ==> #[trigger] buckets@[j].holds(
                    of_project(all.take(i as int), names@[j]@),
                ),
        decreases events.len() - i,
    {
        let ev = &events[i];
        let project = event_project(ev);
        let ghost before = all.take(i as int);
        let ghost after = all.take(i + 1);
        let ghost mine = of_project(before, project@);
        proof {
            assert(all[i as int] == ev@);
            assert(after.drop_last() == before);
            assert(after.last() == ev@);
            lemma_projects_in_order(before);
            lemma_commits_fit_prefix(all, i + 1);
            lemma_of_project_bounded(before, project@);
            assert(of_project(after, project@) == mine.push(ev@));
            assert(commit_total(of_project(after, project@), ev@.push_branch()) <= u64::MAX);
        }
        let (k, found) = place(&names, project.as_str());
        if !found {
            proof {
                lemma_unnamed_project(before, project@);
            }
            let ghost names0 = names@;
            let ghost buckets0 = buckets@;
            names.insert(k, project);
            buckets.insert(k, Bucket::new());
            proof {
                assert(text::texts(names@) =~= text::texts(names0).insert(k as int, project@));
                assert forall|j: int| 0 <= j < buckets@.len() implies #[trigger] buckets@[j].holds(
                    of_project(before, names@[j]@),
                ) by {
                    if j < k {
                        assert(buckets0[j].holds(of_project(before, names0[j]@)));
                    } else if j > k {
                        assert(buckets0[j - 1].holds(of_project(before, names0[j - 1]@)));
                    } else {
                        assert(mine == Seq::<EventView>::empty());
                    }
                }
            }
        }
        assert(buckets@[k as int].holds(mine));
        let ghost buckets1 = buckets@;
        let bucket = &mut buckets[k];
        bucket.add(ev, Ghost(mine));
        proof {
            assert(text::texts(names@) == projects(after));
            lemma_projects_in_order(after);
            assert forall|j: int| 0 <= j < buckets@.len() implies #[trigger] buckets@[j].holds(
                of_project(after, names@[j]@),
            ) by {
                let t = text::texts(names@);
                assert(t[j] == names@[j]@ && t[k as int] == names@[k as int]@);
                if j != k {
                    assert(buckets@[j] == buckets1[j]);
                    assert(buckets1[j].holds(of_project(before, names@[j]@)));
                    if j < k {
                        assert(text::text_before(t[j], t[k as int]));
                    } else {
                        assert(text::text_before(t[k as int], t[j]));
                    }
                    text::lemma_text_before_irreflexive(names@[k as int]@);
                }
            }
        }
        i += 1;
    }
    assert(all.take(events@.len() as int) =~= all);
    let mut groups: Vec<ProjectGroup> = Vec::new();
    let mut j: usize = 0;
    assert(text::texts(names@).len() == names@.len());
    while j < names.len()
        invariant
            j <= names.len(),
            text::texts(names@) == projects(all),
            buckets@.len() == names@.len(),
            forall|j: int|
                0 <= j < buckets@.len() ==> #[trigger] buckets@[j].holds(
                    of_project(all, names@[j]@),
                ),
            groups@.len() == j,
            forall|m: int| 0 <= m < j ==> #[trigger] groups@[m]@ == summary(all)[m],
        decreases names.len() - j,
    {
        assert(text::texts(names@)[j as int] == names@[j as int]@);
        assert(buckets@[j as int].holds(of_project(all, names@[j as int]@)));
        let lines = buckets[j].lines(Ghost(of_project(all, names@[j as int]@)));
        groups.push(ProjectGroup { project: names[j].clone(), lines });
        assert(groups@[j as int]@ == summary(all)[j as int]);
        j += 1;
    }
    assert(group_views(groups@) =~= summary(all));
    groups
}

// ---------------------------------------------------------------------------
// Raw events
// ---------------------------------------------------------------------------

/// The fields of a raw event that a summary reads.
pub open spec fn event_of(v: RawEvent) -> EventView {
    EventView {
        action: json::string_in(v, "/action_name"@),
        target_type: json::string_in(v, "/target_type"@),
        target_title: json::string_in(v, "/target_title"@),
        project_name: json::string_in(v, "/_project_name"@),
        project_id: json::number_in(v, "/project_id"@),
        branch: json::string_in(v, "/push_data/ref"@),
        commits: json::number_in(v, "/push_data/commit_count"@),
        noteable_type: json::string_in(v, "/note/noteable_type"@),
        mr_author: json::string_in(v, "/_mr_author_username"@),
    }
}

/// The fields of each of a sequence of raw events.
pub open spec fn events_of(vs: Seq<RawEvent>) -> Seq<EventView> {
    Seq::new(vs.len(), |i: int| event_of(vs[i]))
}

/// Reads the fields of a raw event.
pub fn read_event(ev: &RawEvent) -> (r: EventFields)
    ensures
        r@ == event_of(*ev),
{
    EventFields {
        action: json::string_at(ev, "/action_name"),
        target_type: json::string_at(ev, "/target_type"),
        target_title: json::string_at(ev, "/target_title"),
        project_name: json::string_at(ev, "/_project_name"),
        project_id: json::number_at(ev, "/project_id"),
        branch: json::string_at(ev, "/push_data/ref"),
        commits: json::number_at(ev, "/push_data/commit_count"),
        noteable_type: json::string_at(ev, "/note/noteable_type"),
        mr_author: json::string_at(ev, "/_mr_author_username"),
    }
}

fn read_events(events: &[RawEvent]) -> (r: Vec<EventFields>)
    ensures
        event_views(r@) == events_of(events@),
{
    let mut out: Vec<EventFields> = Vec::new();
    let mut i: usize = 0;
    while i < events.len()
        invariant
            i <= events.len(),
            out@.len() == i,
            forall|j: int| 0 <= j < i ==> #[trigger] out@[j]@ == event_of(events@[j]),
        decreases events.len() - i,
    {
        out.push(read_event(&events[i]));
        i += 1;
    }
    assert(event_views(out@) =~= events_of(events@));
    out
}

/// Group a day of raw events under their project, as [`summarise_fields`] does.
pub fn summarise(events: &[RawEvent]) -> (r: Vec<ProjectGroup>)
    requires
        commits_fit(events_of(events@)),
    ensures
        group_views(r@) == summary(events_of(events@)),
{
    let fields = read_events(events);
    summarise_fields(fields.as_slice())
}

/// [`summarise`], or `None` where the commits pushed to some branch are too
/// many to count.
pub fn try_summarise(events: &[RawEvent]) -> (r: Option<Vec<ProjectGroup>>)
    ensures
        r is Some == commits_fit(events_of(events@)),
        r matches Some(groups) ==> group_views(groups@) == summary(events_of(events@)),
{
    let fields = read_events(events);
    if commits_countable(fields.as_slice()) {
        Some(summarise_fields(fields.as_slice()))
    } else {
        None
    }
}

/// How many commits were pushed to `branch` of `project`.
spec fn pair_total(events: Seq<EventView>, project: Seq<char>, branch: Seq<char>) -> nat
    decreases events.len(),
{
    if events.len() == 0 {
        0
    } else {
        pair_total(events.drop_last(), project, branch) + if events.last().project() == project
            && events.last().is_push() && events.last().push_branch() == branch {
            events.last().push_commits()
        } else {
            0nat
        }
    }
}

proof fn lemma_pair_total(events: Seq<EventView>, project: Seq<char>, branch: Seq<char>)
    ensures
        pair_total(events, project, branch) == commit_total(of_project(events, project), branch),
        pair_total(events, project, branch) <= events.len() * u64::MAX,
    decreases events.len(),
{
    if events.len() > 0 {
        let before = of_project(events.drop_last(), project);
        lemma_pair_total(events.drop_last(), project, branch);
        assert(before.push(events.last()).drop_last() == before);
        assert((events.len() - 1) * u64::MAX + u64::MAX == events.len() * u64::MAX)
            by (nonlinear_arith)
            requires
                events.len() > 0,
        ;
    }
}

proof fn lemma_pair_unpushed(events: Seq<EventView>, project: Seq<char>, branch: Seq<char>)
    requires
        forall|i: int|
            0 <= i < events.len() ==> !(#[trigger] events[i].project() == project
                && events[i].is_push() && events[i].push_branch() == branch),
    ensures
        pair_total(events, project, branch) == 0,
    decreases events.len(),
{
    if events.len() > 0 {
        let n = events.len() - 1;
        assert(!(events[n].project() == project && events[n].is_push() && events[n].push_branch()
            == branch));
        assert forall|i: int| 0 <= i < n implies !(#[trigger] events.drop_last()[i].project()
            == project && events.drop_last()[i].is_push() && events.drop_last()[i].push_branch()
            == branch) by {
            assert(events.drop_last()[i] == events[i]);
            assert(!(events[i].project() == project && events[i].is_push()
                && events[i].push_branch() == branch));
        }
        lemma_pair_unpushed(events.drop_last(), project, branch);
    }
}

fn is_push(ev: &EventFields) -> (r: bool)
    ensures
        r == ev@.is_push(),
{
    let action = or_else(&ev.action, "");
    text::same_text(action, "pushed to") || text::same_text(action, "pushed new")
        || text::same_text(action, "pushed")
}

/// How many commits were pushed to `branch` of `project`.
fn pushed_to(events: &[EventFields], project: &str, branch: &str) -> (r: u128)
    ensures
        r == pair_total(event_views(events@), project@, branch@),
{
    let ghost all = event_views(events@);
    let mut total: u128 = 0;
    let mut i: usize = 0;
    while i < events.len()
        invariant
            i <= events.len(),
            all == event_views(events@),
            total == pair_total(all.take(i as int), project@, branch@),
        decreases events.len() - i,
    {
        let ev = &events[i];
        let its_project = event_project(ev);
        proof {
            assert(all.take(i + 1).drop_last() == all.take(i as int));
            assert(all.take(i + 1).last() == ev@);
            lemma_pair_total(all.take(i as int), project@, branch@);
            assert(i * u64::MAX + u64::MAX <= u128::MAX) by (nonlinear_arith)
                requires
                    i <= usize::MAX,
                    usize::MAX <= u64::MAX,
            ;
        }
        if text::same_text(its_project.as_str(), project) && is_push(ev) && text::same_text(
            or_else(&ev.branch, "(unknown)"),
            branch,
        ) {
            let commits: u64 = match ev.commits {
                Some(n) => n,
                None => 0,
            };
            total = total + commits as u128;
        }
        i += 1;
    }
    assert(all.take(events@.len() as int) =~= all);
    total
}

/// Whether the commits pushed to each branch of each project can be counted.
pub fn commits_countable(events: &[EventFields]) -> (r: bool)
    ensures
        r == commits_fit(event_views(events@)),
{
    let ghost all = event_views(events@);
    let mut i: usize = 0;
    while i < events.len()
        invariant
            i <= events.len(),
            all == event_views(events@),
            forall|j: int|
                0 <= j < i && #[trigger] all[j].is_push() ==> pair_total(
                    all,
                    all[j].project(),
                    all[j].push_branch(),
                ) <= u64::MAX,
        decreases events.len() - i,
    {
        let ev = &events[i];
        assert(all[i as int] == ev@);
        if is_push(ev) {
            let project = event_project(ev);
            let branch = or_else(&ev.branch, "(unknown)");
            if pushed_to(events, project.as_str(), branch) > u64::MAX as u128 {
                proof {
                    lemma_pair_total(all, project@, branch@);
                    assert(!commits_fit(all)) by {
                        assert(commit_total(of_project(all, project@), branch@) > u64::MAX);
                    }
                }
                return false;
            }
        }
        i += 1;
    }
    proof {
        assert forall|p: Seq<char>, b: Seq<char>| #[trigger]
            commit_total(of_project(all, p), b) <= u64::MAX by {
            lemma_pair_total(all, p, b);
            if exists|j: int|
                0 <= j < all.len() && #[trigger] all[j].project() == p && all[j].is_push()
                    && all[j].push_branch() == b {
                let j = choose|j: int|
                    0 <= j < all.len() && #[trigger] all[j].project() == p && all[j].is_push()
                        && all[j].push_branch() == b;
                assert(all[j].is_push());
            } else {
                lemma_pair_unpushed(all, p, b);
            }
        }
    }
    true
}

// ---------------------------------------------------------------------------
// Every event is counted once
// ---------------------------------------------------------------------------

/// The sum of `f` over a list.
pub open spec fn total<A>(list: Seq<A>, f: spec_fn(A) -> nat) -> nat
    decreases list.len(),
{
    if list.len() == 0 {
        0
    } else {
        f(list[0]) + total(list.drop_first(), f)
    }
}

/// How many events the lines of one project stand for.
pub open spec fn counted(events: Seq<EventView>) -> nat {
    total(branches(events), |b: Seq<char>| push_count(events, b)) + total(
        comment_keys(events),
        |key: CommentKey| comment_count(events, key),
    ) + other_lines(events).len()
}

/// Where `g` is one more than `f` at `x` and the same elsewhere, so are the sums.
proof fn lemma_total_bump<A>(list: Seq<A>, f: spec_fn(A) -> nat, g: spec_fn(A) -> nat, x: A)
    requires
        list.no_duplicates(),
        forall|i: int|
            0 <= i < list.len() ==> g(#[trigger] list[i]) == f(list[i]) + if list[i] == x {
                1nat
            } else {
                0nat
            },
    ensures
        total(list, g) == total(list, f) + if list.contains(x) {
            1nat
        } else {
            0nat
        },
    decreases list.len(),
{
    if list.len() > 0 {
        let rest = list.drop_first();
        assert forall|i: int| 0 <= i < rest.len() implies g(#[trigger] rest[i]) == f(rest[i])
            + if rest[i] == x {
            1nat
        } else {
            0nat
        } by {
            assert(rest[i] == list[i + 1]);
        }
        assert(list[0] == list[0]);
        lemma_total_bump(rest, f, g, x);
        if list[0] == x {
            assert(!rest.contains(x)) by {
                if rest.contains(x) {
                    let i = choose|i: int| 0 <= i < rest.len() && rest[i] == x;
                    assert(list[i + 1] == list[0]);
                }
            }
        } else if list.contains(x) {
            let i = choose|i: int| 0 <= i < list.len() && list[i] == x;
            assert(rest[i - 1] == x);
        } else if rest.contains(x) {
            let i = choose|i: int| 0 <= i < rest.len() && rest[i] == x;
            assert(list[i + 1] == x);
        }
    }
}

/// Where `f` and `g` agree, so do their sums.
proof fn lemma_total_same<A>(list: Seq<A>, f: spec_fn(A) -> nat, g: spec_fn(A) -> nat)
    requires
        forall|i: int| 0 <= i < list.len() ==> g(#[trigger] list[i]) == f(list[i]),
    ensures
        total(list, g) == total(list, f),
    decreases list.len(),
{
    if list.len() > 0 {
        let rest = list.drop_first();
        assert forall|i: int| 0 <= i < rest.len() implies g(#[trigger] rest[i]) == f(rest[i]) by {
            assert(rest[i] == list[i + 1]);
        }
        assert(list[0] == list[0]);
        lemma_total_same(rest, f, g);
    }
}

/// A text for which `f` is 0 adds nothing.
proof fn lemma_total_with_text(list: Seq<Seq<char>>, x: Seq<char>, f: spec_fn(Seq<char>) -> nat)
    requires
        list.contains(x) || f(x) == 0,
        in_order(list),
    ensures
        total(with_text(list, x), f) == total(list, f),
    decreases list.len(),
{
    let new = with_text(list, x);
    if list.len() == 0 {
        assert(new.drop_first() =~= list);
        assert(total(list, f) == 0);
    } else if list[0] == x {
    } else if text::text_before(x, list[0]) {
        assert(new.drop_first() =~= list);
        if list.contains(x) {
            let i = choose|i: int| 0 <= i < list.len() && list[i] == x;
            text::lemma_text_before_transitive(x, list[0], list[i]);
            text::lemma_text_before_irreflexive(x);
        }
    } else {
        let rest = list.drop_first();
        assert(new.drop_first() =~= with_text(rest, x));
        if list.contains(x) {
            let i = choose|i: int| 0 <= i < list.len() && list[i] == x;
            assert(rest[i - 1] == x);
        }
        lemma_total_with_text(rest, x, f);
    }
}

proof fn lemma_in_order_distinct(list: Seq<Seq<char>>)
    requires
        in_order(list),
    ensures
        list.no_duplicates(),
{
    assert forall|i: int, j: int| 0 <= i < list.len() && 0 <= j < list.len() && i != j implies list[i]
        != list[j] by {
        text::lemma_text_before_irreflexive(list[i]);
    }
}

/// A sum over texts grows by one where `x` is added and counted once more.
proof fn lemma_total_step(
    list: Seq<Seq<char>>,
    x: Seq<char>,
    f: spec_fn(Seq<char>) -> nat,
    g: spec_fn(Seq<char>) -> nat,
)
    requires
        in_order(list),
        list.contains(x) || f(x) == 0,
        forall|y: Seq<char>| #[trigger]
            g(y) == f(y) + if y == x {
                1nat
            } else {
                0nat
            },
    ensures
        total(with_text(list, x), g) == total(list, f) + 1,
{
    lemma_with_text_in_order(list, x);
    lemma_in_order_distinct(with_text(list, x));
    lemma_with_text_contains(list, x, x);
    lemma_total_bump(with_text(list, x), f, g, x);
    lemma_total_with_text(list, x, f);
}

proof fn lemma_push_is_no_comment(e: EventView)
    ensures
        !(e.is_push() && e.is_comment()),
{
    reveal_strlit("pushed to");
    reveal_strlit("pushed new");
    reveal_strlit("pushed");
    reveal_strlit("commented on");
    assert("pushed to"@.len() == 9);
    assert("pushed new"@.len() == 10);
    assert("pushed"@.len() == 6);
    assert("commented on"@.len() == 12);
}

proof fn lemma_comments_counted(events: Seq<EventView>)
    requires
        events.len() > 0,
        events.last().is_comment(),
    ensures
        total(comment_keys(events), |key: CommentKey| comment_count(events, key)) == total(
            comment_keys(events.drop_last()),
            |key: CommentKey| comment_count(events.drop_last(), key),
        ) + 1,
{
    let before = events.drop_last();
    let x = events.last().comment_key();
    let f = |key: CommentKey| comment_count(before, key);
    let g = |key: CommentKey| comment_count(events, key);
    let old_keys = comment_keys(before);
    let keys = comment_keys(events);
    lemma_comment_keys_distinct(events);
    assert(keys.contains(x)) by {
        if !old_keys.contains(x) {
            assert(keys.last() == x);
        }
    }
    lemma_total_bump(keys, f, g, x);
    if !old_keys.contains(x) {
        lemma_unnamed_key(before, x);
        lemma_total_push(old_keys, x, f);
    }
}

proof fn lemma_total_push<A>(list: Seq<A>, x: A, f: spec_fn(A) -> nat)
    ensures
        total(list.push(x), f) == total(list, f) + f(x),
    decreases list.len(),
{
    let new = list.push(x);
    if list.len() == 0 {
        assert(new.drop_first() =~= list);
        assert(total(list, f) == 0);
    } else {
        assert(new.drop_first() =~= list.drop_first().push(x));
        lemma_total_push(list.drop_first(), x, f);
    }
}

/// The lines of a project stand for each of its events once: pushes by branch,
/// comments by target, and the rest one by one.
pub proof fn lemma_lines_count_events(events: Seq<EventView>)
    ensures
        counted(events) == events.len(),
    decreases events.len(),
{
    if events.len() > 0 {
        let before = events.drop_last();
        let e = events.last();
        lemma_lines_count_events(before);
        lemma_push_is_no_comment(e);
        let pushes = |b: Seq<char>| push_count(before, b);
        let new_pushes = |b: Seq<char>| push_count(events, b);
        let comments = |key: CommentKey| comment_count(before, key);
        let new_comments = |key: CommentKey| comment_count(events, key);
        if e.is_push() {
            let b = e.push_branch();
            lemma_branches_in_order(before);
            lemma_line_where_counted(before, b, e.comment_key());
            lemma_total_step(branches(before), b, pushes, new_pushes);
        } else {
            lemma_total_same(branches(events), pushes, new_pushes);
        }
        if e.is_comment() {
            lemma_comments_counted(events);
        } else {
            lemma_total_same(comment_keys(events), comments, new_comments);
        }
    }
}

/// The groups of a summary stand for each event once.
pub proof fn lemma_groups_count_events(events: Seq<EventView>)
    ensures
        total(projects(events), |p: Seq<char>| counted(of_project(events, p))) == events.len(),
    decreases events.len(),
{
    let now = |p: Seq<char>| counted(of_project(events, p));
    let sizes = |p: Seq<char>| of_project(events, p).len();
    assert forall|p: Seq<char>| now(p) == #[trigger] sizes(p) by {
        lemma_lines_count_events(of_project(events, p));
    }
    assert forall|i: int| 0 <= i < projects(events).len() implies now(#[trigger] projects(events)[i])
        == sizes(projects(events)[i]) by {}
    lemma_total_same(projects(events), sizes, now);
    if events.len() > 0 {
        let before = events.drop_last();
        let x = events.last().project();
        let old_now = |p: Seq<char>| counted(of_project(before, p));
        let old_sizes = |p: Seq<char>| of_project(before, p).len();
        lemma_groups_count_events(before);
        assert forall|p: Seq<char>| old_now(p) == #[trigger] old_sizes(p) by {
            lemma_lines_count_events(of_project(before, p));
        }
        lemma_total_same(projects(before), old_sizes, old_now);
        lemma_projects_in_order(before);
        lemma_group_where_events(before, x);
        lemma_total_step(projects(before), x, old_sizes, sizes);
    }
}

// ---------------------------------------------------------------------------
// Laws of what a summary says
// ---------------------------------------------------------------------------

/// What two lists of events count is what the one and the other count together, and what
/// they list comes one after the other.
pub proof fn lemma_events_add_up(
    a: Seq<EventView>,
    b: Seq<EventView>,
    branch: Seq<char>,
    key: CommentKey,
    project: Seq<char>,
)
    ensures
        push_count(a + b, branch) == push_count(a, branch) + push_count(b, branch),
        commit_total(a + b, branch) == commit_total(a, branch) + commit_total(b, branch),
        comment_count(a + b, key) == comment_count(a, key) + comment_count(b, key),
        other_lines(a + b) == other_lines(a) + other_lines(b),
        of_project(a + b, project) == of_project(a, project) + of_project(b, project),
    decreases b.len(),
{
    if b.len() == 0 {
        assert(a + b =~= a);
        assert(other_lines(a) + other_lines(b) =~= other_lines(a));
        assert(of_project(a, project) + of_project(b, project) =~= of_project(a, project));
    } else {
        lemma_events_add_up(a, b.drop_last(), branch, key, project);
        assert((a + b).drop_last() =~= a + b.drop_last());
        assert((a + b).last() == b.last());
        assert(other_lines(a + b) =~= other_lines(a) + other_lines(b));
        assert(of_project(a + b, project) =~= of_project(a, project) + of_project(b, project));
    }
}

/// A push counts for its branch, with its commits, and for nothing else.
pub proof fn lemma_one_push(e: EventView, branch: Seq<char>, key: CommentKey)
    requires
        e.action == Some("pushed to"@) || e.action == Some("pushed new"@) || e.action == Some(
            "pushed"@,
        ),
    ensures
        push_count(seq![e], branch) == if branch == (match e.branch {
            Some(name) => name,
            None => "(unknown)"@,
        }) {
            1nat
        } else {
            0nat
        },
        commit_total(seq![e], branch) == if branch == (match e.branch {
            Some(name) => name,
            None => "(unknown)"@,
        }) {
            match e.commits {
                Some(n) => n as nat,
                None => 0nat,
            }
        } else {
            0nat
        },
        comment_count(seq![e], key) == 0,
        other_lines(seq![e]).len() == 0,
{
    lemma_single(e, branch, key);
    lemma_push_is_no_comment(e);
}

proof fn lemma_single(e: EventView, branch: Seq<char>, key: CommentKey)
    ensures
        push_count(seq![e], branch) == if e.is_push() && e.push_branch() == branch {
            1nat
        } else {
            0nat
        },
        commit_total(seq![e], branch) == if e.is_push() && e.push_branch() == branch {
            e.push_commits()
        } else {
            0nat
        },
        comment_count(seq![e], key) == if e.is_comment() && e.comment_key() == key {
            1nat
        } else {
            0nat
        },
        other_lines(seq![e]) == if e.is_push() || e.is_comment() {
            seq![]
        } else {
            seq![e.other_line()]
        },
{
    let one = seq![e];
    let none = Seq::<EventView>::empty();
    assert(one.drop_last() =~= none);
    assert(push_count(none, branch) == 0);
    assert(commit_total(none, branch) == 0);
    assert(comment_count(none, key) == 0);
    assert(other_lines(none) =~= Seq::<LineView>::empty());
    assert(other_lines(one) =~= if e.is_push() || e.is_comment() {
        seq![]
    } else {
        seq![e.other_line()]
    });
}

/// A comment counts under the word for what it is on, the title of that, and the author
/// of the merge request, and under nothing else: two comments share a line only where all
/// three are the same, whether or not the author is known.
pub proof fn lemma_one_comment(e: EventView, branch: Seq<char>, key: CommentKey)
    requires
        e.action == Some("commented on"@),
    ensures
        push_count(seq![e], branch) == 0,
        commit_total(seq![e], branch) == 0,
        other_lines(seq![e]).len() == 0,
        comment_count(seq![e], key) == if key.title == (match e.target_title {
            Some(title) => title,
            None => ""@,
        }) && key.author == (match e.mr_author {
            Some(author) => author,
            None => ""@,
        }) && key.kind == target_word(
            match (e.noteable_type, e.target_type) {
                (Some(t), _) => t,
                (None, Some(t)) => t,
                (None, None) => ""@,
            },
        ) {
            1nat
        } else {
            0nat
        },
{
    lemma_single(e, branch, key);
    lemma_push_is_no_comment(e);
}

/// The words for what an event is on.
pub proof fn lemma_target_words(t: Seq<char>)
    ensures
        target_word("MergeRequest"@) == "MR"@,
        target_word("Issue"@) == "issue"@,
        target_word("Note"@) == "note"@,
        target_word("DiffNote"@) == "note"@,
        target_word("DiscussionNote"@) == "note"@,
        target_word("Milestone"@) == "milestone"@,
        target_word("WikiPage"@) == "wiki"@,
        target_word("WikiPage::Meta"@) == "wiki"@,
        target_word("Commit"@) == "commit"@,
        !seq![
            "MergeRequest"@,
            "Issue"@,
            "Note"@,
            "DiffNote"@,
            "DiscussionNote"@,
            "Milestone"@,
            "WikiPage"@,
            "WikiPage::Meta"@,
            "Commit"@,
        ].contains(t) ==> target_word(t) == "item"@,
{
    reveal_strlit("MergeRequest");
    reveal_strlit("Issue");
    reveal_strlit("Note");
    reveal_strlit("DiffNote");
    reveal_strlit("DiscussionNote");
    reveal_strlit("Milestone");
    reveal_strlit("WikiPage");
    reveal_strlit("WikiPage::Meta");
    reveal_strlit("Commit");
    let all = seq![
        "MergeRequest"@,
        "Issue"@,
        "Note"@,
        "DiffNote"@,
        "DiscussionNote"@,
        "Milestone"@,
        "WikiPage"@,
        "WikiPage::Meta"@,
        "Commit"@,
    ];
    assert("MergeRequest"@.len() == 12);
    assert("Issue"@.len() == 5);
    assert("Note"@.len() == 4);
    assert("DiffNote"@.len() == 8 && "DiffNote"@[0] == 'D');
    assert("DiscussionNote"@.len() == 14 && "DiscussionNote"@[0] == 'D');
    assert("Milestone"@.len() == 9);
    assert("WikiPage"@.len() == 8 && "WikiPage"@[0] == 'W');
    assert("WikiPage::Meta"@.len() == 14 && "WikiPage::Meta"@[0] == 'W');
    assert("Commit"@.len() == 6);
    assert(all[0] == "MergeRequest"@ && all[1] == "Issue"@ && all[2] == "Note"@ && all[3]
        == "DiffNote"@ && all[4] == "DiscussionNote"@ && all[5] == "Milestone"@ && all[6]
        == "WikiPage"@ && all[7] == "WikiPage::Meta"@ && all[8] == "Commit"@);
}

/// The line of an event that is neither a push nor a comment says what was done, to what,
/// and whose merge request that was.
pub proof fn lemma_one_other(e: EventView, action: Seq<char>)
    requires
        match e.action {
            Some(a) => action == a,
            None => action == ""@,
        },
        action != "pushed to"@ && action != "pushed new"@ && action != "pushed"@,
        action != "commented on"@,
    ensures
        ({
            let title = match e.target_title {
                Some(title) => title,
                None => ""@,
            };
            let word = target_word(
                match e.target_type {
                    Some(t) => t,
                    None => ""@,
                },
            );
            let by = match e.mr_author {
                Some(author) => " (by "@ + author + ")"@,
                None => ""@,
            };
            let line = other_lines(seq![e])[0];
            &&& other_lines(seq![e]).len() == 1
            &&& action == "opened"@ ==> line.icon == ICON_OPEN@ && line.text == "Opened "@ + word
                + ": "@ + title + by
            &&& action == "closed"@ ==> line.icon == ICON_CLOSE@ && line.text == "Closed "@ + word
                + ": "@ + title + by
            &&& action == "merged"@ || action == "accepted"@ ==> line.icon == ICON_MERGE@
                && line.text == "Merged MR: "@ + title + by
            &&& action == "approved"@ ==> line.icon == ICON_APPROVE@ && line.text == "Approved: "@
                + title + by
            &&& action != "opened"@ && action != "closed"@ && action != "merged"@ && action
                != "accepted"@ && action != "approved"@ ==> {
                &&& line.icon == ICON_OTHER@
                &&& title.len() == 0 ==> line.text == action
                &&& title.len() > 0 ==> line.text == action + ": "@ + title
            }
        }),
{
    let key = CommentKey { kind: seq![], title: seq![], author: seq![] };
    lemma_single(e, seq![], key);
    reveal_strlit("opened");
    reveal_strlit("closed");
    reveal_strlit("merged");
    reveal_strlit("accepted");
    reveal_strlit("approved");
    assert("opened"@[0] == 'o' && "closed"@[0] == 'c' && "merged"@[0] == 'm' && "accepted"@[1] == 'c'
        && "approved"@[1] == 'p' && "accepted"@[0] == 'a' && "approved"@[0] == 'a');
}

/// The groups are those of the projects. The lines of a group are one for each branch that
/// was pushed to, then one for each target of comments, then one for each other event, in
/// that order.
pub proof fn lemma_summary_lines(events: Seq<EventView>, g: int)
    requires
        0 <= g < projects(events).len(),
    ensures
        summary(events).len() == projects(events).len(),
        summary(events)[g].project == projects(events)[g],
        ({
            let mine = of_project(events, projects(events)[g]);
            let lines = summary(events)[g].lines;
            let b = branches(mine);
            let c = comment_keys(mine);
            let o = other_lines(mine);
            &&& lines.len() == b.len() + c.len() + o.len()
            &&& forall|i: int|
                0 <= i < b.len() ==> (#[trigger] lines[i]).icon == ICON_PUSH@ && lines[i].text
                    == b[i] + push_suffix(push_count(mine, b[i]), commit_total(mine, b[i]))
            &&& forall|i: int|
                b.len() <= i < b.len() + c.len() ==> (#[trigger] lines[i]).icon == ICON_COMMENT@
                    && lines[i].text == comment_line(
                    c[i - b.len()],
                    comment_count(mine, c[i - b.len()]),
                ).text
            &&& forall|i: int|
                b.len() + c.len() <= i < lines.len() ==> #[trigger] lines[i] == o[i - b.len()
                    - c.len()]
        }),
{
    let mine = of_project(events, projects(events)[g]);
    let lines = summary(events)[g].lines;
    let b = branches(mine);
    let c = comment_keys(mine);
    assert forall|i: int| b.len() <= i < b.len() + c.len() implies (#[trigger] lines[i]).icon
        == ICON_COMMENT@ && lines[i].text == comment_line(
        c[i - b.len()],
        comment_count(mine, c[i - b.len()]),
    ).text by {
        let key = c[i - b.len()];
        let n = comment_count(mine, key);
        assert(lines[i] == comment_line(key, n));
        lemma_comment_text(key, n);
    }
}

spec fn comment_text(key: CommentKey, n: nat) -> Seq<char> {
    let titled = if key.title.len() > 0 {
        ": "@ + key.title
    } else {
        seq![]
    };
    let by = if key.author.len() > 0 {
        " (by "@ + key.author + ")"@
    } else {
        seq![]
    };
    let times = if n > 1 {
        " ("@ + text::decimal(n) + " comments)"@
    } else {
        seq![]
    };
    "Commented on "@ + key.kind + titled + by + times
}

proof fn lemma_comment_text(key: CommentKey, n: nat)
    ensures
        comment_line(key, n).icon == ICON_COMMENT@,
        comment_line(key, n).text == comment_text(key, n),
{
    reveal_strlit("");
    assert(comment_line(key, n).text =~= comment_text(key, n));
}

/// A line of comments on something with a title names that title behind a colon, and it
/// says what the comments are on first.
pub proof fn lemma_comment_names_title(key: CommentKey, n: nat)
    ensures
        ({
            let s = comment_line(key, n).text;
            let start = "Commented on "@ + key.kind + ": "@ + key.title;
            &&& key.title.len() > 0 ==> start.is_prefix_of(s)
            &&& ("Commented on "@ + key.kind).is_prefix_of(s)
            &&& n <= 1 && key.author.len() == 0 && key.title.len() > 0 ==> s == start
            &&& n <= 1 && key.author.len() > 0 && key.title.len() > 0 ==> s == start + " (by "@
                + key.author + ")"@
            &&& n <= 1 && key.author.len() > 0 && key.title.len() == 0 ==> s == "Commented on "@
                + key.kind + " (by "@ + key.author + ")"@
            &&& n <= 1 && key.author.len() == 0 && key.title.len() == 0 ==> s == "Commented on "@
                + key.kind
            &&& n > 1 ==> s == comment_line(key, 1).text + " ("@ + text::decimal(n) + " comments)"@
            &&& n > 1 ==> " comments)"@ == s.skip(s.len() - " comments)"@.len())
        }),
{
    reveal_strlit("");
    reveal_strlit(" comments)");
    reveal_strlit(": ");
    reveal_strlit(" (by ");
    reveal_strlit(")");
    let s = comment_line(key, n).text;
    let head = "Commented on "@ + key.kind;
    let start = head + ": "@ + key.title;
    lemma_comment_text(key, n);
    assert(s.subrange(0, head.len() as int) =~= head);
    if key.title.len() > 0 {
        assert(s.subrange(0, start.len() as int) =~= start);
    }
    lemma_comment_text(key, 1);
    if n > 1 {
        assert(s =~= comment_line(key, 1).text + " ("@ + text::decimal(n) + " comments)"@);
    } else if key.title.len() > 0 {
        if key.author.len() > 0 {
            assert(s =~= start + " (by "@ + key.author + ")"@);
        } else {
            assert(s =~= start);
        }
    } else {
        if key.author.len() > 0 {
            assert(s =~= head + " (by "@ + key.author + ")"@);
        } else {
            assert(s =~= head);
        }
    }
    if n > 1 {
        assert(s.skip(s.len() - " comments)"@.len()) =~= " comments)"@);
    }
}

/// Behind a branch stands how often it was pushed to where that is more than once, and how
/// many commits there were where there were any.
pub proof fn lemma_push_suffix(p: nat, c: nat)
    requires
        p > 0,
    ensures
        p == 1 && c == 0 ==> push_suffix(p, c).len() == 0,
        p == 1 && c == 1 ==> push_suffix(p, c) == " (1 commit)"@,
        p == 1 && c > 1 ==> push_suffix(p, c) == " ("@ + text::decimal(c) + " commits)"@,
        p > 1 && c == 0 ==> push_suffix(p, c) == " ("@ + text::decimal(p) + " pushes)"@,
        p > 1 && c == 1 ==> push_suffix(p, c) == " ("@ + text::decimal(p) + " pushes, 1 commit)"@,
        p > 1 && c > 1 ==> push_suffix(p, c) == " ("@ + text::decimal(p) + " pushes, "@
            + text::decimal(c) + " commits)"@,
{
    reveal_strlit("");
    reveal_strlit("s");
    reveal_strlit("es");
    reveal_strlit(" (");
    reveal_strlit(")");
    reveal_strlit(", ");
    reveal_strlit(" commit");
    reveal_strlit(" commits)");
    reveal_strlit(" push");
    reveal_strlit(" pushes)");
    reveal_strlit(" pushes, ");
    reveal_strlit(" pushes, 1 commit)");
    reveal_strlit(" (1 commit)");
    assert(text::decimal(1) =~= seq!['1']);
    let (x, y) = (text::decimal(p), text::decimal(c));
    if p == 1 && c == 1 {
        assert(push_suffix(p, c) =~= " (1 commit)"@);
    } else if p == 1 && c > 1 {
        assert(push_suffix(p, c) =~= " ("@ + y + " commits)"@);
    } else if p > 1 && c == 0 {
        assert(push_suffix(p, c) =~= " ("@ + x + " pushes)"@);
    } else if p > 1 && c == 1 {
        assert(push_suffix(p, c) =~= " ("@ + x + " pushes, 1 commit)"@);
    } else if p > 1 && c > 1 {
        assert(push_suffix(p, c) =~= " ("@ + x + " pushes, "@ + y + " commits)"@);
    }
}

/// The events of a project are just those that name it, and they come as they came.
pub proof fn lemma_of_project(events: Seq<EventView>, p: Seq<char>)
    ensures
        of_project(events, p) == events.filter(|e: EventView| e.project() == p),
    decreases events.len(),
{
    reveal(Seq::filter);
    let mine = |e: EventView| e.project() == p;
    if events.len() == 0 {
        assert(of_project(events, p) =~= events.filter(mine));
    } else {
        lemma_of_project(events.drop_last(), p);
        assert(of_project(events, p) =~= events.filter(mine));
    }
}

/// A project goes by the last part of its path; where the name is not known by its number,
/// and else by a question mark.
pub proof fn lemma_project_name(e: EventView)
    ensures
        e.project_name matches Some(path) ==> {
            &&& !e.project().contains('/')
            &&& e.project().len() <= path.len()
            &&& path.skip(path.len() - e.project().len()) == e.project()
            &&& e.project().len() < path.len() ==> path[path.len() - e.project().len() - 1] == '/'
        },
        e.project_name is None && e.project_id is Some ==> e.project() == "#"@ + text::decimal(
            e.project_id->0 as nat,
        ),
        e.project_name is None && e.project_id is None ==> e.project() == "?"@,
{
    if let Some(path) = e.project_name {
        lemma_last_part(path);
    }
}

proof fn lemma_last_part(path: Seq<char>)
    ensures
        ({
            let part = after_last_slash(path);
            &&& !part.contains('/')
            &&& part.len() <= path.len()
            &&& path.skip(path.len() - part.len()) == part
            &&& part.len() < path.len() ==> path[path.len() - part.len() - 1] == '/'
        }),
    decreases path.len(),
{
    let part = after_last_slash(path);
    if path.len() > 0 && path.contains('/') {
        let rest = path.drop_first();
        lemma_last_part(rest);
        assert(path.skip(path.len() - part.len()) =~= part);
        if part.len() < rest.len() {
            assert(rest[rest.len() - part.len() - 1] == path[path.len() - part.len() - 1]);
        } else {
            assert(part =~= rest);
            let i = choose|i: int| 0 <= i < path.len() && path[i] == '/';
            if i > 0 {
                assert(rest[i - 1] == '/');
            }
        }
    } else {
        assert(path.skip(0) =~= path);
    }
}

/// The fields of an event are the members of these names of its JSON object.
pub proof fn lemma_event_fields(v: RawEvent)
    ensures
        ({
            let e = event_of(v);
            let s = json::json_strings(v);
            let n = json::json_numbers(v);
            &&& e.action is Some == s.contains_key("/action_name"@)
            &&& e.action matches Some(x) ==> x == s["/action_name"@]
            &&& e.target_type is Some == s.contains_key("/target_type"@)
            &&& e.target_type matches Some(x) ==> x == s["/target_type"@]
            &&& e.target_title is Some == s.contains_key("/target_title"@)
            &&& e.target_title matches Some(x) ==> x == s["/target_title"@]
            &&& e.project_name is Some == s.contains_key("/_project_name"@)
            &&& e.project_name matches Some(x) ==> x == s["/_project_name"@]
            &&& e.project_id is Some == n.contains_key("/project_id"@)
            &&& e.project_id matches Some(x) ==> x == n["/project_id"@]
            &&& e.branch is Some == s.contains_key("/push_data/ref"@)
            &&& e.branch matches Some(x) ==> x == s["/push_data/ref"@]
            &&& e.commits is Some == n.contains_key("/push_data/commit_count"@)
            &&& e.commits matches Some(x) ==> x == n["/push_data/commit_count"@]
            &&& e.noteable_type is Some == s.contains_key("/note/noteable_type"@)
            &&& e.noteable_type matches Some(x) ==> x == s["/note/noteable_type"@]
            &&& e.mr_author is Some == s.contains_key("/_mr_author_username"@)
            &&& e.mr_author matches Some(x) ==> x == s["/_mr_author_username"@]
        }),
{
}

/// The targets of comments stand in the order in which they were first commented on:
/// what comes later adds behind those that are there.
pub proof fn lemma_comments_as_they_came(a: Seq<EventView>, b: Seq<EventView>)
    ensures
        comment_keys(a).is_prefix_of(comment_keys(a + b)),
    decreases b.len(),
{
    let keys = comment_keys(a);
    if b.len() == 0 {
        assert(a + b =~= a);
        assert(keys.subrange(0, keys.len() as int) =~= keys);
    } else {
        lemma_comments_as_they_came(a, b.drop_last());
        assert((a + b).drop_last() =~= a + b.drop_last());
        let before = comment_keys(a + b.drop_last());
        let all = comment_keys(a + b);
        assert(keys =~= before.subrange(0, keys.len() as int));
        assert(all.subrange(0, keys.len() as int) =~= keys);
    }
}

/// The glyphs in front of the lines.
pub proof fn lemma_icons()
    ensures
        ICON_PUSH@ == "\u{f126}"@,
        ICON_COMMENT@ == "\u{f075}"@,
        ICON_APPROVE@ == "\u{f00c}"@,
        ICON_OPEN@ == "\u{f067}"@,
        ICON_MERGE@ == "\u{f407}"@,
        ICON_CLOSE@ == "\u{f00d}"@,
        ICON_OTHER@ == "\u{f129}"@,
{
}

/// The word for what a comment is on, and the title and the author that it counts under.
pub open spec fn commented(e: EventView) -> (Seq<char>, Seq<char>, Seq<char>) {
    (
        target_word(
            match (e.noteable_type, e.target_type) {
                (Some(t), _) => t,
                (None, Some(t)) => t,
                (None, None) => ""@,
            },
        ),
        match e.target_title {
            Some(title) => title,
            None => ""@,
        },
        match e.mr_author {
            Some(author) => author,
            None => ""@,
        },
    )
}

/// Two comments share a line just where they are on the same kind of thing, under the same
/// title and of the same author; else each has a line of its own, the first first.
pub proof fn lemma_two_comments(e: EventView, f: EventView)
    requires
        e.action == Some("commented on"@),
        f.action == Some("commented on"@),
    ensures
        commented(e) == commented(f) ==> comment_lines(seq![e, f]).len() == 1,
        commented(e) != commented(f) ==> {
            let lines = comment_lines(seq![e, f]);
            &&& lines.len() == 2
            &&& commented(e).1.len() > 0 ==> ("Commented on "@ + commented(e).0 + ": "@ + commented(
                e,
            ).1).is_prefix_of(lines[0].text)
            &&& commented(f).1.len() > 0 ==> ("Commented on "@ + commented(f).0 + ": "@ + commented(
                f,
            ).1).is_prefix_of(lines[1].text)
        },
{
    let two = seq![e, f];
    let one = seq![e];
    let none = Seq::<EventView>::empty();
    assert(two.drop_last() =~= one);
    assert(one.drop_last() =~= none);
    assert(comment_keys(none) =~= Seq::<CommentKey>::empty());
    assert(comment_keys(one) =~= seq![e.comment_key()]);
    assert(seq![e.comment_key()].contains(e.comment_key())) by {
        assert(seq![e.comment_key()][0] == e.comment_key());
    }
    if commented(e) == commented(f) {
        assert(e.comment_key() == f.comment_key());
    } else {
        assert(e.comment_key() != f.comment_key());
        assert(!comment_keys(one).contains(f.comment_key()));
        assert(comment_keys(two) =~= seq![e.comment_key(), f.comment_key()]);
        lemma_comment_names_title(e.comment_key(), comment_count(two, e.comment_key()));
        lemma_comment_names_title(f.comment_key(), comment_count(two, f.comment_key()));
    }
}

/// Every comment on something with a title is shown: in the group of its project stands a
/// line that says what it is on and names the title, whether or not the author is known.
pub proof fn lemma_comment_is_shown(events: Seq<EventView>, i: int)
    requires
        0 <= i < events.len(),
        events[i].action == Some("commented on"@),
        commented(events[i]).1.len() > 0,
    ensures
        exists|g: int, l: int|
            0 <= g < summary(events).len() && summary(events)[g].project == events[i].project() && 0
                <= l < summary(events)[g].lines.len() && ("Commented on "@ + commented(events[i]).0
                + ": "@ + commented(events[i]).1).is_prefix_of(
                (#[trigger] summary(events)[g].lines[l]).text,
            ),
{
    let e = events[i];
    let p = e.project();
    let key = e.comment_key();
    let mine = of_project(events, p);
    lemma_events_add_up(events.take(i), events.skip(i), seq![], key, p);
    lemma_events_add_up(seq![e], events.skip(i + 1), seq![], key, p);
    assert(events.take(i) + events.skip(i) =~= events);
    assert(seq![e] + events.skip(i + 1) =~= events.skip(i));
    let a = of_project(events.take(i), p);
    let b = of_project(events.skip(i + 1), p);
    assert(of_project(seq![e], p) =~= seq![e]) by {
        assert(seq![e].drop_last() =~= Seq::<EventView>::empty());
        assert(of_project(Seq::<EventView>::empty(), p) =~= Seq::<EventView>::empty());
    }
    assert(mine =~= a + (seq![e] + b));
    lemma_events_add_up(a, seq![e] + b, seq![], key, p);
    lemma_events_add_up(seq![e], b, seq![], key, p);
    lemma_one_comment(e, seq![], key);
    assert(comment_count(mine, key) > 0);
    lemma_line_where_counted(mine, seq![], key);
    lemma_group_where_events(events, p);
    let g = choose|g: int| 0 <= g < projects(events).len() && projects(events)[g] == p;
    let k = choose|k: int| 0 <= k < comment_keys(mine).len() && comment_keys(mine)[k] == key;
    lemma_summary_lines(events, g);
    let l = branches(mine).len() + k;
    let n = comment_count(mine, key);
    assert(summary(events)[g].lines[l].text == comment_line(key, n).text);
    lemma_comment_names_title(key, n);
}

/// What [`summarise`] returns is the summary of what the events say, one group for each of
/// their projects, in the order of their names.
pub proof fn lemma_summarise(events: &[RawEvent], r: Vec<ProjectGroup>, i: int)
    requires
        call_ensures(summarise, (events,), r),
        0 <= i < r@.len(),
    ensures
        r@[i].project@ == projects(events_of(events@))[i],
        r@[i]@ == summary(events_of(events@))[i],
        r@.len() == projects(events_of(events@)).len(),
        forall|j: int| #![trigger r@[j]] i < j < r@.len() ==> text::text_before(
            r@[i].project@,
            r@[j].project@,
        ),
{
    let views = events_of(events@);
    assert(group_views(r@)[i] == r@[i]@);
    assert(group_views(r@).len() == r@.len());
    lemma_projects_in_order(views);
    assert forall|j: int| #![trigger r@[j]] i < j < r@.len() implies text::text_before(
        r@[i].project@,
        r@[j].project@,
    ) by {
        assert(group_views(r@)[j] == r@[j]@);
        assert(text::text_before(projects(views)[i], projects(views)[j]));
    }
}

/// The endings of counted words: none for one, an `s` or an `es` for any other count.
pub proof fn lemma_plurals(n: u64, s: &'static str, es: &'static str)
    requires
        call_ensures(plural, (n,), s),
        call_ensures(plural_es, (n,), es),
    ensures
        n == 1 ==> s@.len() == 0 && es@.len() == 0,
        n != 1 ==> s@ == seq!['s'] && es@ == seq!['e', 's'],
{
    reveal_strlit("");
    reveal_strlit("s");
    reveal_strlit("es");
    assert("s"@ =~= seq!['s']);
    assert("es"@ =~= seq!['e', 's']);
}

} // verus!
