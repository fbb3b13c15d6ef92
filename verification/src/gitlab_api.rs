//! What a GitLab client asks for, and what it makes of the answers.

use crate::date;
use crate::date::Date;
use crate::gitlab;
use crate::gitlab::RawEvent;
use crate::json;
use crate::text;
use serde_json::Value;
use std::collections::HashMap;
use vstd::prelude::*;

verus! {

broadcast use vstd::std_specs::hash::group_hash_axioms;

// ---------------------------------------------------------------------------
// Addresses
// ---------------------------------------------------------------------------

/// `s` without the slashes at its end.
pub open spec fn without_slashes(s: Seq<char>) -> Seq<char>
    decreases s.len(),
{
    if s.len() > 0 && s.last() == '/' {
        without_slashes(s.drop_last())
    } else {
        s
    }
}

/// The address of an instance as requests use it.
pub open spec fn base_url(input: Seq<char>) -> Seq<char> {
    let stripped = without_slashes(text::trimmed(input));
    if "http://"@.is_prefix_of(stripped) || "https://"@.is_prefix_of(stripped) {
        stripped
    } else {
        "https://"@ + stripped
    }
}

proof fn lemma_without_slashes(s: Seq<char>, n: int)
    requires
        0 <= n <= s.len(),
        forall|i: int| n <= i < s.len() ==> #[trigger] s[i] == '/',
        n > 0 ==> s[n - 1] != '/',
    ensures
        without_slashes(s) == s.subrange(0, n),
    decreases s.len(),
{
    if n < s.len() {
        lemma_without_slashes(s.drop_last(), n);
        assert(s.drop_last().subrange(0, n) == s.subrange(0, n));
    } else {
        assert(s.subrange(0, n) == s);
    }
}

/// The address of an instance: no white space around it, no slashes at its end,
/// `https://` in front where no scheme is given.
pub fn normalize_base_url(input: &str) -> (r: String)
    ensures
        r@ == base_url(input@),
{
    let t = text::trim(input);
    let cs = text::chars_of(t);
    let mut n: usize = cs.len();
    while n > 0 && cs[n - 1] == '/'
        invariant
            n <= cs.len(),
            forall|i: int| n <= i < cs.len() ==> #[trigger] cs@[i] == '/',
        decreases n,
    {
        n -= 1;
    }
    proof {
        lemma_without_slashes(cs@, n as int);
    }
    let stripped = t.substring_char(0, n);
    if text::starts_with(stripped, "http://") || text::starts_with(stripped, "https://") {
        stripped.to_owned()
    } else {
        let mut out = "https://".to_owned();
        out.append(stripped);
        out
    }
}

proof fn lemma_without_slashes_end(s: Seq<char>)
    ensures
        without_slashes(s).len() > 0 ==> without_slashes(s).last() != '/',
    decreases s.len(),
{
    if s.len() > 0 && s.last() == '/' {
        lemma_without_slashes_end(s.drop_last());
    }
}

/// A base address always names its scheme, and never ends in a slash unless the
/// input had nothing but slashes and white space.
pub proof fn lemma_base_url_shape(input: Seq<char>)
    ensures
        "http://"@.is_prefix_of(base_url(input)) || "https://"@.is_prefix_of(base_url(input)),
        without_slashes(text::trimmed(input)).len() > 0 ==> base_url(input).last() != '/',
{
    let s = without_slashes(text::trimmed(input));
    lemma_without_slashes_end(text::trimmed(input));
    if !("http://"@.is_prefix_of(s) || "https://"@.is_prefix_of(s)) {
        let b = "https://"@ + s;
        assert(b.subrange(0, "https://"@.len() as int) =~= "https://"@);
        if s.len() > 0 {
            assert(b.last() == s.last());
        }
    }
}

/// Where the account called `username` is looked up.
pub fn users_url(base: &str, username: &str) -> (r: String)
    ensures
        r@ == base@ + "/api/v4/users?username="@ + username@,
{
    let mut out = base.to_owned();
    out.append("/api/v4/users?username=");
    out.append(username);
    out
}

/// The address of one page of the events of `user_id` strictly between two
/// days.
pub open spec fn events_address(
    base: Seq<char>,
    user_id: nat,
    after: i32,
    before: i32,
    page: nat,
) -> Seq<char> {
    base + "/api/v4/users/"@ + text::decimal(user_id) + "/events?after="@ + date::day_iso(after)
        + "&before="@ + date::day_iso(before) + "&per_page=100&page="@ + text::decimal(page)
}

/// Where one page of the events of `user_id` strictly between `after` and
/// `before` is.
pub fn events_url(base: &str, user_id: u64, after: Date, before: Date, page: u32) -> (r: String)
    ensures
        r@ == events_address(base@, user_id as nat, after@, before@, page as nat),
{
    let mut out = base.to_owned();
    out.append("/api/v4/users/");
    out.append(text::to_decimal(user_id).as_str());
    out.append("/events?after=");
    out.append(after.iso().as_str());
    out.append("&before=");
    out.append(before.iso().as_str());
    out.append("&per_page=100&page=");
    out.append(text::to_decimal(page as u64).as_str());
    out
}

/// Where project `project_id` is.
pub fn project_url(base: &str, project_id: u64) -> (r: String)
    ensures
        r@ == base@ + "/api/v4/projects/"@ + text::decimal(project_id as nat),
{
    let mut out = base.to_owned();
    out.append("/api/v4/projects/");
    out.append(text::to_decimal(project_id).as_str());
    out
}

/// Where merge request `iid` of project `project_id` is.
pub fn merge_request_url(base: &str, project_id: u64, iid: u64) -> (r: String)
    ensures
        r@ == base@ + "/api/v4/projects/"@ + text::decimal(project_id as nat) + "/merge_requests/"@
            + text::decimal(iid as nat),
{
    let mut out = base.to_owned();
    out.append("/api/v4/projects/");
    out.append(text::to_decimal(project_id).as_str());
    out.append("/merge_requests/");
    out.append(text::to_decimal(iid).as_str());
    out
}

// ---------------------------------------------------------------------------
// Paging through a day
// ---------------------------------------------------------------------------

/// The days to pass as `after` and `before` for the events of `day`: both are
/// exclusive. At the ends of the calendar the day itself takes the place of a
/// neighbour that does not exist.
pub fn event_window(day: Date) -> (r: (Date, Date))
    ensures
        r.0@ == if day@ > date::MIN_DAY {
            day@ - 1
        } else {
            day@ as int
        },
        r.1@ == if day@ < date::MAX_DAY {
            day@ + 1
        } else {
            day@ as int
        },
{
    let after = match day.pred() {
        Some(d) => d,
        None => day,
    };
    let before = match day.succ() {
        Some(d) => d,
        None => day,
    };
    (after, before)
}

/// How many events a full page holds.
pub const PAGE_SIZE: usize = 100;

/// The last page that is asked for.
pub const LAST_PAGE: u32 = 20;

/// Which page of a day is being fetched.
#[derive(Debug, Clone, Copy)]
pub struct Paging {
    page: u32,
}

impl View for Paging {
    type V = u32;

    closed spec fn view(&self) -> u32 {
        self.page
    }
}

impl Paging {
    #[verifier::type_invariant]
    spec fn valid(self) -> bool {
        1 <= self.page <= LAST_PAGE
    }

    /// Fetching starts with the first page.
    pub fn start() -> (r: Self)
        ensures
            r@ == 1,
    {
        Paging { page: 1 }
    }

    /// The page to fetch.
    pub fn page(self) -> (r: u32)
        ensures
            r == self@,
            1 <= r <= LAST_PAGE,
    {
        proof {
            use_type_invariant(&self);
        }
        self.page
    }

    /// What to fetch after the page held `got` events: the next page after a
    /// full one, up to the last page; nothing otherwise.
    pub fn next(self, got: usize) -> (r: Option<Paging>)
        ensures
            r is Some == (got >= PAGE_SIZE && self@ < LAST_PAGE),
            r matches Some(p) ==> p@ == self@ + 1,
    {
        proof {
            use_type_invariant(&self);
        }
        if got < PAGE_SIZE || self.page >= LAST_PAGE {
            None
        } else {
            Some(Paging { page: self.page + 1 })
        }
    }
}

// ---------------------------------------------------------------------------
// Answers
// ---------------------------------------------------------------------------

/// Why an answer was of no use.
#[derive(Debug, Clone, Copy, PartialEq, Eq)]
pub enum AnswerError {
    /// No account has that name.
    NoSuchUser,
    /// The project has no name.
    NoProjectName,
    /// The merge request has no author.
    NoAuthor,
}

impl AnswerError {
    /// The message for a failed lookup of user `username`, project `project_id`
    /// or merge request `iid`.
    pub open spec fn message_text(
        self,
        username: Seq<char>,
        project_id: nat,
        iid: nat,
    ) -> Seq<char> {
        match self {
            AnswerError::NoSuchUser => "no GitLab user matches '"@ + username + "'"@,
            AnswerError::NoProjectName => "project "@ + text::decimal(project_id)
                + " response missing name"@,
            AnswerError::NoAuthor => "MR "@ + text::decimal(project_id) + "!"@ + text::decimal(iid)
                + " response missing author username"@,
        }
    }

    /// The message to show.
    pub fn message(&self, username: &str, project_id: u64, iid: u64) -> (r: String)
        ensures
            r@ == self.message_text(username@, project_id as nat, iid as nat),
    {
        match self {
            AnswerError::NoSuchUser => {
                let mut out = "no GitLab user matches '".to_owned();
                out.append(username);
                out.append("'");
                out
            },
            AnswerError::NoProjectName => {
                let mut out = "project ".to_owned();
                out.append(text::to_decimal(project_id).as_str());
                out.append(" response missing name");
                out
            },
            AnswerError::NoAuthor => {
                let mut out = "MR ".to_owned();
                out.append(text::to_decimal(project_id).as_str());
                out.append("!");
                out.append(text::to_decimal(iid).as_str());
                out.append(" response missing author username");
                out
            },
        }
    }
}

/// The account that a lookup found: the first.
pub fn resolved_user(ids: &[u64]) -> (r: Result<u64, AnswerError>)
    ensures
        r == (if ids@.len() > 0 {
            Ok::<u64, AnswerError>(ids@[0])
        } else {
            Err(AnswerError::NoSuchUser)
        }),
{
    if ids.len() > 0 {
        Ok(ids[0])
    } else {
        Err(AnswerError::NoSuchUser)
    }
}

/// Where an answer about a project holds its name: the full path if it has
/// one, else the path, else the name.
pub open spec fn project_name_path(v: Value) -> Seq<char> {
    if json::json_paths(v).contains("/path_with_namespace"@) {
        "/path_with_namespace"@
    } else if json::json_paths(v).contains("/path"@) {
        "/path"@
    } else {
        "/name"@
    }
}

/// The name of a project, from the answer about it.
pub fn project_path(answer: &Value) -> (r: Result<String, AnswerError>)
    ensures
        match json::string_in(*answer, project_name_path(*answer)) {
            Some(name) => r matches Ok(s) && s@ == name,
            None => r == Err::<String, AnswerError>(AnswerError::NoProjectName),
        },
{
    let path = if json::has_path(answer, "/path_with_namespace") {
        "/path_with_namespace"
    } else if json::has_path(answer, "/path") {
        "/path"
    } else {
        "/name"
    };
    match json::string_at(answer, path) {
        Some(name) => Ok(name),
        None => Err(AnswerError::NoProjectName),
    }
}

/// The author of a merge request, from the answer about it.
pub fn mr_author(answer: &Value) -> (r: Result<String, AnswerError>)
    ensures
        match json::string_in(*answer, "/author/username"@) {
            Some(name) => r matches Ok(s) && s@ == name,
            None => r == Err::<String, AnswerError>(AnswerError::NoAuthor),
        },
{
    match json::string_at(answer, "/author/username") {
        Some(name) => Ok(name),
        None => Err(AnswerError::NoAuthor),
    }
}

// ---------------------------------------------------------------------------
// Names and authors, looked up once
// ---------------------------------------------------------------------------

/// The merge request that an event is about, as project and number: its target,
/// or what its note is on.
pub open spec fn mr_ref(v: RawEvent) -> Option<(u64, u64)> {
    match json::number_in(v, "/project_id"@) {
        None => None,
        Some(project_id) => {
            let target = if json::string_in(v, "/target_type"@) == Some("MergeRequest"@) {
                json::number_in(v, "/target_iid"@)
            } else {
                None
            };
            let noted = if json::string_in(v, "/note/noteable_type"@) == Some("MergeRequest"@) {
                json::number_in(v, "/note/noteable_iid"@)
            } else {
                None
            };
            match (target, noted) {
                (Some(iid), _) => Some((project_id, iid)),
                (None, Some(iid)) => Some((project_id, iid)),
                (None, None) => None,
            }
        },
    }
}

fn is_merge_request(o: &Option<String>) -> (r: bool)
    ensures
        r == (text::opt_text(*o) == Some("MergeRequest"@)),
{
    match o {
        Some(s) => text::same_text(s.as_str(), "MergeRequest"),
        None => false,
    }
}

/// The merge request that an event is about, as project and number.
pub fn event_mr_ref(ev: &RawEvent) -> (r: Option<(u64, u64)>)
    ensures
        r == mr_ref(*ev),
        r is Some ==> json::json_paths(*ev).contains("/project_id"@),
{
    let project_id: u64 = match json::number_at(ev, "/project_id") {
        Some(id) => id,
        None => {
            return None;
        },
    };
    let target_type = json::string_at(ev, "/target_type");
    if is_merge_request(&target_type) {
        if let Some(iid) = json::number_at(ev, "/target_iid") {
            return Some((project_id, iid));
        }
    }
    let noteable_type = json::string_at(ev, "/note/noteable_type");
    if is_merge_request(&noteable_type) {
        if let Some(iid) = json::number_at(ev, "/note/noteable_iid") {
            return Some((project_id, iid));
        }
    }
    None
}

/// The key of a merge request: project and number side by side.
pub open spec fn mr_key_of(mr: (u64, u64)) -> u128 {
    (mr.0 as int * 0x1_0000_0000_0000_0000 + mr.1) as u128
}

/// The key of a merge request.
pub fn mr_key(project_id: u64, iid: u64) -> (r: u128)
    ensures
        r == mr_key_of((project_id, iid)),
        r == project_id * 0x1_0000_0000_0000_0000 + iid,
{
    project_id as u128 * 0x1_0000_0000_0000_0000 + iid as u128
}

/// Different merge requests have different keys.
pub proof fn lemma_mr_key_injective(a: (u64, u64), b: (u64, u64))
    requires
        mr_key_of(a) == mr_key_of(b),
    ensures
        a == b,
{
}

/// What the project of an event is looked up under.
pub open spec fn project_key(v: RawEvent) -> Option<u64> {
    json::number_in(v, "/project_id"@)
}

/// What the merge request of an event is looked up under.
pub open spec fn author_key(v: RawEvent) -> Option<u128> {
    match mr_ref(v) {
        Some(mr) => Some(mr_key_of(mr)),
        None => None,
    }
}

/// Whether `new` is `old` with the string `text` at `key`, and otherwise as it
/// was.
pub open spec fn extended(old: Value, new: Value, key: Seq<char>, text: Seq<char>) -> bool {
    &&& forall|p: Seq<char>| #[trigger]
        json::json_paths(new).contains(p) == (p == json::member(key) || (json::json_paths(
            old,
        ).contains(p) && !json::within(json::member(key), p)))
    &&& forall|p: Seq<char>| #[trigger]
        json::string_in(new, p) == (if p == json::member(key) {
            Some(text)
        } else if json::within(json::member(key), p) {
            None
        } else {
            json::string_in(old, p)
        })
    &&& forall|p: Seq<char>| #[trigger]
        json::number_in(new, p) == (if json::within(json::member(key), p) {
            None
        } else {
            json::number_in(old, p)
        })
}

/// The field that the name of an event's project is put in.
pub const PROJECT_NAME_KEY: &'static str = "_project_name";

/// The field that the author of an event's merge request is put in.
pub const MR_AUTHOR_KEY: &'static str = "_mr_author_username";

/// Whether some event is about project `id`.
pub open spec fn mentions_project(events: Seq<RawEvent>, id: u64) -> bool {
    exists|i: int| 0 <= i < events.len() && project_key(#[trigger] events[i]) == Some(id)
}

/// Whether some event is about merge request `mr`.
pub open spec fn mentions_mr(events: Seq<RawEvent>, mr: (u64, u64)) -> bool {
    exists|i: int| 0 <= i < events.len() && mr_ref(#[trigger] events[i]) == Some(mr)
}

fn has_project(list: &Vec<u64>, id: u64) -> (r: bool)
    ensures
        r == list@.contains(id),
{
    let mut i: usize = 0;
    while i < list.len()
        invariant
            i <= list.len(),
            forall|j: int| 0 <= j < i ==> list@[j] != id,
        decreases list.len() - i,
    {
        if list[i] == id {
            assert(list@[i as int] == id);
            return true;
        }
        i += 1;
    }
    false
}

fn has_mr(list: &Vec<(u64, u64)>, mr: (u64, u64)) -> (r: bool)
    ensures
        r == list@.contains(mr),
{
    let mut i: usize = 0;
    while i < list.len()
        invariant
            i <= list.len(),
            forall|j: int| 0 <= j < i ==> list@[j] != mr,
        decreases list.len() - i,
    {
        if list[i].0 == mr.0 && list[i].1 == mr.1 {
            assert(list@[i as int] == mr);
            return true;
        }
        i += 1;
    }
    false
}

/// The projects of `events` that `names` has no name for, each once.
pub fn missing_projects(events: &[RawEvent], names: &HashMap<u64, String>) -> (r: Vec<u64>)
    ensures
        r@.no_duplicates(),
        forall|id: u64| #[trigger]
            r@.contains(id) == (mentions_project(events@, id) && !names@.contains_key(id)),
{
    let mut out: Vec<u64> = Vec::new();
    let mut i: usize = 0;
    while i < events.len()
        invariant
            i <= events.len(),
            out@.no_duplicates(),
            forall|id: u64| #[trigger]
                out@.contains(id) == (mentions_project(events@.take(i as int), id)
                    && !names@.contains_key(id)),
        decreases events.len() - i,
    {
        let ghost before = out@;
        let ghost seen = events@.take(i as int);
        let ghost now = events@.take(i + 1);
        let key = json::number_at(&events[i], "/project_id");
        proof {
            assert forall|id: u64| #[trigger] mentions_project(now, id) == (mentions_project(
                seen,
                id,
            ) || key == Some(id)) by {
                assert(now[i as int] == events@[i as int]);
                if mentions_project(now, id) {
                    let k = choose|k: int| 0 <= k < now.len() && project_key(now[k]) == Some(id);
                    if k < i {
                        assert(seen[k] == now[k]);
                    }
                }
                if mentions_project(seen, id) {
                    let k = choose|k: int| 0 <= k < seen.len() && project_key(seen[k]) == Some(id);
                    assert(now[k] == seen[k]);
                }
            }
        }
        if let Some(id) = key {
            if !names.contains_key(&id) && !has_project(&out, id) {
                out.push(id);
                proof {
                    assert forall|x: u64| #[trigger] out@.contains(x) == (before.contains(x) || x
                        == id) by {
                        if before.contains(x) {
                            let k = choose|k: int| 0 <= k < before.len() && before[k] == x;
                            assert(out@[k] == x);
                        }
                        assert(out@[before.len() as int] == id);
                    }
                }
            }
        }
        i += 1;
    }
    assert(events@.take(i as int) == events@);
    out
}

/// The merge requests of `events` that `authors` has no author for, each once.
pub fn missing_mr_authors(events: &[RawEvent], authors: &HashMap<u128, String>) -> (r: Vec<
    (u64, u64),
>)
    ensures
        r@.no_duplicates(),
        forall|mr: (u64, u64)| #[trigger]
            r@.contains(mr) == (mentions_mr(events@, mr) && !authors@.contains_key(mr_key_of(mr))),
{
    let mut out: Vec<(u64, u64)> = Vec::new();
    let mut i: usize = 0;
    while i < events.len()
        invariant
            i <= events.len(),
            out@.no_duplicates(),
            forall|mr: (u64, u64)| #[trigger]
                out@.contains(mr) == (mentions_mr(events@.take(i as int), mr)
                    && !authors@.contains_key(mr_key_of(mr))),
        decreases events.len() - i,
    {
        let ghost before = out@;
        let ghost seen = events@.take(i as int);
        let ghost now = events@.take(i + 1);
        let key = event_mr_ref(&events[i]);
        proof {
            assert forall|mr: (u64, u64)| #[trigger] mentions_mr(now, mr) == (mentions_mr(
                seen,
                mr,
            ) || key == Some(mr)) by {
                assert(now[i as int] == events@[i as int]);
                if mentions_mr(now, mr) {
                    let k = choose|k: int| 0 <= k < now.len() && mr_ref(now[k]) == Some(mr);
                    if k < i {
                        assert(seen[k] == now[k]);
                    }
                }
                if mentions_mr(seen, mr) {
                    let k = choose|k: int| 0 <= k < seen.len() && mr_ref(seen[k]) == Some(mr);
                    assert(now[k] == seen[k]);
                }
            }
        }
        if let Some(mr) = key {
            if !authors.contains_key(&mr_key(mr.0, mr.1)) && !has_mr(&out, mr) {
                out.push(mr);
                proof {
                    assert forall|x: (u64, u64)| #[trigger] out@.contains(x) == (before.contains(x)
                        || x == mr) by {
                        if before.contains(x) {
                            let k = choose|k: int| 0 <= k < before.len() && before[k] == x;
                            assert(out@[k] == x);
                        }
                        assert(out@[before.len() as int] == mr);
                    }
                }
            }
        }
        i += 1;
    }
    assert(events@.take(i as int) == events@);
    out
}

/// Whether `new` is `old` with the name of its project put in, where `names`
/// has one, and as it was otherwise.
pub open spec fn project_named(old: RawEvent, new: RawEvent, names: Map<u64, String>) -> bool {
    match project_key(old) {
        Some(id) if names.contains_key(id) => extended(old, new, PROJECT_NAME_KEY@, names[id]@),
        _ => new == old,
    }
}

/// Whether `new` is `old` with the author of its merge request put in, where
/// `authors` has one, and as it was otherwise.
pub open spec fn mr_authored(old: RawEvent, new: RawEvent, authors: Map<u128, String>) -> bool {
    match author_key(old) {
        Some(key) if authors.contains_key(key) => extended(old, new, MR_AUTHOR_KEY@, authors[key]@),
        _ => new == old,
    }
}

/// Puts the name of its project into each event whose project has one.
pub fn apply_project_names(events: &mut Vec<RawEvent>, names: &HashMap<u64, String>)
    ensures
        final(events)@.len() == old(events)@.len(),
        forall|i: int|
            0 <= i < old(events)@.len() ==> project_named(
                #[trigger] old(events)@[i],
                final(events)@[i],
                names@,
            ),
{
    proof {
        lemma_plain_keys();
    }
    let ghost before = events@;
    let mut i: usize = 0;
    while i < events.len()
        invariant
            i <= events.len(),
            events@.len() == before.len(),
            json::plain_key("project_id"@),
            json::plain_key(PROJECT_NAME_KEY@),
            json::member("project_id"@) == "/project_id"@,
            forall|j: int|
                0 <= j < i ==> project_named(#[trigger] before[j], events@[j], names@),
            forall|j: int| i <= j < before.len() ==> events@[j] == #[trigger] before[j],
        decreases before.len() - i,
    {
        if let Some(id) = json::number_at(&events[i], "/project_id") {
            if let Some(name) = names.get(&id) {
                let text = name.clone();
                assert(json::json_paths(events@[i as int]).contains(json::member("project_id"@)));
                json::set_string(&mut events[i], PROJECT_NAME_KEY, text.as_str());
            }
        }
        i += 1;
    }
}

/// Puts the author of its merge request into each event whose merge request has
/// one.
pub fn apply_mr_authors(events: &mut Vec<RawEvent>, authors: &HashMap<u128, String>)
    ensures
        final(events)@.len() == old(events)@.len(),
        forall|i: int|
            0 <= i < old(events)@.len() ==> mr_authored(
                #[trigger] old(events)@[i],
                final(events)@[i],
                authors@,
            ),
{
    proof {
        lemma_plain_keys();
    }
    let ghost before = events@;
    let mut i: usize = 0;
    while i < events.len()
        invariant
            i <= events.len(),
            events@.len() == before.len(),
            json::plain_key("project_id"@),
            json::plain_key(MR_AUTHOR_KEY@),
            json::member("project_id"@) == "/project_id"@,
            forall|j: int|
                0 <= j < i ==> mr_authored(#[trigger] before[j], events@[j], authors@),
            forall|j: int| i <= j < before.len() ==> events@[j] == #[trigger] before[j],
        decreases before.len() - i,
    {
        if let Some(mr) = event_mr_ref(&events[i]) {
            if let Some(name) = authors.get(&mr_key(mr.0, mr.1)) {
                let text = name.clone();
                assert(json::json_paths(events@[i as int]).contains(json::member("project_id"@)));
                json::set_string(&mut events[i], MR_AUTHOR_KEY, text.as_str());
            }
        }
        i += 1;
    }
}

proof fn lemma_plain_keys()
    ensures
        json::plain_key("project_id"@),
        json::plain_key(PROJECT_NAME_KEY@),
        json::plain_key(MR_AUTHOR_KEY@),
        json::member("project_id"@) == "/project_id"@,
{
    reveal_strlit("project_id");
    reveal_strlit("/project_id");
    reveal_strlit("_project_name");
    reveal_strlit("_mr_author_username");
    assert(json::member("project_id"@) =~= "/project_id"@);
}

proof fn lemma_apart(key: Seq<char>, path: Seq<char>)
    requires
        path.len() > 1,
        key.len() > 0,
        path[1] != key[0],
    ensures
        !json::within(json::member(key), path),
{
    let root = json::member(key);
    assert(root[1] == key[0]);
    if root.push('/').is_prefix_of(path) {
        assert(root.push('/')[1] == root[1]);
        assert(path[1] == root.push('/')[1]);
    }
}

/// Putting in a project's name changes how the event is summarised in that name
/// alone, and neither its project nor its merge request.
pub proof fn lemma_project_name_put_in(old: RawEvent, new: RawEvent, name: Seq<char>)
    requires
        extended(old, new, PROJECT_NAME_KEY@, name),
    ensures
        gitlab::event_of(new) == (gitlab::EventView {
            project_name: Some(name),
            ..gitlab::event_of(old)
        }),
        gitlab::event_of(new).project() == gitlab::after_last_slash(name),
        project_key(new) == project_key(old),
        mr_ref(new) == mr_ref(old),
{
    reveal_strlit("_project_name");
    reveal_strlit("/_project_name");
    reveal_strlit("_mr_author_username");
    reveal_strlit("/_mr_author_username");
    lemma_other_paths(PROJECT_NAME_KEY@);
    assert(json::member(PROJECT_NAME_KEY@) =~= "/_project_name"@);
    let root = json::member(PROJECT_NAME_KEY@);
    let path = "/_mr_author_username"@;
    assert(root[2] == 'p' && path[2] == 'm');
    if root.push('/').is_prefix_of(path) {
        assert(root.push('/')[2] == root[2]);
    }
    assert(!json::within(root, path));
}

/// Putting in a merge request's author changes how the event is summarised in
/// that author alone, and neither its project nor its merge request.
pub proof fn lemma_mr_author_put_in(old: RawEvent, new: RawEvent, author: Seq<char>)
    requires
        extended(old, new, MR_AUTHOR_KEY@, author),
    ensures
        gitlab::event_of(new) == (gitlab::EventView {
            mr_author: Some(author),
            ..gitlab::event_of(old)
        }),
        project_key(new) == project_key(old),
        mr_ref(new) == mr_ref(old),
{
    reveal_strlit("_project_name");
    reveal_strlit("/_project_name");
    reveal_strlit("_mr_author_username");
    reveal_strlit("/_mr_author_username");
    lemma_other_paths(MR_AUTHOR_KEY@);
    assert(json::member(MR_AUTHOR_KEY@) =~= "/_mr_author_username"@);
    let root = json::member(MR_AUTHOR_KEY@);
    let path = "/_project_name"@;
    assert(root[2] == 'm' && path[2] == 'p');
    if root.push('/').is_prefix_of(path) {
        assert(root.push('/')[2] == root[2]);
    }
    assert(!json::within(root, path));
}

proof fn lemma_other_paths(key: Seq<char>)
    requires
        key.len() > 0,
        key[0] == '_',
    ensures
        !json::within(json::member(key), "/action_name"@),
        !json::within(json::member(key), "/target_type"@),
        !json::within(json::member(key), "/target_title"@),
        !json::within(json::member(key), "/target_iid"@),
        !json::within(json::member(key), "/project_id"@),
        !json::within(json::member(key), "/push_data/ref"@),
        !json::within(json::member(key), "/push_data/commit_count"@),
        !json::within(json::member(key), "/note/noteable_type"@),
        !json::within(json::member(key), "/note/noteable_iid"@),
{
    reveal_strlit("/action_name");
    reveal_strlit("/target_type");
    reveal_strlit("/target_title");
    reveal_strlit("/target_iid");
    reveal_strlit("/project_id");
    reveal_strlit("/push_data/ref");
    reveal_strlit("/push_data/commit_count");
    reveal_strlit("/note/noteable_type");
    reveal_strlit("/note/noteable_iid");
    lemma_apart(key, "/action_name"@);
    lemma_apart(key, "/target_type"@);
    lemma_apart(key, "/target_title"@);
    lemma_apart(key, "/target_iid"@);
    lemma_apart(key, "/project_id"@);
    lemma_apart(key, "/push_data/ref"@);
    lemma_apart(key, "/push_data/commit_count"@);
    lemma_apart(key, "/note/noteable_type"@);
    lemma_apart(key, "/note/noteable_iid"@);
}

/// A base address is what was given, without white space and slashes around it: with
/// `https://` before it where it names no scheme, and else as it is.
pub proof fn lemma_base_url_keeps(input: Seq<char>)
    ensures
        ({
            let s = text::trimmed(input);
            let url = base_url(input);
            let bare = without_slashes(s);
            &&& bare.is_prefix_of(s)
            &&& forall|i: int| bare.len() <= i < s.len() ==> #[trigger] s[i] == '/'
            &&& bare.len() > 0 ==> bare.last() != '/'
            &&& url == bare || url == "https://"@ + bare
            &&& (url == bare) == ("http://"@.is_prefix_of(bare) || "https://"@.is_prefix_of(bare))
        }),
{
    let s = text::trimmed(input);
    let bare = without_slashes(s);
    lemma_without_slashes_end(s);
    lemma_slashes_taken(s);
    if base_url(input) != bare {
        reveal_strlit("https://");
        assert(("https://"@ + bare).len() > bare.len());
    } else if !("http://"@.is_prefix_of(bare) || "https://"@.is_prefix_of(bare)) {
        reveal_strlit("https://");
        assert(("https://"@ + bare).len() > bare.len());
    }
}

proof fn lemma_slashes_taken(s: Seq<char>)
    ensures
        without_slashes(s).len() <= s.len(),
        s.subrange(0, without_slashes(s).len() as int) == without_slashes(s),
        forall|i: int| without_slashes(s).len() <= i < s.len() ==> #[trigger] s[i] == '/',
    decreases s.len(),
{
    let bare = without_slashes(s);
    if s.len() > 0 && s.last() == '/' {
        let init = s.drop_last();
        lemma_slashes_taken(init);
        assert(s.subrange(0, bare.len() as int) =~= init.subrange(0, bare.len() as int));
        assert forall|i: int| bare.len() <= i < s.len() implies #[trigger] s[i] == '/' by {
            if i < init.len() {
                assert(init[i] == '/');
            }
        }
    } else {
        assert(s.subrange(0, s.len() as int) =~= s);
    }
}

/// An event is about a merge request where that is its target, or what its note is on, and
/// it has the numbers of the project and of the merge request; the target goes first.
pub proof fn lemma_merge_request_of(v: RawEvent)
    ensures
        ({
            let s = json::json_strings(v);
            let n = json::json_numbers(v);
            let targeted = s.contains_key("/target_type"@) && s["/target_type"@] == "MergeRequest"@
                && n.contains_key("/target_iid"@);
            let noted = s.contains_key("/note/noteable_type"@) && s["/note/noteable_type"@]
                == "MergeRequest"@ && n.contains_key("/note/noteable_iid"@);
            &&& mr_ref(v) is Some == (n.contains_key("/project_id"@) && (targeted || noted))
            &&& mr_ref(v) matches Some((project, iid)) ==> {
                &&& project == n["/project_id"@]
                &&& targeted ==> iid == n["/target_iid"@]
                &&& !targeted ==> iid == n["/note/noteable_iid"@]
            }
        }),
{
}

/// A project's name is taken from its full path where the answer has one, else from its path
/// where it has that, and else from its name.
pub proof fn lemma_project_name_path(v: Value)
    ensures
        json::json_paths(v).contains("/path_with_namespace"@) ==> project_name_path(v)
            == "/path_with_namespace"@,
        !json::json_paths(v).contains("/path_with_namespace"@) && json::json_paths(v).contains(
            "/path"@,
        ) ==> project_name_path(v) == "/path"@,
        !json::json_paths(v).contains("/path_with_namespace"@) && !json::json_paths(v).contains(
            "/path"@,
        ) ==> project_name_path(v) == "/name"@,
{
}

/// An event whose project has a name gets just that name, under the key that summaries read
/// it from; any other event stays as it is.
pub proof fn lemma_named_event(old: RawEvent, new: RawEvent, names: Map<u64, String>, id: u64)
    requires
        project_named(old, new, names),
    ensures
        json::json_numbers(old).contains_key("/project_id"@) && json::json_numbers(
            old,
        )["/project_id"@] == id && names.contains_key(id) ==> json::string_in(
            new,
            "/_project_name"@,
        ) == Some(names[id]@),
        json::json_numbers(old).contains_key("/project_id"@) && json::json_numbers(
            old,
        )["/project_id"@] == id && !names.contains_key(id) ==> new == old,
        !json::json_numbers(old).contains_key("/project_id"@) ==> new == old,
{
    reveal_strlit("_project_name");
    reveal_strlit("/_project_name");
    assert(json::member(PROJECT_NAME_KEY@) =~= "/_project_name"@);
}

/// An event whose merge request has a known author gets just that author, under the key that
/// summaries read it from; any other event stays as it is.
pub proof fn lemma_authored_event(
    old: RawEvent,
    new: RawEvent,
    authors: Map<u128, String>,
    mr: (u64, u64),
)
    requires
        mr_authored(old, new, authors),
    ensures
        ({
            let key = (mr.0 * 0x1_0000_0000_0000_0000 + mr.1) as u128;
            &&& mr_ref(old) == Some(mr) && authors.contains_key(key) ==> json::string_in(
                new,
                "/_mr_author_username"@,
            ) == Some(authors[key]@)
            &&& mr_ref(old) == Some(mr) && !authors.contains_key(key) ==> new == old
            &&& mr_ref(old) is None ==> new == old
        }),
{
    reveal_strlit("_mr_author_username");
    reveal_strlit("/_mr_author_username");
    assert(json::member(MR_AUTHOR_KEY@) =~= "/_mr_author_username"@);
}

/// The address of a page of events names the account, the two days and the page.
pub proof fn lemma_events_address(base: Seq<char>, user: nat, after: i32, before: i32, page: nat)
    ensures
        events_address(base, user, after, before, page) == base + ("/api/v4/users/"@
            + text::decimal(user) + "/events"@) + ("?after="@ + date::day_iso(after) + "&before="@
            + date::day_iso(before)) + ("&per_page=100"@ + "&page="@ + text::decimal(page)),
{
    reveal_strlit("/events?after=");
    reveal_strlit("/events");
    reveal_strlit("?after=");
    reveal_strlit("&per_page=100&page=");
    reveal_strlit("&per_page=100");
    reveal_strlit("&page=");
    assert("/events?after="@ =~= "/events"@ + "?after="@);
    assert("&per_page=100&page="@ =~= "&per_page=100"@ + "&page="@);
    assert(events_address(base, user, after, before, page) =~= base + ("/api/v4/users/"@
        + text::decimal(user) + "/events"@) + ("?after="@ + date::day_iso(after) + "&before="@
        + date::day_iso(before)) + ("&per_page=100"@ + "&page="@ + text::decimal(page)));
}

/// The addresses of what is asked for: each names what it is about, in this order.
pub proof fn lemma_addresses(
    base: &str,
    username: &str,
    id: u64,
    iid: u64,
    user: String,
    project: String,
    request: String,
)
    requires
        call_ensures(users_url, (base, username), user),
        call_ensures(project_url, (base, id), project),
        call_ensures(merge_request_url, (base, id, iid), request),
    ensures
        user@ == base@ + "/api/v4/users?username="@ + username@,
        project@ == base@ + "/api/v4/projects/"@ + text::decimal(id as nat),
        request@ == project@ + "/merge_requests/"@ + text::decimal(iid as nat),
{
}

/// The window of a day's events: the day before and the day after, which do not count
/// themselves, so that no day but this one is between them.
pub proof fn lemma_window(day: Date, r: (Date, Date), n: int)
    requires
        call_ensures(event_window, (day,), r),
        date::MIN_DAY < day@ < date::MAX_DAY,
    ensures
        (r.0@ < n < r.1@) == (n == day@),
{
}

/// After a full page of a hundred events the next page is asked for, up to the twentieth;
/// after any other page none is.
pub proof fn lemma_paging(p: Paging, got: usize, r: Option<Paging>, first: Paging)
    requires
        call_ensures(Paging::next, (p, got), r),
        call_ensures(Paging::start, (), first),
    ensures
        first@ == 1,
        r is Some == (got >= 100 && p@ < 20),
        r matches Some(next) ==> next@ == p@ + 1,
{
}

/// What the answers give: the first account, the name of the project, and the author of the
/// merge request; and the messages where they do not have it.
pub proof fn lemma_answers(
    ids: &[u64],
    user: Result<u64, AnswerError>,
    answer: &Value,
    author: Result<String, AnswerError>,
    name: Result<String, AnswerError>,
    username: Seq<char>,
    project: nat,
    iid: nat,
)
    requires
        call_ensures(resolved_user, (ids,), user),
        call_ensures(mr_author, (answer,), author),
        call_ensures(project_path, (answer,), name),
    ensures
        ids@.len() > 0 ==> user == Ok::<u64, AnswerError>(ids@[0]),
        ids@.len() == 0 ==> user == Err::<u64, AnswerError>(AnswerError::NoSuchUser),
        json::json_strings(*answer).contains_key("/author/username"@) ==> (author matches Ok(s)
            && s@ == json::json_strings(*answer)["/author/username"@]),
        !json::json_strings(*answer).contains_key("/author/username"@) ==> author == Err::<
            String,
            AnswerError,
        >(AnswerError::NoAuthor),
        ({
            let path = project_name_path(*answer);
            &&& json::json_strings(*answer).contains_key(path) ==> (name matches Ok(s) && s@
                == json::json_strings(*answer)[path])
            &&& !json::json_strings(*answer).contains_key(path) ==> name == Err::<
                String,
                AnswerError,
            >(AnswerError::NoProjectName)
        }),
        AnswerError::NoSuchUser.message_text(username, project, iid) == "no GitLab user matches '"@
            + username + "'"@,
        AnswerError::NoProjectName.message_text(username, project, iid) == "project "@
            + text::decimal(project) + " response missing name"@,
        AnswerError::NoAuthor.message_text(username, project, iid) == "MR "@ + text::decimal(project)
            + "!"@ + text::decimal(iid) + " response missing author username"@,
{
}

/// What is looked up: every project and every merge request of an event that is not known
/// yet, each once, and nothing else.
pub proof fn lemma_missing(
    events: &[RawEvent],
    names: &HashMap<u64, String>,
    authors: &HashMap<u128, String>,
    projects: Vec<u64>,
    requests: Vec<(u64, u64)>,
    i: int,
)
    requires
        call_ensures(missing_projects, (events, names), projects),
        call_ensures(missing_mr_authors, (events, authors), requests),
        0 <= i < events@.len(),
    ensures
        projects@.no_duplicates(),
        requests@.no_duplicates(),
        ({
            let numbers = json::json_numbers(events@[i]);
            numbers.contains_key("/project_id"@) && !names@.contains_key(numbers["/project_id"@])
                ==> projects@.contains(numbers["/project_id"@])
        }),
        mr_ref(events@[i]) matches Some(mr) ==> requests@.contains(mr) == !authors@.contains_key(
            (mr.0 * 0x1_0000_0000_0000_0000 + mr.1) as u128,
        ),
        forall|id: u64| #[trigger] projects@.contains(id) ==> !names@.contains_key(id) && exists|k: int|
            0 <= k < events@.len() && json::number_in(#[trigger] events@[k], "/project_id"@) == Some(
                id,
            ),
        forall|mr: (u64, u64)| #[trigger]
            requests@.contains(mr) ==> !authors@.contains_key(
                (mr.0 * 0x1_0000_0000_0000_0000 + mr.1) as u128,
            ) && exists|k: int| 0 <= k < events@.len() && mr_ref(#[trigger] events@[k]) == Some(mr),
{
    let event = events@[i];
    if project_key(event) is Some {
        assert(mentions_project(events@, project_key(event)->0));
    }
    if mr_ref(event) is Some {
        assert(mentions_mr(events@, mr_ref(event)->0));
    }
}

} // verus!
