use serde_json::Value;
use std::collections::HashMap;
use todone::gitlab::{
    pretty_target, short_project, summarise, try_summarise, RawEvent, ICON_APPROVE, ICON_CLOSE,
    ICON_COMMENT, ICON_MERGE, ICON_OPEN, ICON_OTHER, ICON_PUSH,
};
use todone::gitlab_api::{
    apply_mr_authors, apply_project_names, event_mr_ref, event_window, events_url,
    merge_request_url, missing_mr_authors, missing_projects, mr_author, mr_key, normalize_base_url,
    project_path, project_url, resolved_user, users_url, AnswerError, Paging,
};
use todone::date::{Date, MAX_DAY, MIN_DAY};

fn event(text: &str) -> RawEvent {
    serde_json::from_str::<Value>(text).unwrap()
}

#[test]
fn summarise_groups_pushes_per_project_branch() {
    let events = vec![
        event(r#"{
            "action_name": "pushed to",
            "_project_name": "team/myrepo",
            "push_data": { "ref": "feat/foo", "commit_count": 3 }
        }"#),
        event(r#"{
            "action_name": "pushed to",
            "_project_name": "team/myrepo",
            "push_data": { "ref": "feat/foo", "commit_count": 1 }
        }"#),
        event(r#"{
            "action_name": "pushed to",
            "_project_name": "team/otherrepo",
            "push_data": { "ref": "feat/foo", "commit_count": 2 }
        }"#),
    ];
    let groups = summarise(&events);
    assert_eq!(groups.len(), 2);
    assert_eq!(groups[0].project, "myrepo");
    assert_eq!(groups[0].lines.len(), 1);
    assert_eq!(groups[0].lines[0].text, "feat/foo (2 pushes, 4 commits)");
    assert_eq!(groups[1].project, "otherrepo");
    assert_eq!(groups[1].lines[0].text, "feat/foo (2 commits)");
}

#[test]
fn summarise_pushes_first_then_other_actions_within_project() {
    let events = vec![
        event(r#"{
            "action_name": "approved",
            "_project_name": "team/myrepo",
            "target_title": "x"
        }"#),
        event(r#"{
            "action_name": "pushed to",
            "_project_name": "team/myrepo",
            "push_data": { "ref": "main", "commit_count": 1 }
        }"#),
    ];
    let groups = summarise(&events);
    assert_eq!(groups.len(), 1);
    assert_eq!(groups[0].lines[0].icon, ICON_PUSH);
    assert_eq!(groups[0].lines[1].icon, ICON_APPROVE);
}

#[test]
fn summarise_falls_back_to_numeric_project_id() {
    let events = vec![event(r#"{
        "action_name": "approved",
        "project_id": 42,
        "target_title": "x"
    }"#)];
    let groups = summarise(&events);
    assert_eq!(groups[0].project, "#42");
    assert_eq!(groups[0].lines[0].text, "Approved: x");
}

#[test]
fn summarise_appends_mr_author_to_merge_lines() {
    let events = vec![event(r#"{
        "action_name": "accepted",
        "_project_name": "team/myrepo",
        "_mr_author_username": "alice",
        "target_type": "MergeRequest",
        "target_title": "fix things"
    }"#)];
    let groups = summarise(&events);
    assert_eq!(groups[0].lines[0].text, "Merged MR: fix things (by alice)");
}

#[test]
fn summarise_collapses_comments_per_mr_with_author() {
    let events = vec![
        event(r#"{
            "action_name": "commented on",
            "_project_name": "team/myrepo",
            "_mr_author_username": "alice",
            "target_type": "DiffNote",
            "target_title": "fix things",
            "note": { "noteable_type": "MergeRequest", "noteable_iid": 7 }
        }"#),
        event(r#"{
            "action_name": "commented on",
            "_project_name": "team/myrepo",
            "_mr_author_username": "alice",
            "target_type": "DiffNote",
            "target_title": "fix things",
            "note": { "noteable_type": "MergeRequest", "noteable_iid": 7 }
        }"#),
    ];
    let groups = summarise(&events);
    assert_eq!(
        groups[0].lines[0].text,
        "Commented on MR: fix things (by alice) (2 comments)"
    );
}

#[test]
fn normalize_strips_trailing_slash_and_prepends_https() {
    assert_eq!(normalize_base_url("gitlab.example.com"), "https://gitlab.example.com");
    assert_eq!(
        normalize_base_url("https://gitlab.example.com/"),
        "https://gitlab.example.com"
    );
    assert_eq!(
        normalize_base_url("http://gitlab.local/"),
        "http://gitlab.local"
    );
    assert_eq!(
        normalize_base_url("  https://gitlab.com  "),
        "https://gitlab.com"
    );
}

fn texts(events: &[RawEvent]) -> Vec<(&'static str, String)> {
    summarise(events)
        .into_iter()
        .flat_map(|g| g.lines)
        .map(|l| (l.icon, l.text))
        .collect()
}

#[test]
fn summarise_of_nothing_is_nothing() {
    assert!(summarise(&[]).is_empty());
}

#[test]
fn summarise_words_each_action() {
    let cases = [
        (r#"{"action_name":"opened","target_type":"Issue","target_title":"t"}"#, ICON_OPEN, "Opened issue: t"),
        (r#"{"action_name":"closed","target_type":"MergeRequest","target_title":"t"}"#, ICON_CLOSE, "Closed MR: t"),
        (r#"{"action_name":"merged","target_title":"t"}"#, ICON_MERGE, "Merged MR: t"),
        (r#"{"action_name":"joined"}"#, ICON_OTHER, "joined"),
        (r#"{"action_name":"joined","target_title":"t"}"#, ICON_OTHER, "joined: t"),
        (r#"{}"#, ICON_OTHER, ""),
        (r#"{"action_name":"commented on","target_type":"Note"}"#, ICON_COMMENT, "Commented on note"),
        (r#"{"action_name":"pushed new"}"#, ICON_PUSH, "(unknown)"),
        (r#"{"action_name":"pushed","push_data":{"ref":"b","commit_count":1}}"#, ICON_PUSH, "b (1 commit)"),
    ];
    for (text, icon, line) in cases {
        assert_eq!(texts(&[event(text)]), vec![(icon, line.to_string())], "{text}");
    }
}

#[test]
fn summarise_counts_pushes_without_commits() {
    let push = event(r#"{"action_name":"pushed to","push_data":{"ref":"b"}}"#);
    assert_eq!(texts(&[push.clone()])[0].1, "b");
    assert_eq!(texts(&[push.clone(), push])[0].1, "b (2 pushes)");
}

#[test]
fn summarise_orders_projects_and_branches() {
    let push = |project: &str, branch: &str| {
        event(&format!(
            r#"{{"action_name":"pushed to","_project_name":"{project}","push_data":{{"ref":"{branch}"}}}}"#
        ))
    };
    let events = vec![push("g/z", "b"), push("g/a", "y"), push("g/a", "x"), push("h/a", "x")];
    let groups = summarise(&events);
    let names: Vec<_> = groups.iter().map(|g| g.project.as_str()).collect();
    assert_eq!(names, vec!["a", "z"]);
    let lines: Vec<_> = groups[0].lines.iter().map(|l| l.text.as_str()).collect();
    assert_eq!(lines, vec!["x (2 pushes)", "y"]);
}

#[test]
fn commits_that_overflow_are_not_counted() {
    let push = |n: u64| {
        event(&format!(
            r#"{{"action_name":"pushed to","push_data":{{"ref":"b","commit_count":{n}}}}}"#
        ))
    };
    assert!(try_summarise(&[push(u64::MAX), push(1)]).is_none());
    let groups = try_summarise(&[push(u64::MAX), push(0)]).unwrap();
    assert_eq!(groups[0].lines[0].text, "b (2 pushes, 18446744073709551615 commits)");
}

#[test]
fn projects_and_targets_are_shortened() {
    assert_eq!(short_project("a/b/c"), "c");
    assert_eq!(short_project("c"), "c");
    assert_eq!(short_project("a/"), "");
    for (t, word) in [
        ("MergeRequest", "MR"),
        ("Issue", "issue"),
        ("DiffNote", "note"),
        ("Note", "note"),
        ("DiscussionNote", "note"),
        ("Milestone", "milestone"),
        ("WikiPage::Meta", "wiki"),
        ("WikiPage", "wiki"),
        ("Commit", "commit"),
        ("", "item"),
    ] {
        assert_eq!(pretty_target(t), word);
    }
}

#[test]
fn base_urls_at_the_edges() {
    assert_eq!(normalize_base_url("https://a//"), "https://a");
    assert_eq!(normalize_base_url(" / "), "https://");
    assert_eq!(normalize_base_url("ftp://a"), "https://ftp://a");
}

#[test]
fn addresses_of_the_api() {
    let date = Date::from_days(739_758).unwrap();
    assert_eq!(users_url("https://g", "me"), "https://g/api/v4/users?username=me");
    assert_eq!(project_url("https://g", 7), "https://g/api/v4/projects/7");
    assert_eq!(merge_request_url("https://g", 7, 10), "https://g/api/v4/projects/7/merge_requests/10");
    let (after, before) = event_window(date);
    assert_eq!(
        events_url("https://g", 42, after, before, 3),
        format!(
            "https://g/api/v4/users/42/events?after={}&before={}&per_page=100&page=3",
            Date::from_days(739_757).unwrap().iso(),
            Date::from_days(739_759).unwrap().iso()
        )
    );
}

#[test]
fn event_window_at_the_ends_of_the_calendar() {
    let first = Date::from_days(MIN_DAY).unwrap();
    let last = Date::from_days(MAX_DAY).unwrap();
    assert_eq!(event_window(first).0, first);
    assert_eq!(event_window(last).1, last);
}

#[test]
fn paging_stops_after_a_short_page_or_the_last() {
    let start = Paging::start();
    assert_eq!(start.page(), 1);
    assert!(start.next(0).is_none());
    assert!(start.next(99).is_none());
    let mut paging = start;
    let mut pages = 1;
    while let Some(next) = paging.next(100) {
        paging = next;
        pages += 1;
    }
    assert_eq!(pages, 20);
    assert_eq!(paging.page(), 20);
}

#[test]
fn answers_are_read_or_refused() {
    assert_eq!(resolved_user(&[5, 6]), Ok(5));
    assert_eq!(resolved_user(&[]), Err(AnswerError::NoSuchUser));
    assert_eq!(AnswerError::NoSuchUser.message("me", 0, 0), "no GitLab user matches 'me'");
    assert_eq!(
        project_path(&event(r#"{"path_with_namespace":"a/b","path":"b"}"#)),
        Ok("a/b".to_string())
    );
    assert_eq!(project_path(&event(r#"{"path":"b","name":"c"}"#)), Ok("b".to_string()));
    assert_eq!(project_path(&event(r#"{"name":"c"}"#)), Ok("c".to_string()));
    assert_eq!(
        project_path(&event(r#"{"path_with_namespace":null,"name":"c"}"#)),
        Err(AnswerError::NoProjectName)
    );
    assert_eq!(AnswerError::NoProjectName.message("", 7, 0), "project 7 response missing name");
    assert_eq!(mr_author(&event(r#"{"author":{"username":"al"}}"#)), Ok("al".to_string()));
    assert_eq!(mr_author(&event(r#"{"author":"al"}"#)), Err(AnswerError::NoAuthor));
    assert_eq!(
        AnswerError::NoAuthor.message("", 7, 9),
        "MR 7!9 response missing author username"
    );
}

#[test]
fn merge_requests_of_events() {
    let direct = r#"{"project_id":1,"target_type":"MergeRequest","target_iid":2}"#;
    let noted = r#"{"project_id":1,"target_type":"DiffNote","note":{"noteable_type":"MergeRequest","noteable_iid":3}}"#;
    assert_eq!(event_mr_ref(&event(direct)), Some((1, 2)));
    assert_eq!(event_mr_ref(&event(noted)), Some((1, 3)));
    assert_eq!(event_mr_ref(&event(r#"{"target_type":"MergeRequest","target_iid":2}"#)), None);
    assert_eq!(event_mr_ref(&event(r#"{"project_id":1,"target_type":"Issue","target_iid":2}"#)), None);
    assert_eq!(event_mr_ref(&event(r#"[1]"#)), None);
    assert_ne!(mr_key(1, 2), mr_key(2, 1));
    assert_eq!(mr_key(0, u64::MAX) + 1, mr_key(1, 0));
}

#[test]
fn names_and_authors_are_put_in_where_known() {
    let mut events = vec![
        event(r#"{"action_name":"accepted","project_id":1,"target_type":"MergeRequest","target_iid":2,"target_title":"t"}"#),
        event(r#"{"action_name":"accepted","project_id":3,"target_title":"u"}"#),
        event(r#"{"action_name":"accepted","project_id":1,"target_title":"v"}"#),
    ];
    let mut names = HashMap::new();
    assert_eq!(missing_projects(&events, &names), vec![1, 3]);
    names.insert(1, "team/repo".to_string());
    assert_eq!(missing_projects(&events, &names), vec![3]);
    let mut authors = HashMap::new();
    assert_eq!(missing_mr_authors(&events, &authors), vec![(1, 2)]);
    authors.insert(mr_key(1, 2), "al".to_string());
    assert!(missing_mr_authors(&events, &authors).is_empty());
    apply_project_names(&mut events, &names);
    apply_mr_authors(&mut events, &authors);
    assert_eq!(events[0]["_project_name"], "team/repo");
    assert_eq!(events[0]["_mr_author_username"], "al");
    assert_eq!(events[0]["target_title"], "t");
    assert_eq!(events[1].get("_project_name"), None);
    let groups = summarise(&events);
    assert_eq!(groups[0].project, "#3");
    assert_eq!(groups[1].project, "repo");
    assert_eq!(groups[1].lines[0].text, "Merged MR: t (by al)");
    assert_eq!(groups[1].lines[1].text, "Merged MR: v");
}
