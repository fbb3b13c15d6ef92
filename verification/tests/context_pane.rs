use serde_json::Value;
use todone::context::{
    body, border, gitlab_body, planning_body, split_words, tabs, title, try_gitlab_body,
    wrap_gitlab_line, wrap_with_prefix, wrap_words, ContextState, GitlabPaneStatus, Tab,
};
use todone::date::Date;
use todone::style::{Colour, Line, Style};

fn plain(lines: &[Line]) -> Vec<String> {
    lines.iter().map(|l| l.spans.iter().map(|s| s.text.as_str()).collect()).collect()
}

#[test]
fn cycle_wraps_in_both_directions() {
    let mut s = ContextState::new(Tab::Planning);
    s.cycle(1);
    assert_eq!(s.tab, Tab::Gitlab);
    s.cycle(1);
    assert_eq!(s.tab, Tab::Planning);
    s.cycle(-1);
    assert_eq!(s.tab, Tab::Gitlab);
}

#[test]
fn cycle_by_many() {
    for (delta, tab) in [
        (0, Tab::Planning),
        (7, Tab::Gitlab),
        (-8, Tab::Planning),
        (i32::MIN, Tab::Planning),
        (i32::MAX, Tab::Gitlab),
    ] {
        let mut s = ContextState::new(Tab::Planning);
        s.cycle(delta);
        assert_eq!(s.tab, tab, "{delta}");
    }
}

#[test]
fn words_are_split_at_any_white_space() {
    assert_eq!(split_words("  a\tb\u{3000}c\n"), vec!["a", "b", "c"]);
    assert!(split_words(" \t").is_empty());
}

#[test]
fn wrapping_is_greedy() {
    assert_eq!(wrap_words("aa bb cc", 5), vec!["aa bb", "cc"]);
    assert_eq!(wrap_words("aa bb cc", 8), vec!["aa bb cc"]);
    assert_eq!(wrap_words("aa  bb", 4), vec!["aa", "bb"]);
    assert_eq!(wrap_words("a toolong b", 3), vec!["a", "toolong", "b"]);
    assert_eq!(wrap_words("", 3), vec![""]);
    assert_eq!(wrap_words("äö ü", 4), vec!["äö ü"]);
}

#[test]
fn wrapped_lines_hang_under_the_first() {
    let lines = wrap_with_prefix(" - ", "aa bb cc", Style::plain(), 8);
    assert_eq!(plain(&lines), vec![" - aa bb", "   cc"]);
    let lines = wrap_with_prefix(" - ", "aa bb", Style::plain(), 0);
    assert_eq!(plain(&lines), vec![" - aa", "   bb"]);
}

#[test]
fn summary_lines_hang_under_their_text() {
    let lines = wrap_gitlab_line("X", "aa bb cc", 12);
    assert_eq!(plain(&lines), vec!["    X  aa bb", "       cc"]);
    assert_eq!(lines[0].spans[1].style, Style::colour(Colour::Cyan));
    assert_eq!(plain(&wrap_gitlab_line("", "aa bb", 9)), vec!["      aa", "       bb"]);
}

#[test]
fn planning_tab_lists_bullets() {
    assert_eq!(
        plain(&planning_body(&["one two".into(), "three".into()], 7)),
        vec![" - one", "   two", " - three"]
    );
    let none = planning_body(&[], 7);
    assert_eq!(plain(&none), vec![" (no planning recorded)"]);
    assert_eq!(none[0].spans[0].style, Style::colour(Colour::DarkGray));
}

#[test]
fn gitlab_tab_says_what_it_knows() {
    let text = |s: &GitlabPaneStatus| plain(&gitlab_body(s, 80));
    assert_eq!(
        text(&GitlabPaneStatus::Disabled),
        vec![" GitLab integration disabled — enable in <Space>s settings"]
    );
    assert_eq!(text(&GitlabPaneStatus::Loading), vec![" fetching…"]);
    assert_eq!(text(&GitlabPaneStatus::Error("no")), vec![" error: no"]);
    assert_eq!(text(&GitlabPaneStatus::Events(&[])), vec![" no activity recorded"]);
    assert_eq!(
        gitlab_body(&GitlabPaneStatus::Error("no"), 80)[0].spans[0].style,
        Style::colour(Colour::Red)
    );
}

fn events() -> Vec<Value> {
    [
        r#"{"action_name":"approved","_project_name":"t/b","target_title":"x"}"#,
        r#"{"action_name":"approved","_project_name":"t/a","target_title":"y"}"#,
    ]
    .iter()
    .map(|s| serde_json::from_str(s).unwrap())
    .collect()
}

#[test]
fn gitlab_tab_groups_by_project() {
    let events = events();
    let status = GitlabPaneStatus::Events(&events);
    let lines = gitlab_body(&status, 80);
    assert_eq!(
        plain(&lines),
        vec![" a", "    \u{f00c}  Approved: y", "", " b", "    \u{f00c}  Approved: x"]
    );
    assert_eq!(lines[0].spans[0].style, Style::bold(Colour::Yellow));
    assert_eq!(try_gitlab_body(&status, 80), Some(lines));
}

#[test]
fn gitlab_tab_with_too_many_commits() {
    let text = r#"{"action_name":"pushed to","push_data":{"ref":"b","commit_count":18446744073709551615}}"#;
    let push: Value = serde_json::from_str(text).unwrap();
    let events = vec![push.clone(), push];
    assert_eq!(try_gitlab_body(&GitlabPaneStatus::Events(&events), 80), None);
}

#[test]
fn tab_line_marks_the_shown_tab() {
    let events = events();
    let status = GitlabPaneStatus::Events(&events);
    let line = tabs(&ContextState::new(Tab::Gitlab), &status);
    assert_eq!(
        plain(&[line.clone()]),
        vec![" Yesterday Planning    GitLab (2)        [ ] switch tab"]
    );
    assert_eq!(line.spans[1].style, Style::colour(Colour::DarkGray));
    assert_eq!(line.spans[3].style, Style::bold(Colour::Yellow));
    let line = tabs(&ContextState::new(Tab::Planning), &GitlabPaneStatus::Loading);
    assert_eq!(line.spans[3].text, "GitLab");
    assert_eq!(line.spans[1].style, Style::bold(Colour::Yellow));
}

#[test]
fn pane_shows_the_tab_and_the_day() {
    let planning = vec!["plan".to_string()];
    let mut state = ContextState::new(Tab::Planning);
    assert_eq!(plain(&body(&state, &planning, &GitlabPaneStatus::Loading, 20)), vec![" - plan"]);
    state.cycle(1);
    assert_eq!(plain(&body(&state, &planning, &GitlabPaneStatus::Loading, 20)), vec![" fetching…"]);
    // 2026-05-22
    assert_eq!(title(Date::from_days(739_758).unwrap()), " Context — Fri May 22 ");
    assert_eq!(border(true), Colour::Yellow);
    assert_eq!(border(false), Colour::DarkGray);
}
