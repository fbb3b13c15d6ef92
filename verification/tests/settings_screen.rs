use todone::config::{GitlabConfig, Settings};
use todone::key::{KeyCode, KeyEvent, Modifiers};
use todone::settings::{
    field_value, pop_char, push_char, text_field_mut, without_last_word, FieldKind, Focus, Section,
    SettingsAction, SettingsState, section_field_kind,
};
use todone::style::{Colour, Style};

fn key(c: char) -> KeyEvent {
    KeyEvent::plain(KeyCode::Char(c))
}
fn special(code: KeyCode) -> KeyEvent {
    KeyEvent::plain(code)
}

#[test]
fn enter_drills_into_submenu_and_h_returns() {
    let mut s = SettingsState::new(Settings::default());
    assert!(matches!(s.focus(), Focus::Top { .. }));
    s.handle_key(special(KeyCode::Enter));
    assert!(matches!(s.focus(), Focus::Section { .. }));
    s.handle_key(key('h'));
    assert!(matches!(s.focus(), Focus::Top { .. }));
}

#[test]
fn space_toggles_enabled_field() {
    let mut s = SettingsState::new(Settings::default());
    s.handle_key(special(KeyCode::Enter)); // drill in
    s.handle_key(key(' ')); // toggle enabled
    assert!(s.settings.gitlab.enabled);
    assert!(s.dirty());
    s.handle_key(key(' '));
    assert!(!s.settings.gitlab.enabled);
}

#[test]
fn typing_into_text_field_updates_settings() {
    let mut s = SettingsState::new(Settings::default());
    s.handle_key(special(KeyCode::Enter)); // drill in
    s.handle_key(key('j')); // cursor -> Instance URL
    s.handle_key(special(KeyCode::Enter)); // edit
    s.handle_key(key('g'));
    s.handle_key(key('l'));
    s.handle_key(special(KeyCode::Esc)); // leave edit
    assert_eq!(s.settings.gitlab.instance_url, "gl");
    assert!(s.dirty());
}

#[test]
fn esc_at_top_returns_close_with_save() {
    let mut s = SettingsState::new(Settings::default());
    let action = s.handle_key(special(KeyCode::Esc));
    assert_eq!(action, SettingsAction::Close { save: true });
}

#[test]
fn ex_q_closes_without_save() {
    let mut s = SettingsState::new(Settings::default());
    s.handle_key(key(':'));
    s.handle_key(key('q'));
    let action = s.handle_key(special(KeyCode::Enter));
    assert_eq!(action, SettingsAction::Close { save: false });
}

#[test]
fn ex_w_returns_save_action() {
    let mut s = SettingsState::new(Settings::default());
    s.handle_key(key(':'));
    s.handle_key(key('w'));
    let action = s.handle_key(special(KeyCode::Enter));
    assert_eq!(action, SettingsAction::Save);
}

fn filled() -> Settings {
    Settings {
        gitlab: GitlabConfig {
            enabled: true,
            instance_url: "https://gitlab.example.com".into(),
            token: "abc".into(),
            username: "me too".into(),
        },
    }
}

fn plain_text(s: &SettingsState) -> Vec<String> {
    s.rows()
        .iter()
        .map(|line| line.spans.iter().map(|span| span.text.as_str()).collect())
        .collect()
}

#[test]
fn default_settings_are_off_and_empty() {
    let s = Settings::default();
    assert!(!s.gitlab.enabled);
    assert_eq!(s.gitlab, GitlabConfig::default());
    assert_eq!(s.gitlab.instance_url, "");
    assert_eq!(s.gitlab.token, "");
    assert_eq!(s.gitlab.username, "");
}

#[test]
fn cursor_stays_on_the_fields() {
    let mut s = SettingsState::new(Settings::default());
    s.handle_key(key('j'));
    s.handle_key(key('k'));
    assert_eq!(s.focus(), Focus::Top { cursor: 0 });
    s.handle_key(key('l'));
    for _ in 0..9 {
        s.handle_key(special(KeyCode::Down));
    }
    assert_eq!(s.focus(), Focus::Section { section: Section::Gitlab, cursor: 3, editing: false });
    for _ in 0..9 {
        s.handle_key(special(KeyCode::Up));
    }
    assert_eq!(s.focus(), Focus::Section { section: Section::Gitlab, cursor: 0, editing: false });
    // A toggle is not edited.
    s.handle_key(key('i'));
    assert!(!s.editing());
    s.handle_key(special(KeyCode::Left));
    assert_eq!(s.focus(), Focus::Top { cursor: 0 });
}

#[test]
fn fields_have_kinds() {
    let kinds: Vec<_> = (0..5).map(|i| section_field_kind(Section::Gitlab, i)).collect();
    assert_eq!(
        kinds,
        vec![
            Some(FieldKind::Toggle),
            Some(FieldKind::Text),
            Some(FieldKind::Secret),
            Some(FieldKind::Text),
            None
        ]
    );
    let s = filled();
    assert_eq!(field_value(&s, Section::Gitlab, 0), "[x]");
    assert_eq!(field_value(&Settings::default(), Section::Gitlab, 0), "[ ]");
    assert_eq!(field_value(&s, Section::Gitlab, 2), "abc");
    assert_eq!(field_value(&s, Section::Gitlab, 3), "me too");
    assert_eq!(field_value(&s, Section::Gitlab, 4), "");
}

#[test]
fn backspace_takes_back_what_was_typed() {
    let mut s = SettingsState::new(filled());
    s.handle_key(special(KeyCode::Enter));
    s.handle_key(key('k'));
    for _ in 0..3 {
        s.handle_key(key('j'));
    }
    s.handle_key(key('a'));
    assert!(s.editing());
    assert_eq!(s.mode_label(), "EDIT");
    s.handle_key(key('!'));
    assert_eq!(s.settings.gitlab.username, "me too!");
    s.handle_key(special(KeyCode::Backspace));
    assert_eq!(s.settings.gitlab.username, "me too");
    let word = KeyEvent {
        code: KeyCode::Backspace,
        modifiers: Modifiers { shift: false, control: true, alt: false, other: false },
    };
    s.handle_key(word);
    assert_eq!(s.settings.gitlab.username, "me ");
    s.handle_key(word);
    s.handle_key(word);
    s.handle_key(special(KeyCode::Backspace));
    assert_eq!(s.settings.gitlab.username, "");
    // `:` is text while a field is edited.
    s.handle_key(key(':'));
    assert_eq!(s.settings.gitlab.username, ":");
    s.handle_key(special(KeyCode::Enter));
    assert_eq!(s.mode_label(), "NORMAL");
    assert_eq!(s.settings.gitlab.instance_url, "https://gitlab.example.com");
}

#[test]
fn last_word_goes_with_the_space_behind_it() {
    assert_eq!(without_last_word("one two  "), "one ");
    assert_eq!(without_last_word("one"), "");
    assert_eq!(without_last_word("   "), "");
}

#[test]
fn ex_command_can_be_edited_and_left() {
    let mut s = SettingsState::new(Settings::default());
    for k in [key(':'), key('w'), key('x'), special(KeyCode::Backspace)] {
        assert_eq!(s.handle_key(k), SettingsAction::Nothing);
    }
    assert_eq!(s.ex_command.as_deref(), Some("w"));
    s.handle_key(special(KeyCode::Backspace));
    s.handle_key(special(KeyCode::Backspace));
    assert_eq!(s.ex_command, None);
    s.handle_key(key(':'));
    s.handle_key(special(KeyCode::Esc));
    assert_eq!(s.ex_command, None);
    for (text, action) in [
        ("wq", SettingsAction::Close { save: true }),
        (" x ", SettingsAction::Close { save: true }),
        ("nope", SettingsAction::Nothing),
        ("", SettingsAction::Nothing),
    ] {
        s.handle_key(key(':'));
        for c in text.chars() {
            s.handle_key(key(c));
        }
        assert_eq!(s.handle_key(special(KeyCode::Enter)), action);
    }
    assert!(!s.dirty());
}

#[test]
fn q_leaves_a_section_and_then_the_screen() {
    let mut s = SettingsState::new(Settings::default());
    s.handle_key(special(KeyCode::Right));
    assert_eq!(s.handle_key(key('q')), SettingsAction::Nothing);
    assert_eq!(s.handle_key(key('q')), SettingsAction::Close { save: true });
}

#[test]
fn mark_clean_forgets_the_change() {
    let mut s = SettingsState::new(Settings::default());
    s.handle_key(special(KeyCode::Enter));
    s.handle_key(special(KeyCode::Enter));
    assert!(s.dirty());
    s.mark_clean();
    assert!(!s.dirty());
    assert!(s.settings.gitlab.enabled);
}

#[test]
fn settings_rows_show_labels_and_hide_the_token() {
    let mut s = SettingsState::new(filled());
    assert_eq!(s.title(), " Settings ");
    assert_eq!(plain_text(&s), vec![" › GitLab integration  ›"]);
    s.handle_key(special(KeyCode::Enter));
    assert_eq!(s.title(), " Settings › GitLab ");
    assert_eq!(
        plain_text(&s),
        vec![
            " › Enabled         [x]",
            "   Instance URL    https://gitlab.example.com",
            "   Personal Token  •••",
            "   Username        me too",
        ]
    );
    assert_eq!(s.rows()[0].spans[1].style, Style::bold(Colour::Yellow));
    assert_eq!(s.rows()[1].spans[1].style, Style::colour(Colour::DarkGray));
    s.handle_key(key('j'));
    s.handle_key(key('j'));
    s.handle_key(key('i'));
    let token = s.rows()[2].spans[2].clone();
    assert_eq!(token.text, "abc");
    assert_eq!(
        token.style,
        Style { fg: Some(Colour::Black), bg: Some(Colour::Yellow), bold: false }
    );
}

#[test]
fn text_fields_are_changed_one_by_one() {
    let mut settings = Settings::default();
    for idx in 0..6 {
        let kind = section_field_kind(Section::Gitlab, idx);
        let holds_text = matches!(kind, Some(FieldKind::Text) | Some(FieldKind::Secret));
        let field = text_field_mut(&mut settings, Section::Gitlab, idx);
        assert_eq!(field.is_some(), holds_text);
        if let Some(text) = field {
            *text = format!("field {}", idx);
        }
    }
    let shown: Vec<String> =
        (0..5).map(|idx| field_value(&settings, Section::Gitlab, idx)).collect();
    assert_eq!(shown, vec!["[ ]", "field 1", "field 2", "field 3", ""]);
}

#[test]
fn a_character_put_in_and_taken_off_changes_nothing() {
    let mut settings = Settings::default();
    settings.gitlab.username = "naïve".into();
    for idx in 0..5 {
        let before = field_value(&settings, Section::Gitlab, idx);
        push_char(&mut settings, Section::Gitlab, idx, '日');
        pop_char(&mut settings, Section::Gitlab, idx);
        assert_eq!(field_value(&settings, Section::Gitlab, idx), before);
    }
}

#[test]
fn the_settings_and_the_command_can_be_read() {
    let mut settings = Settings::default();
    settings.gitlab.username = "me".into();
    let mut s = SettingsState::new(settings);
    assert_eq!(s.settings().gitlab.username, "me");
    assert_eq!(s.ex_command(), None);
    s.handle_key(key(':'));
    s.handle_key(key('w'));
    assert_eq!(s.ex_command(), Some("w"));
}
