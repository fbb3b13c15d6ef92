//! The settings screen.

use crate::config::{GitlabView, Settings};
use crate::key::{KeyCode, KeyEvent};
use crate::style;
use crate::style::{Colour, Line, Span, SpanView, Style};
use crate::text;
use vstd::prelude::*;

verus! {

/// A part of the settings.
#[derive(Debug, Clone, Copy, PartialEq, Eq, Structural)]
pub enum Section {
    Gitlab,
}

/// How many sections there are.
pub const TOP_COUNT: usize = 1;

/// How many fields the GitLab section has.
pub const FIELD_COUNT: usize = 4;

/// How wide the labels of the fields are shown.
pub const LABEL_WIDTH: usize = 14;

/// What a field holds.
#[derive(Debug, Clone, Copy, PartialEq, Eq, Structural)]
pub enum FieldKind {
    Toggle,
    Text,
    Secret,
}

/// Where one is.
#[derive(Debug, Clone, Copy, PartialEq, Eq, Structural)]
pub enum Focus {
    Top { cursor: usize },
    Section { section: Section, cursor: usize, editing: bool },
}

/// What is to be done after a key.
#[derive(Debug, Clone, Copy, PartialEq, Eq, Structural)]
pub enum SettingsAction {
    Nothing,
    /// Close the settings screen. `save` is true for Esc-out and :wq, false for :q.
    Close { save: bool },
    /// Persist now and remain in the settings screen.
    Save,
}

/// The settings, and where on the screen one is.
pub struct SettingsState {
    pub settings: Settings,
    focus: Focus,
    dirty: bool,
    pub ex_command: Option<String>,
}

/// The view of a [`SettingsState`].
#[verifier::ext_equal]
pub struct SettingsView {
    pub gitlab: GitlabView,
    pub focus: Focus,
    /// Whether something was changed since the last save.
    pub dirty: bool,
    /// The command being typed.
    pub command: Option<Seq<char>>,
}

impl View for SettingsState {
    type V = SettingsView;

    closed spec fn view(&self) -> SettingsView {
        SettingsView {
            gitlab: self.settings.gitlab@,
            focus: self.focus,
            dirty: self.dirty,
            command: match self.ex_command {
                Some(s) => Some(s@),
                None => None,
            },
        }
    }
}

// ---------------------------------------------------------------------------
// Fields
// ---------------------------------------------------------------------------

/// What field `i` of the GitLab section holds.
pub open spec fn kind_of(i: int) -> Option<FieldKind> {
    if i == 0 {
        Some(FieldKind::Toggle)
    } else if i == 1 || i == 3 {
        Some(FieldKind::Text)
    } else if i == 2 {
        Some(FieldKind::Secret)
    } else {
        None
    }
}

/// The label of field `i` of the GitLab section.
pub open spec fn label_of(i: int) -> Seq<char> {
    if i == 0 {
        "Enabled"@
    } else if i == 1 {
        "Instance URL"@
    } else if i == 2 {
        "Personal Token"@
    } else {
        "Username"@
    }
}

/// What field `i` shows.
pub open spec fn value_of(g: GitlabView, i: int) -> Seq<char> {
    if i == 0 {
        if g.enabled {
            "[x]"@
        } else {
            "[ ]"@
        }
    } else if i == 1 {
        g.instance_url
    } else if i == 2 {
        g.token
    } else if i == 3 {
        g.username
    } else {
        seq![]
    }
}

/// Whether field `i` holds text.
pub open spec fn is_text(i: int) -> bool {
    1 <= i <= 3
}

/// With `text` in field `i`, if that holds text.
pub open spec fn with_text(g: GitlabView, i: int, text: Seq<char>) -> GitlabView {
    if i == 1 {
        GitlabView { instance_url: text, ..g }
    } else if i == 2 {
        GitlabView { token: text, ..g }
    } else if i == 3 {
        GitlabView { username: text, ..g }
    } else {
        g
    }
}

/// `s` without the last character, if there is one.
pub open spec fn popped(s: Seq<char>) -> Seq<char> {
    if s.len() > 0 {
        s.drop_last()
    } else {
        s
    }
}

/// `s` without what comes after its last white space.
pub open spec fn before_last_word(s: Seq<char>) -> Seq<char>
    decreases s.len(),
{
    if s.len() > 0 && !text::is_white(s.last()) {
        before_last_word(s.drop_last())
    } else {
        s
    }
}

/// `s` without its last word and the white space behind it.
pub open spec fn word_dropped(s: Seq<char>) -> Seq<char> {
    before_last_word(text::trim_right(s))
}

/// The longest label is as wide as the labels are shown.
pub proof fn lemma_label_width()
    ensures
        forall|i: int| 0 <= i < FIELD_COUNT ==> #[trigger] label_of(i).len() <= LABEL_WIDTH,
        label_of(2).len() == LABEL_WIDTH,
{
    reveal_strlit("Enabled");
    reveal_strlit("Instance URL");
    reveal_strlit("Personal Token");
    reveal_strlit("Username");
}

// ---------------------------------------------------------------------------
// Keys
// ---------------------------------------------------------------------------

/// A step down in a list of `n`.
pub open spec fn down(cursor: int, n: int) -> int {
    if cursor + 1 < n {
        cursor + 1
    } else {
        n - 1
    }
}

/// A step up.
pub open spec fn up(cursor: int) -> int {
    if cursor > 0 {
        cursor - 1
    } else {
        0
    }
}

/// The focus on field `cursor`.
pub open spec fn field_focus(cursor: int, editing: bool) -> Focus {
    Focus::Section { section: Section::Gitlab, cursor: cursor as usize, editing }
}

impl SettingsView {
    /// Whether a field is edited.
    pub open spec fn editing(self) -> bool {
        self.focus matches Focus::Section { editing, .. } && editing
    }

    /// The cursor is on an item that there is, and only text is edited.
    pub open spec fn valid(self) -> bool {
        match self.focus {
            Focus::Top { cursor } => cursor < TOP_COUNT,
            Focus::Section { section, cursor, editing } => cursor < FIELD_COUNT && (editing
                ==> is_text(cursor as int)),
        }
    }

    /// With the focus elsewhere.
    pub open spec fn at(self, focus: Focus) -> SettingsView {
        SettingsView { focus, ..self }
    }

    /// After `k` at the top.
    pub open spec fn top_keyed(self, k: KeyEvent, cursor: int) -> SettingsView {
        match k.code {
            KeyCode::Char('j') | KeyCode::Down => self.at(
                Focus::Top { cursor: down(cursor, TOP_COUNT as int) as usize },
            ),
            KeyCode::Char('k') | KeyCode::Up => self.at(Focus::Top { cursor: up(cursor) as usize }),
            KeyCode::Enter | KeyCode::Char('l') | KeyCode::Right => if cursor < TOP_COUNT {
                self.at(field_focus(0, false))
            } else {
                self
            },
            _ => self,
        }
    }

    /// After field `cursor` is activated: a toggle is switched, text is edited.
    pub open spec fn activated(self, cursor: int) -> SettingsView {
        match kind_of(cursor) {
            Some(FieldKind::Toggle) => SettingsView {
                gitlab: GitlabView { enabled: !self.gitlab.enabled, ..self.gitlab },
                dirty: true,
                ..self
            },
            Some(_) => self.at(field_focus(cursor, true)),
            None => self,
        }
    }

    /// After `k` in a section.
    pub open spec fn section_keyed(self, k: KeyEvent, cursor: int) -> SettingsView {
        match k.code {
            KeyCode::Esc | KeyCode::Char('h') | KeyCode::Char('q') | KeyCode::Left => self.at(
                Focus::Top { cursor: 0 },
            ),
            KeyCode::Char('j') | KeyCode::Down => self.at(
                field_focus(down(cursor, FIELD_COUNT as int), false),
            ),
            KeyCode::Char('k') | KeyCode::Up => self.at(field_focus(up(cursor), false)),
            KeyCode::Enter | KeyCode::Char(' ') => self.activated(cursor),
            KeyCode::Char('i') | KeyCode::Char('a') => if is_text(cursor) {
                self.at(field_focus(cursor, true))
            } else {
                self
            },
            _ => self,
        }
    }

    /// With the text of field `cursor` changed, or at least marked so.
    pub open spec fn edited(self, cursor: int, text: Seq<char>) -> SettingsView {
        SettingsView { gitlab: with_text(self.gitlab, cursor, text), dirty: true, ..self }
    }

    /// After `k` while field `cursor` is edited.
    pub open spec fn edit_keyed(self, k: KeyEvent, cursor: int) -> SettingsView {
        let value = value_of(self.gitlab, cursor);
        match k.code {
            KeyCode::Esc | KeyCode::Enter => self.at(field_focus(cursor, false)),
            KeyCode::Backspace => if k.modifiers.control {
                self.edited(cursor, word_dropped(value))
            } else {
                self.edited(cursor, popped(value))
            },
            KeyCode::Char(c) => self.edited(cursor, value.push(c)),
            _ => self,
        }
    }

    /// After `k` while the command `command` is typed.
    pub open spec fn command_keyed(self, k: KeyEvent, command: Seq<char>) -> SettingsView {
        match k.code {
            KeyCode::Esc | KeyCode::Enter => SettingsView { command: None, ..self },
            KeyCode::Backspace => SettingsView {
                command: if command.len() > 0 {
                    Some(command.drop_last())
                } else {
                    None
                },
                ..self
            },
            KeyCode::Char(c) => SettingsView { command: Some(command.push(c)), ..self },
            _ => self,
        }
    }

    /// After `k`.
    pub open spec fn keyed(self, k: KeyEvent) -> SettingsView {
        match self.command {
            Some(command) => self.command_keyed(k, command),
            None => if !self.editing() && k.code == KeyCode::Char(':') && k.modifiers.plain() {
                SettingsView { command: Some(seq![]), ..self }
            } else {
                match self.focus {
                    Focus::Top { cursor } => self.top_keyed(k, cursor as int),
                    Focus::Section { section, cursor, editing } => if editing {
                        self.edit_keyed(k, cursor as int)
                    } else {
                        self.section_keyed(k, cursor as int)
                    },
                }
            },
        }
    }

    /// What is to be done after `k`.
    pub open spec fn action(self, k: KeyEvent) -> SettingsAction {
        match self.command {
            Some(command) => if k.code == KeyCode::Enter {
                command_action(text::trimmed(command))
            } else {
                SettingsAction::Nothing
            },
            None => if self.focus is Top && (k.code == KeyCode::Esc || k.code == KeyCode::Char(
                'q',
            )) {
                SettingsAction::Close { save: true }
            } else {
                SettingsAction::Nothing
            },
        }
    }
}

/// What a command asks for.
pub open spec fn command_action(command: Seq<char>) -> SettingsAction {
    if command == "w"@ {
        SettingsAction::Save
    } else if command == "wq"@ || command == "x"@ {
        SettingsAction::Close { save: true }
    } else if command == "q"@ {
        SettingsAction::Close { save: false }
    } else {
        SettingsAction::Nothing
    }
}

/// What field `idx` of a section holds.
pub fn section_field_kind(section: Section, idx: usize) -> (r: Option<FieldKind>)
    ensures
        r == kind_of(idx as int),
{
    match idx {
        0 => Some(FieldKind::Toggle),
        1 => Some(FieldKind::Text),
        2 => Some(FieldKind::Secret),
        3 => Some(FieldKind::Text),
        _ => None,
    }
}

/// The name of a section.
pub fn section_title(section: Section) -> (r: &'static str)
    ensures
        r@ == "GitLab"@,
{
    match section {
        Section::Gitlab => "GitLab",
    }
}

fn field_label(idx: usize) -> (r: &'static str)
    ensures
        r@ == label_of(idx as int),
{
    match idx {
        0 => "Enabled",
        1 => "Instance URL",
        2 => "Personal Token",
        _ => "Username",
    }
}

/// What field `idx` of a section shows.
pub fn field_value(settings: &Settings, section: Section, idx: usize) -> (r: String)
    ensures
        r@ == value_of(settings.gitlab@, idx as int),
{
    match idx {
        0 => {
            if settings.gitlab.enabled {
                "[x]".to_owned()
            } else {
                "[ ]".to_owned()
            }
        },
        1 => settings.gitlab.instance_url.clone(),
        2 => settings.gitlab.token.clone(),
        3 => settings.gitlab.username.clone(),
        _ => String::new(),
    }
}

/// The text of field `idx` of a section, to change, if it holds text.
pub fn text_field_mut(settings: &mut Settings, section: Section, idx: usize) -> (r: Option<&mut String>)
    ensures
        match r {
            Some(text) => {
                &&& is_text(idx as int)
                &&& (*text)@ == value_of(old(settings).gitlab@, idx as int)
                &&& final(settings).gitlab@ == with_text(
                    old(settings).gitlab@,
                    idx as int,
                    (*final(text))@,
                )
            },
            None => !is_text(idx as int) && *final(settings) == *old(settings),
        },
{
    match idx {
        1 => Some(&mut settings.gitlab.instance_url),
        2 => Some(&mut settings.gitlab.token),
        3 => Some(&mut settings.gitlab.username),
        _ => None,
    }
}

fn toggle_field(settings: &mut Settings, section: Section, idx: usize)
    ensures
        idx == 0 ==> final(settings).gitlab@ == (GitlabView {
            enabled: !old(settings).gitlab@.enabled,
            ..old(settings).gitlab@
        }),
        idx != 0 ==> *final(settings) == *old(settings),
{
    if idx == 0 {
        settings.gitlab.enabled = !settings.gitlab.enabled;
    }
}

/// Puts `c` at the end of field `idx` of a section, if it holds text.
pub fn push_char(settings: &mut Settings, section: Section, idx: usize, c: char)
    ensures
        final(settings).gitlab@ == with_text(
            old(settings).gitlab@,
            idx as int,
            value_of(old(settings).gitlab@, idx as int).push(c),
        ),
{
    if let Some(s) = text_field_mut(settings, section, idx) {
        s.push(c);
    }
}

/// Takes the last character off field `idx` of a section, if it holds text.
pub fn pop_char(settings: &mut Settings, section: Section, idx: usize)
    ensures
        final(settings).gitlab@ == with_text(
            old(settings).gitlab@,
            idx as int,
            popped(value_of(old(settings).gitlab@, idx as int)),
        ),
{
    if let Some(s) = text_field_mut(settings, section, idx) {
        s.pop();
    }
}

proof fn lemma_before_last_word(s: Seq<char>, n: int)
    requires
        0 <= n <= s.len(),
        forall|i: int| n <= i < s.len() ==> !text::is_white(#[trigger] s[i]),
        n > 0 ==> text::is_white(s[n - 1]),
    ensures
        before_last_word(s) == s.take(n),
    decreases s.len(),
{
    if n < s.len() {
        lemma_before_last_word(s.drop_last(), n);
        assert(s.drop_last().take(n) =~= s.take(n));
    } else {
        assert(s.take(n) =~= s);
    }
}

proof fn lemma_trim_right(s: Seq<char>, n: int)
    requires
        0 <= n <= s.len(),
        forall|i: int| n <= i < s.len() ==> text::is_white(#[trigger] s[i]),
        n > 0 ==> !text::is_white(s[n - 1]),
    ensures
        text::trim_right(s) == s.take(n),
    decreases s.len(),
{
    if n < s.len() {
        lemma_trim_right(s.drop_last(), n);
        assert(s.drop_last().take(n) =~= s.take(n));
    } else {
        assert(s.take(n) =~= s);
    }
}

/// `s` without its last word and the white space behind it.
pub fn without_last_word(s: &str) -> (r: String)
    ensures
        r@ == word_dropped(s@),
{
    let cs = text::chars_of(s);
    let mut end: usize = cs.len();
    while end > 0 && text::is_whitespace(cs[end - 1])
        invariant
            end <= cs.len(),
            forall|i: int| end <= i < cs.len() ==> text::is_white(#[trigger] cs@[i]),
        decreases end,
    {
        end -= 1;
    }
    let mut start: usize = end;
    while start > 0 && !text::is_whitespace(cs[start - 1])
        invariant
            start <= end <= cs.len(),
            forall|i: int| start <= i < end ==> !text::is_white(#[trigger] cs@[i]),
        decreases start,
    {
        start -= 1;
    }
    proof {
        lemma_trim_right(cs@, end as int);
        let kept = cs@.take(end as int);
        lemma_before_last_word(kept, start as int);
        assert(kept.take(start as int) =~= s@.subrange(0, start as int));
    }
    s.substring_char(0, start).to_owned()
}

fn delete_word(settings: &mut Settings, section: Section, idx: usize)
    ensures
        final(settings).gitlab@ == with_text(
            old(settings).gitlab@,
            idx as int,
            word_dropped(value_of(old(settings).gitlab@, idx as int)),
        ),
{
    if let Some(s) = text_field_mut(settings, section, idx) {
        *s = without_last_word(s.as_str());
    }
}

fn step_down(cursor: usize, n: usize) -> (r: usize)
    requires
        n > 0,
    ensures
        r == down(cursor as int, n as int),
{
    if cursor < n - 1 {
        cursor + 1
    } else {
        n - 1
    }
}

fn step_up(cursor: usize) -> (r: usize)
    ensures
        r == up(cursor as int),
{
    if cursor > 0 {
        cursor - 1
    } else {
        0
    }
}

impl SettingsState {
    /// The settings as they are now.
    pub fn settings(&self) -> (r: &Settings)
        ensures
            r.gitlab@ == self@.gitlab,
    {
        &self.settings
    }

    /// The command being typed.
    pub fn ex_command(&self) -> (r: Option<&str>)
        ensures
            match r {
                Some(command) => self@.command == Some(command@),
                None => self@.command is None,
            },
    {
        match &self.ex_command {
            Some(command) => Some(command.as_str()),
            None => None,
        }
    }

    /// At the top, with nothing changed.
    pub fn new(settings: Settings) -> (r: Self)
        ensures
            r@ == (SettingsView {
                gitlab: settings.gitlab@,
                focus: Focus::Top { cursor: 0 },
                dirty: false,
                command: None,
            }),
            r@.valid(),
    {
        SettingsState { settings, focus: Focus::Top { cursor: 0 }, dirty: false, ex_command: None }
    }

    /// Whether something was changed since the last save.
    pub fn dirty(&self) -> (r: bool)
        ensures
            r == self@.dirty,
    {
        self.dirty
    }

    /// Where one is.
    pub fn focus(&self) -> (r: Focus)
        ensures
            r == self@.focus,
    {
        self.focus
    }

    /// Everything is saved.
    pub fn mark_clean(&mut self)
        ensures
            final(self)@ == (SettingsView { dirty: false, ..old(self)@ }),
    {
        self.dirty = false;
    }

    /// Whether a field is edited.
    pub fn editing(&self) -> (r: bool)
        ensures
            r == self@.editing(),
    {
        match self.focus {
            Focus::Section { section, cursor, editing } => editing,
            Focus::Top { cursor } => false,
        }
    }

    /// The name of the mode.
    pub fn mode_label(&self) -> (r: &'static str)
        ensures
            r@ == if self@.editing() {
                "EDIT"@
            } else {
                "NORMAL"@
            },
    {
        if self.editing() {
            "EDIT"
        } else {
            "NORMAL"
        }
    }

    /// Deals with a key.
    pub fn handle_key(&mut self, k: KeyEvent) -> (r: SettingsAction)
        ensures
            final(self)@ == old(self)@.keyed(k),
            r == old(self)@.action(k),
    {
        if self.ex_command.is_some() {
            return self.handle_ex_key(k);
        }
        // Ex-command entry: only allowed when not editing a text field.
        if !self.editing() && k.is_char(':') && k.modifiers.is_plain() {
            let empty = String::new();
            assert(empty@ =~= Seq::<char>::empty());
            self.ex_command = Some(empty);
            return SettingsAction::Nothing;
        }
        match self.focus {
            Focus::Top { cursor } => self.handle_top_key(k, cursor),
            Focus::Section { section, cursor, editing } => {
                if editing {
                    self.handle_edit_key(k, section, cursor)
                } else {
                    self.handle_section_key(k, section, cursor)
                }
            },
        }
    }

    fn handle_top_key(&mut self, k: KeyEvent, cursor: usize) -> (r: SettingsAction)
        ensures
            final(self)@ == old(self)@.top_keyed(k, cursor as int),
            r == (if k.code == KeyCode::Esc || k.code == KeyCode::Char('q') {
                SettingsAction::Close { save: true }
            } else {
                SettingsAction::Nothing
            }),
    {
        match k.code {
            KeyCode::Esc | KeyCode::Char('q') => {
                return SettingsAction::Close { save: true };
            },
            KeyCode::Char('j') | KeyCode::Down => {
                self.focus = Focus::Top { cursor: step_down(cursor, TOP_COUNT) };
            },
            KeyCode::Char('k') | KeyCode::Up => {
                self.focus = Focus::Top { cursor: step_up(cursor) };
            },
            KeyCode::Enter | KeyCode::Char('l') | KeyCode::Right => {
                if cursor < TOP_COUNT {
                    self.focus = Focus::Section {
                        section: Section::Gitlab,
                        cursor: 0,
                        editing: false,
                    };
                }
            },
            _ => {},
        }
        SettingsAction::Nothing
    }

    fn handle_section_key(&mut self, k: KeyEvent, section: Section, cursor: usize) -> (r:
        SettingsAction)
        ensures
            final(self)@ == old(self)@.section_keyed(k, cursor as int),
            r == SettingsAction::Nothing,
    {
        match k.code {
            KeyCode::Esc | KeyCode::Char('h') | KeyCode::Char('q') | KeyCode::Left => {
                self.focus = Focus::Top { cursor: 0 };
            },
            KeyCode::Char('j') | KeyCode::Down => {
                let next: usize = step_down(cursor, FIELD_COUNT);
                self.focus = Focus::Section { section, cursor: next, editing: false };
            },
            KeyCode::Char('k') | KeyCode::Up => {
                let next: usize = step_up(cursor);
                self.focus = Focus::Section { section, cursor: next, editing: false };
            },
            KeyCode::Enter | KeyCode::Char(' ') => self.activate(section, cursor),
            KeyCode::Char('i') | KeyCode::Char('a') => {
                match section_field_kind(section, cursor) {
                    Some(FieldKind::Text) | Some(FieldKind::Secret) => {
                        self.focus = Focus::Section { section, cursor, editing: true };
                    },
                    _ => {},
                }
            },
            _ => {},
        }
        SettingsAction::Nothing
    }

    fn handle_edit_key(&mut self, k: KeyEvent, section: Section, cursor: usize) -> (r:
        SettingsAction)
        ensures
            final(self)@ == old(self)@.edit_keyed(k, cursor as int),
            r == SettingsAction::Nothing,
    {
        match k.code {
            KeyCode::Esc | KeyCode::Enter => {
                self.focus = Focus::Section { section, cursor, editing: false };
            },
            KeyCode::Backspace => {
                if k.modifiers.control {
                    delete_word(&mut self.settings, section, cursor);
                } else {
                    pop_char(&mut self.settings, section, cursor);
                }
                self.dirty = true;
            },
            KeyCode::Char(c) => {
                push_char(&mut self.settings, section, cursor, c);
                self.dirty = true;
            },
            _ => {},
        }
        SettingsAction::Nothing
    }

    fn handle_ex_key(&mut self, k: KeyEvent) -> (r: SettingsAction)
        requires
            old(self)@.command is Some,
        ensures
            final(self)@ == old(self)@.command_keyed(k, old(self)@.command->0),
            r == (if k.code == KeyCode::Enter {
                command_action(text::trimmed(old(self)@.command->0))
            } else {
                SettingsAction::Nothing
            }),
    {
        match k.code {
            KeyCode::Esc => {
                self.ex_command = None;
            },
            KeyCode::Enter => {
                if let Some(cmd) = self.ex_command.take() {
                    let word = text::trim(cmd.as_str());
                    if text::same_text(word, "w") {
                        return SettingsAction::Save;
                    } else if text::same_text(word, "wq") || text::same_text(word, "x") {
                        return SettingsAction::Close { save: true };
                    } else if text::same_text(word, "q") {
                        return SettingsAction::Close { save: false };
                    }
                }
            },
            KeyCode::Backspace => {
                if let Some(cmd) = self.ex_command.take() {
                    let mut cmd = cmd;
                    if cmd.pop().is_some() {
                        self.ex_command = Some(cmd);
                    }
                }
            },
            KeyCode::Char(c) => {
                if let Some(cmd) = self.ex_command.take() {
                    let mut cmd = cmd;
                    cmd.push(c);
                    self.ex_command = Some(cmd);
                }
            },
            _ => {},
        }
        SettingsAction::Nothing
    }

    fn activate(&mut self, section: Section, cursor: usize)
        ensures
            final(self)@ == old(self)@.activated(cursor as int),
    {
        match section_field_kind(section, cursor) {
            Some(FieldKind::Toggle) => {
                toggle_field(&mut self.settings, section, cursor);
                self.dirty = true;
            },
            Some(FieldKind::Text) | Some(FieldKind::Secret) => {
                self.focus = Focus::Section { section, cursor, editing: true };
            },
            None => {},
        }
    }
}

// ---------------------------------------------------------------------------
// The screen
// ---------------------------------------------------------------------------

/// What stands before an item: a mark where the cursor is.
pub open spec fn marker_of(focused: bool) -> Seq<char> {
    if focused {
        " › "@
    } else {
        "   "@
    }
}

/// The row of the section at the top.
pub open spec fn top_row(focused: bool) -> Seq<SpanView> {
    let style = if focused {
        Style::emphasised(Colour::Yellow)
    } else {
        Style::default_style()
    };
    seq![
        style::span_of(marker_of(focused), style),
        style::span_of("GitLab integration  ›"@, style),
    ]
}

/// The row of field `i`. A secret is shown as dots, unless it is edited.
pub open spec fn field_row(g: GitlabView, i: int, focused: bool, editing: bool) -> Seq<SpanView> {
    let label_style = if focused {
        Style::emphasised(Colour::Yellow)
    } else {
        Style::coloured(Colour::DarkGray)
    };
    let value = value_of(g, i);
    seq![
        style::span_of(marker_of(focused), label_style),
        style::span_of(text::left_aligned(label_of(i), LABEL_WIDTH as nat) + "  "@, label_style),
        style::span_of(
            if kind_of(i) == Some(FieldKind::Secret) && !(editing && focused) {
                text::repeated('•', value.len())
            } else {
                value
            },
            if editing && focused {
                Style { fg: Some(Colour::Black), bg: Some(Colour::Yellow), bold: false }
            } else {
                Style::default_style()
            },
        ),
    ]
}

/// The rows of the screen.
pub open spec fn screen_rows(s: SettingsView) -> Seq<Seq<SpanView>> {
    match s.focus {
        Focus::Top { cursor } => seq![top_row(cursor == 0)],
        Focus::Section { section, cursor, editing } => Seq::new(
            FIELD_COUNT as nat,
            |i: int| field_row(s.gitlab, i, i == cursor, editing),
        ),
    }
}

/// The title of the screen.
pub open spec fn screen_title(s: SettingsView) -> Seq<char> {
    match s.focus {
        Focus::Top { .. } => " Settings "@,
        Focus::Section { .. } => " Settings › "@ + "GitLab"@ + " "@,
    }
}

fn marker(focused: bool) -> (r: &'static str)
    ensures
        r@ == marker_of(focused),
{
    if focused {
        " › "
    } else {
        "   "
    }
}

impl SettingsState {
    /// The title of the screen.
    pub fn title(&self) -> (r: String)
        ensures
            r@ == screen_title(self@),
    {
        match self.focus {
            Focus::Top { cursor } => " Settings ".to_owned(),
            Focus::Section { section, cursor, editing } => {
                let mut out = " Settings › ".to_owned();
                out.append(section_title(section));
                out.append(" ");
                out
            },
        }
    }

    /// The rows of the screen.
    pub fn rows(&self) -> (r: Vec<Line>)
        ensures
            style::lines_view(r@) == screen_rows(self@),
    {
        match self.focus {
            Focus::Top { cursor } => self.top_rows(cursor),
            Focus::Section { section, cursor, editing } => self.section_rows(
                section,
                cursor,
                editing,
            ),
        }
    }

    fn top_rows(&self, cursor: usize) -> (r: Vec<Line>)
        ensures
            style::lines_view(r@) == seq![top_row(cursor == 0)],
    {
        let focused = cursor == 0;
        let st = if focused {
            Style::bold(Colour::Yellow)
        } else {
            Style::plain()
        };
        let mut out: Vec<Line> = Vec::new();
        assert(style::lines_view(out@) =~= Seq::<Seq<SpanView>>::empty());
        style::add_line(
            &mut out,
            Line::of_two(
                Span::styled(marker(focused), st),
                Span::styled("GitLab integration  ›", st),
            ),
        );
        assert(style::lines_view(out@) =~= seq![top_row(cursor == 0)]);
        out
    }

    fn section_rows(&self, section: Section, cursor: usize, editing: bool) -> (r: Vec<Line>)
        ensures
            style::lines_view(r@) == Seq::new(
                FIELD_COUNT as nat,
                |i: int| field_row(self@.gitlab, i, i == cursor, editing),
            ),
    {
        let ghost all = Seq::new(
            FIELD_COUNT as nat,
            |i: int| field_row(self@.gitlab, i, i == cursor, editing),
        );
        let mut out: Vec<Line> = Vec::new();
        assert(style::lines_view(out@) =~= all.take(0));
        let mut i: usize = 0;
        while i < FIELD_COUNT
            invariant
                i <= FIELD_COUNT,
                all == Seq::new(
                    FIELD_COUNT as nat,
                    |i: int| field_row(self@.gitlab, i, i == cursor, editing),
                ),
                style::lines_view(out@) == all.take(i as int),
            decreases FIELD_COUNT - i,
        {
            let line = self.field_line(section, i, i == cursor, editing);
            assert(all[i as int] == line@);
            style::add_line(&mut out, line);
            assert(all.take(i + 1) =~= all.take(i as int).push(line@));
            i += 1;
        }
        assert(all.take(i as int) =~= all);
        out
    }

    fn field_line(&self, section: Section, i: usize, focused: bool, editing: bool) -> (r: Line)
        ensures
            r@ == field_row(self@.gitlab, i as int, focused, editing),
    {
        let label_style = if focused {
            Style::bold(Colour::Yellow)
        } else {
            Style::colour(Colour::DarkGray)
        };
        let raw = field_value(&self.settings, section, i);
        let hidden = match section_field_kind(section, i) {
            Some(FieldKind::Secret) => !(editing && focused),
            _ => false,
        };
        let display = if hidden {
            text::repeat_char('•', raw.as_str().unicode_len())
        } else {
            raw
        };
        let value_style = if editing && focused {
            Style { fg: Some(Colour::Black), bg: Some(Colour::Yellow), bold: false }
        } else {
            Style::plain()
        };
        let label = style::concat(
            text::align_left(field_label(i), LABEL_WIDTH).as_str(),
            "  ",
        );
        let r = Line::of_two(
            Span::styled(marker(focused), label_style),
            Span::styled(label.as_str(), label_style),
        ).with(Span::styled(display.as_str(), value_style));
        assert(r@ =~= field_row(self@.gitlab, i as int, focused, editing));
        r
    }
}

// ---------------------------------------------------------------------------
// Laws
// ---------------------------------------------------------------------------

/// No key leads off the screen, or to editing what is no text.
pub proof fn lemma_stays_valid(s: SettingsView, k: KeyEvent)
    requires
        s.valid(),
    ensures
        s.keyed(k).valid(),
{
}

/// A switch switched twice is as it was, but the settings count as changed.
pub proof fn lemma_toggle_twice(s: SettingsView, k: KeyEvent)
    requires
        s.command is None,
        s.focus == field_focus(0, false),
        k.code == KeyCode::Enter || k.code == KeyCode::Char(' '),
    ensures
        s.keyed(k).gitlab == (GitlabView { enabled: !s.gitlab.enabled, ..s.gitlab }),
        s.keyed(k).keyed(k) == (SettingsView { dirty: true, ..s }),
{
}

/// The fields that hold text are those of texts and of secrets. Such a field shows
/// what is put in it, and no other field changes.
pub proof fn lemma_text_field(g: GitlabView, i: int, text: Seq<char>, other: int)
    ensures
        is_text(i) == (kind_of(i) == Some(FieldKind::Text) || kind_of(i) == Some(
            FieldKind::Secret,
        )),
        is_text(i) ==> value_of(with_text(g, i, text), i) == text,
        other != i ==> value_of(with_text(g, i, text), other) == value_of(g, other),
        !is_text(i) ==> with_text(g, i, text) == g,
{
}

/// A character put at the end of a field and taken off again leaves the settings
/// as they were.
pub proof fn lemma_pop_after_push(g: GitlabView, i: int, c: char)
    ensures
        ({
            let pushed = with_text(g, i, value_of(g, i).push(c));
            with_text(pushed, i, popped(value_of(pushed, i))) == g
        }),
{
    let value = value_of(g, i);
    assert(value.push(c).drop_last() =~= value);
}

/// A character typed into a field and taken back leaves it as it was, but the
/// settings count as changed.
pub proof fn lemma_type_and_take_back(s: SettingsView, k: KeyEvent, back: KeyEvent, cursor: int)
    requires
        s.command is None,
        s.focus == field_focus(cursor, true),
        1 <= cursor < FIELD_COUNT,
        k.code is Char,
        back.code == KeyCode::Backspace,
        !back.modifiers.control,
    ensures
        value_of(s.keyed(k).gitlab, cursor) == value_of(s.gitlab, cursor).push(k.code->Char_0),
        s.keyed(k).keyed(back) == (SettingsView { dirty: true, ..s }),
{
    let value = value_of(s.gitlab, cursor);
    assert(value.push(k.code->Char_0).drop_last() =~= value);
}

/// A key changes no field but the one that the cursor is on, and the settings
/// then count as changed.
pub proof fn lemma_one_field_changes(s: SettingsView, k: KeyEvent, i: int)
    requires
        s.valid(),
        0 <= i < FIELD_COUNT,
        value_of(s.keyed(k).gitlab, i) != value_of(s.gitlab, i),
    ensures
        s.focus matches Focus::Section { cursor, .. } && cursor == i,
        s.keyed(k).dirty,
{
}

/// A secret is shown as dots wherever it is not edited: what is shown of two
/// tokens of the same length is the same.
pub proof fn lemma_secret_not_shown(a: SettingsView, b: SettingsView)
    requires
        a.focus == b.focus,
        b.gitlab == (GitlabView { token: b.gitlab.token, ..a.gitlab }),
        b.gitlab.token.len() == a.gitlab.token.len(),
        a.focus != field_focus(2, true),
    ensures
        screen_rows(a) == screen_rows(b),
{
    assert(screen_rows(a) =~= screen_rows(b));
}

/// At the top, `Enter`, `l` and the right arrow enter the section at its first field;
/// the other keys, but for the colon, change nothing.
pub proof fn lemma_top_keys(s: SettingsView, k: KeyEvent)
    requires
        s.command is None,
        s.focus == (Focus::Top { cursor: 0 }),
    ensures
        k.code == KeyCode::Enter || k.code == KeyCode::Char('l') || k.code == KeyCode::Right
            ==> s.keyed(k) == (SettingsView {
            focus: Focus::Section { section: Section::Gitlab, cursor: 0, editing: false },
            ..s
        }),
        k.code != KeyCode::Enter && k.code != KeyCode::Char('l') && k.code != KeyCode::Right
            && k.code != KeyCode::Char(':') ==> s.keyed(k) == s,
{
}

/// In the section, `j` and `k` and the arrows go through the four fields and stop at
/// the ends; `Esc`, `h`, `q` and the left arrow lead back to the top. `Enter` and the
/// space switch the first field and start editing the others, and `i` and `a` do the
/// latter alone. Any other key but the colon changes nothing.
pub proof fn lemma_section_keys(s: SettingsView, k: KeyEvent, n: usize)
    requires
        s.command is None,
        n <= 3,
        s.focus == (Focus::Section { section: Section::Gitlab, cursor: n, editing: false }),
    ensures
        ({
            let t = s.keyed(k);
            let code = k.code;
            if code == KeyCode::Char('j') || code == KeyCode::Down {
                t == (SettingsView {
                    focus: Focus::Section {
                        section: Section::Gitlab,
                        cursor: if n < 3 {
                            (n + 1) as usize
                        } else {
                            3
                        },
                        editing: false,
                    },
                    ..s
                })
            } else if code == KeyCode::Char('k') || code == KeyCode::Up {
                t == (SettingsView {
                    focus: Focus::Section {
                        section: Section::Gitlab,
                        cursor: if n > 0 {
                            (n - 1) as usize
                        } else {
                            0
                        },
                        editing: false,
                    },
                    ..s
                })
            } else if code == KeyCode::Esc || code == KeyCode::Char('h') || code == KeyCode::Char('q')
                || code == KeyCode::Left {
                t == (SettingsView { focus: Focus::Top { cursor: 0 }, ..s })
            } else if (code == KeyCode::Enter || code == KeyCode::Char(' ')) && n == 0 {
                t == (SettingsView {
                    gitlab: GitlabView { enabled: !s.gitlab.enabled, ..s.gitlab },
                    dirty: true,
                    ..s
                })
            } else if (code == KeyCode::Enter || code == KeyCode::Char(' ') || code
                == KeyCode::Char('i') || code == KeyCode::Char('a')) && n > 0 {
                t == (SettingsView {
                    focus: Focus::Section { section: Section::Gitlab, cursor: n, editing: true },
                    ..s
                })
            } else {
                code == KeyCode::Char(':') || t == s
            }
        }),
{
}

/// While a text is edited, a character goes to its end, whatever the modifiers, and
/// `Backspace` takes the last one off. `Esc` and `Enter` end the editing, and any
/// other key changes nothing.
pub proof fn lemma_edit_keys(s: SettingsView, k: KeyEvent, n: usize)
    requires
        s.command is None,
        1 <= n <= 3,
        s.focus == (Focus::Section { section: Section::Gitlab, cursor: n, editing: true }),
    ensures
        ({
            let t = s.keyed(k);
            let old_text = if n == 1 {
                s.gitlab.instance_url
            } else if n == 2 {
                s.gitlab.token
            } else {
                s.gitlab.username
            };
            let new_text = if n == 1 {
                t.gitlab.instance_url
            } else if n == 2 {
                t.gitlab.token
            } else {
                t.gitlab.username
            };
            &&& t.gitlab.enabled == s.gitlab.enabled
            &&& n != 1 ==> t.gitlab.instance_url == s.gitlab.instance_url
            &&& n != 2 ==> t.gitlab.token == s.gitlab.token
            &&& n != 3 ==> t.gitlab.username == s.gitlab.username
            &&& t.command is None
            &&& match k.code {
                KeyCode::Char(c) => new_text == old_text.push(c) && t.dirty && t.focus == s.focus,
                KeyCode::Backspace => {
                    &&& t.dirty
                    &&& t.focus == s.focus
                    &&& !k.modifiers.control && old_text.len() > 0 ==> new_text
                        == old_text.drop_last()
                    &&& !k.modifiers.control && old_text.len() == 0 ==> new_text == old_text
                    &&& k.modifiers.control ==> new_text == word_dropped(old_text)
                },
                KeyCode::Esc | KeyCode::Enter => t == (SettingsView {
                    focus: Focus::Section { section: Section::Gitlab, cursor: n, editing: false },
                    ..s
                }),
                _ => t == s,
            }
        }),
{
}

/// Dropping a word takes it and the white space behind it, and leaves all that stands
/// before it, white space included.
pub proof fn lemma_drop_word(rest: Seq<char>, word: Seq<char>, gap: Seq<char>)
    requires
        rest.len() == 0 || text::is_white(rest.last()),
        word.len() == 0 ==> rest.len() == 0,
        forall|i: int| 0 <= i < word.len() ==> !text::is_white(#[trigger] word[i]),
        forall|i: int| 0 <= i < gap.len() ==> text::is_white(#[trigger] gap[i]),
    ensures
        word_dropped(rest + word + gap) == rest,
{
    let head = rest + word;
    let all = rest + word + gap;
    assert forall|i: int| head.len() <= i < all.len() implies text::is_white(
        #[trigger] all[i],
    ) by {
        assert(all[i] == gap[i - head.len()]);
    }
    lemma_trim_right(all, head.len() as int);
    assert(all.take(head.len() as int) =~= head);
    if word.len() > 0 {
        assert(head.last() == word.last());
        assert(!text::is_white(word.last()));
    }
    assert(text::trim_right(head) == head);
    assert forall|i: int| rest.len() <= i < head.len() implies !text::is_white(
        #[trigger] head[i],
    ) by {
        assert(head[i] == word[i - rest.len()]);
    }
    lemma_before_last_word(head, rest.len() as int);
    assert(head.take(rest.len() as int) =~= rest);
}

/// The colon opens a command wherever no text is edited. What is typed then goes to
/// the command: characters to its end, `Backspace` takes the last one off and closes
/// an empty command, as `Esc` and `Enter` close any. The settings stay as they are.
pub proof fn lemma_command_keys(s: SettingsView, k: KeyEvent)
    ensures
        s.command is None && !s.editing() && k.code == KeyCode::Char(':') && k.modifiers.empty()
            ==> s.keyed(k) == (SettingsView { command: Some(Seq::empty()), ..s }),
        s.command matches Some(typed) ==> {
            let t = s.keyed(k);
            &&& t.gitlab == s.gitlab
            &&& t.focus == s.focus
            &&& t.dirty == s.dirty
            &&& match k.code {
                KeyCode::Char(c) => t.command == Some(typed.push(c)),
                KeyCode::Backspace => t.command == if typed.len() > 0 {
                    Some(typed.drop_last())
                } else {
                    None
                },
                KeyCode::Esc | KeyCode::Enter => t.command is None,
                _ => t.command == s.command,
            }
        },
{
}

/// What is done after a key. `Enter` carries out the command: `w` saves, `wq` and
/// `x` save and close, `q` closes without saving, and white space round the command
/// does not matter. Without a command, `Esc` and `q` at the top save and close.
/// Nothing is done after any other key.
pub proof fn lemma_actions(s: SettingsView, k: KeyEvent)
    ensures
        s.command matches Some(typed) ==> {
            let word = text::trimmed(typed);
            if k.code == KeyCode::Enter && word == seq!['w'] {
                s.action(k) == SettingsAction::Save
            } else if k.code == KeyCode::Enter && (word == seq!['w', 'q'] || word == seq!['x']) {
                s.action(k) == (SettingsAction::Close { save: true })
            } else if k.code == KeyCode::Enter && word == seq!['q'] {
                s.action(k) == (SettingsAction::Close { save: false })
            } else {
                s.action(k) == SettingsAction::Nothing
            }
        },
        s.command is None ==> s.action(k) == if s.focus is Top && (k.code == KeyCode::Esc || k.code
            == KeyCode::Char('q')) {
            SettingsAction::Close { save: true }
        } else {
            SettingsAction::Nothing
        },
{
    reveal_strlit("w");
    reveal_strlit("wq");
    reveal_strlit("x");
    reveal_strlit("q");
    assert("w"@ =~= seq!['w']);
    assert("wq"@ =~= seq!['w', 'q']);
    assert("x"@ =~= seq!['x']);
    assert("q"@ =~= seq!['q']);
    assert(seq!['w'][0] == 'w' && seq!['q'][0] == 'q' && seq!['x'][0] == 'x');
    assert(seq!['w'].len() == 1 && seq!['w', 'q'].len() == 2);
}

/// The section shows a row for each of the four fields: a mark where the cursor is,
/// the label, and the value; the switch as a box, the token as dots unless it is
/// edited.
pub proof fn lemma_field_rows(s: SettingsView, n: usize, editing: bool, i: int)
    requires
        s.focus == (Focus::Section { section: Section::Gitlab, cursor: n, editing }),
        0 <= i < 4,
    ensures
        screen_rows(s).len() == 4,
        ({
            let row = screen_rows(s)[i];
            &&& row.len() == 3
            &&& row[0].text == if i == n {
                seq![' ', '›', ' ']
            } else {
                seq![' ', ' ', ' ']
            }
            &&& row[1].text == text::left_aligned(
                if i == 0 {
                    "Enabled"@
                } else if i == 1 {
                    "Instance URL"@
                } else if i == 2 {
                    "Personal Token"@
                } else {
                    "Username"@
                },
                14,
            ) + seq![' ', ' ']
            &&& i == 0 ==> row[2].text == if s.gitlab.enabled {
                seq!['[', 'x', ']']
            } else {
                seq!['[', ' ', ']']
            }
            &&& i == 1 ==> row[2].text == s.gitlab.instance_url
            &&& i == 2 ==> row[2].text == if editing && n == 2 {
                s.gitlab.token
            } else {
                Seq::new(s.gitlab.token.len(), |j: int| '•')
            }
            &&& i == 3 ==> row[2].text == s.gitlab.username
            &&& (row[2].style.bg == Some(Colour::Yellow)) == (editing && i == n)
            &&& row[0].style.fg == Some(
                if i == n {
                    Colour::Yellow
                } else {
                    Colour::DarkGray
                },
            )
        }),
{
    reveal_strlit(" › ");
    reveal_strlit("   ");
    reveal_strlit("  ");
    reveal_strlit("[x]");
    reveal_strlit("[ ]");
    assert(" › "@ =~= seq![' ', '›', ' ']);
    assert("   "@ =~= seq![' ', ' ', ' ']);
    assert("  "@ =~= seq![' ', ' ']);
    assert("[x]"@ =~= seq!['[', 'x', ']']);
    assert("[ ]"@ =~= seq!['[', ' ', ']']);
    assert(text::repeated('•', s.gitlab.token.len()) =~= Seq::new(
        s.gitlab.token.len(),
        |j: int| '•',
    ));
}

/// The screen starts at the top with nothing changed. At the top it shows the one section,
/// marked; in the section the title names it. The mode is called after whether a text is
/// edited.
pub proof fn lemma_screen_head(
    settings: Settings,
    new: SettingsState,
    s: &SettingsState,
    title: String,
    mode: &'static str,
)
    requires
        call_ensures(SettingsState::mode_label, (s,), mode),
        call_ensures(SettingsState::new, (settings,), new),
        call_ensures(SettingsState::title, (s,), title),
    ensures
        new@.gitlab == settings.gitlab@ && new@.focus == (Focus::Top { cursor: 0 }) && !new@.dirty
            && new@.command is None,
        (s@.focus matches Focus::Section { editing, .. } && editing) ==> mode@ == "EDIT"@,
        !(s@.focus matches Focus::Section { editing, .. } && editing) ==> mode@ == "NORMAL"@,
        s@.focus is Top ==> title@ == " Settings "@,
        s@.focus is Section ==> title@ == " Settings › "@ + "GitLab"@ + " "@,
        s@.focus == (Focus::Top { cursor: 0 }) ==> screen_rows(s@).len() == 1 && screen_rows(
            s@,
        )[0].len() == 2 && screen_rows(s@)[0][0].text == " › "@ && screen_rows(s@)[0][1].text
            == "GitLab integration  ›"@ && screen_rows(s@)[0][1].style.bold,
{
}

/// What a field holds: the first a switch, the third a secret, the others texts; there are
/// four. What a field shows is what the settings say.
pub proof fn lemma_fields(
    section: Section,
    idx: usize,
    kind: Option<FieldKind>,
    settings: &Settings,
    value: String,
)
    requires
        call_ensures(section_field_kind, (section, idx), kind),
        call_ensures(field_value, (settings, section, idx), value),
    ensures
        kind is Some == (idx < 4),
        idx == 0 ==> kind == Some(FieldKind::Toggle) && value@ == if settings.gitlab.enabled {
            "[x]"@
        } else {
            "[ ]"@
        },
        idx == 1 ==> kind == Some(FieldKind::Text) && value@ == settings.gitlab.instance_url@,
        idx == 2 ==> kind == Some(FieldKind::Secret) && value@ == settings.gitlab.token@,
        idx == 3 ==> kind == Some(FieldKind::Text) && value@ == settings.gitlab.username@,
{
}

} // verus!
