//! The settings.

use vstd::prelude::*;

verus! {

/// The settings.
#[derive(Debug, Clone, PartialEq, Eq)]
pub struct Settings {
    pub gitlab: GitlabConfig,
}

/// How to reach GitLab.
#[derive(Debug, Clone, PartialEq, Eq)]
pub struct GitlabConfig {
    pub enabled: bool,
    pub instance_url: String,
    pub token: String,
    pub username: String,
}

/// The view of a [`GitlabConfig`].
#[verifier::ext_equal]
pub struct GitlabView {
    pub enabled: bool,
    pub instance_url: Seq<char>,
    pub token: Seq<char>,
    pub username: Seq<char>,
}

impl GitlabView {
    /// Off, with nothing filled in.
    pub open spec fn off() -> GitlabView {
        GitlabView {
            enabled: false,
            instance_url: Seq::empty(),
            token: Seq::empty(),
            username: Seq::empty(),
        }
    }
}

impl View for GitlabConfig {
    type V = GitlabView;

    open spec fn view(&self) -> GitlabView {
        GitlabView {
            enabled: self.enabled,
            instance_url: self.instance_url@,
            token: self.token@,
            username: self.username@,
        }
    }
}

impl Default for GitlabConfig {
    fn default() -> (r: Self)
        ensures
            r@ == GitlabView::off(),
    {
        let r = GitlabConfig {
            enabled: false,
            instance_url: String::new(),
            token: String::new(),
            username: String::new(),
        };
        assert(r@ =~= GitlabView::off());
        r
    }
}

impl Default for Settings {
    fn default() -> (r: Self)
        ensures
            r.gitlab@ == GitlabView::off(),
    {
        Settings { gitlab: GitlabConfig::default() }
    }
}

} // verus!
