//! Per-account settings blob: the structured preferences stored,
//! JSON-serialized, alongside each account row.

use vstd::prelude::*;

verus! {

/// Colour theme of the app.
#[derive(Debug, Clone, Copy)]
pub enum Theme {
    Light,
    Dark,
    Black,
}

/// The theme chosen when none is stored.
pub fn default_theme() -> (r: Theme)
    ensures
        r is Dark,
{
    Theme::Dark
}

/// The default used for settings flags that are on unless stored.
pub fn default_true() -> (r: bool)
    ensures
        r,
{
    true
}

/// The default used for settings flags that are off unless stored.
pub fn default_false() -> (r: bool)
    ensures
        !r,
{
    false
}

/// Default video quality for a user.
#[derive(Debug, Clone, Copy)]
pub enum DefaultVideoQuality {
    /// Play the original stream untranscoded.
    DirectPlay,
    /// A fixed resolution and bitrate.
    Resolution(u64, u64),
}

/// Structured preferences of one account.
#[derive(Debug, Clone)]
pub struct UserSettings {
    /// Theme of the app.
    pub theme: Theme,
    /// Whether the sidebar is collapsed.
    pub is_sidebar_compact: bool,
    pub show_card_names: bool,
    /// If set, the file browser starts here instead of `/`.
    pub filebrowser_default_path: Option<String>,
    pub filebrowser_list_view: bool,
    /// Preferred subtitle language.
    pub default_subtitle_language: Option<String>,
    /// Preferred audio-track language.
    pub default_audio_language: Option<String>,
    /// Default video quality for the user.
    pub default_video_quality: DefaultVideoQuality,
    /// Any other external arguments, as key/value pairs.
    pub external_args: Vec<(String, String)>,
    /// Whether hovercards are shown.
    pub show_hovercards: bool,
}

/// Mathematical value of a settings blob.
#[verifier::ext_equal]
pub ghost struct UserSettingsView {
    pub theme: Theme,
    pub is_sidebar_compact: bool,
    pub show_card_names: bool,
    pub filebrowser_default_path: Option<Seq<char>>,
    pub filebrowser_list_view: bool,
    pub default_subtitle_language: Option<Seq<char>>,
    pub default_audio_language: Option<Seq<char>>,
    pub default_video_quality: DefaultVideoQuality,
    pub external_args: Seq<(Seq<char>, Seq<char>)>,
    pub show_hovercards: bool,
}

pub open spec fn opt_str_view(o: Option<String>) -> Option<Seq<char>> {
    match o {
        Some(s) => Some(s@),
        None => None,
    }
}

impl View for UserSettings {
    type V = UserSettingsView;

    open spec fn view(&self) -> UserSettingsView {
        UserSettingsView {
            theme: self.theme,
            is_sidebar_compact: self.is_sidebar_compact,
            show_card_names: self.show_card_names,
            filebrowser_default_path: opt_str_view(self.filebrowser_default_path),
            filebrowser_list_view: self.filebrowser_list_view,
            default_subtitle_language: opt_str_view(self.default_subtitle_language),
            default_audio_language: opt_str_view(self.default_audio_language),
            default_video_quality: self.default_video_quality,
            external_args: self.external_args@.map_values(|p: (String, String)| (p.0@, p.1@)),
            show_hovercards: self.show_hovercards,
        }
    }
}

fn clone_opt_str(o: &Option<String>) -> (r: Option<String>)
    ensures
        opt_str_view(r) == opt_str_view(*o),
{
    match o {
        Some(s) => Some(s.clone()),
        None => None,
    }
}

impl UserSettings {
    /// A copy with the same mathematical value.
    pub fn duplicate(&self) -> (r: Self)
        ensures
            r@ == self@,
    {
        let mut external_args: Vec<(String, String)> = Vec::new();
        let mut i: usize = 0;
        while i < self.external_args.len()
            invariant
                i <= self.external_args.len(),
                external_args.len() == i,
                forall|j: int|
                    0 <= j < i ==> external_args@[j].0@ == self.external_args@[j].0@
                        && external_args@[j].1@ == self.external_args@[j].1@,
            decreases self.external_args.len() - i,
        {
            let p = &self.external_args[i];
            external_args.push((p.0.clone(), p.1.clone()));
            i += 1;
        }
        let r = Self {
            theme: self.theme,
            is_sidebar_compact: self.is_sidebar_compact,
            show_card_names: self.show_card_names,
            filebrowser_default_path: clone_opt_str(&self.filebrowser_default_path),
            filebrowser_list_view: self.filebrowser_list_view,
            default_subtitle_language: clone_opt_str(&self.default_subtitle_language),
            default_audio_language: clone_opt_str(&self.default_audio_language),
            default_video_quality: self.default_video_quality,
            external_args,
            show_hovercards: self.show_hovercards,
        };
        proof {
            assert(r@.external_args =~= self@.external_args);
            assert(r@ =~= self@);
        }
        r
    }
}

impl Default for UserSettings {
    fn default() -> (r: Self)
        ensures
            r.theme is Dark,
            !r.is_sidebar_compact,
            r.show_card_names,
            r.filebrowser_default_path is None,
            r.filebrowser_list_view,
            r.default_subtitle_language is Some,
            r.default_subtitle_language.unwrap()@ == "english"@,
            r.default_audio_language is Some,
            r.default_audio_language.unwrap()@ == "english"@,
            r.default_video_quality is DirectPlay,
            r.external_args@.len() == 0,
            r.show_hovercards,
    {
        Self {
            theme: Theme::Dark,
            is_sidebar_compact: false,
            show_card_names: true,
            filebrowser_default_path: None,
            filebrowser_list_view: true,
            default_subtitle_language: Some("english".to_owned()),
            default_audio_language: Some("english".to_owned()),
            external_args: Vec::new(),
            show_hovercards: true,
            default_video_quality: DefaultVideoQuality::DirectPlay,
        }
    }
}

} // verus!
