use dim_core::settings::{
    default_false, default_theme, default_true, DefaultVideoQuality, Theme, UserSettings,
};

#[test]
fn flag_defaults() {
    assert!(default_true());
    assert!(!default_false());
    assert!(matches!(default_theme(), Theme::Dark));
}

#[test]
fn settings_default_values() {
    let s = UserSettings::default();
    assert!(matches!(s.theme, Theme::Dark));
    assert!(!s.is_sidebar_compact);
    assert!(s.show_card_names);
    assert!(s.filebrowser_default_path.is_none());
    assert!(s.filebrowser_list_view);
    assert_eq!(s.default_subtitle_language.as_deref(), Some("english"));
    assert_eq!(s.default_audio_language.as_deref(), Some("english"));
    assert!(matches!(s.default_video_quality, DefaultVideoQuality::DirectPlay));
    assert!(s.external_args.is_empty());
    assert!(s.show_hovercards);
}

#[test]
fn duplicate_preserves_the_blob() {
    let mut s = UserSettings::default();
    s.external_args.push(("key".to_string(), "value".to_string()));
    let d = s.duplicate();
    assert_eq!(d.external_args, s.external_args);
    assert_eq!(d.default_subtitle_language, s.default_subtitle_language);
}
