use alarm_clock::config::{Config, Overrides, SoundSetting};

#[test]
fn command_line_overrides_saved_configuration() {
    let saved = Config {
        font: "box".into(),
        notification: false,
        sound: SoundSetting::System("Glass".into()),
    };
    let resolved = saved.resolve(Overrides {
        font: Some("banner".into()),
        notification: Some(true),
        sound: None,
    });
    assert_eq!(resolved.font, "banner");
    assert!(resolved.notification);
    assert_eq!(resolved.sound, SoundSetting::System("Glass".into()));
}

#[test]
fn no_overrides_keep_saved_configuration() {
    let saved = Config {
        font: "compact".into(),
        notification: false,
        sound: SoundSetting::File("/music/a.mp3".into()),
    };
    let resolved = saved.resolve(Overrides::default());
    assert_eq!(resolved, saved);
}

#[test]
fn defaults_are_standard_font_notifications_and_glass() {
    let config = Config::default();
    assert_eq!(config.font, "standard");
    assert!(config.notification);
    assert_eq!(config.sound, SoundSetting::System("Glass".into()));
}

#[test]
fn command_line_options_become_overrides() {
    let overrides = Overrides::from_options(Some("box".into()), true, Some("/a/b.mp4".into()));
    assert_eq!(overrides.font.as_deref(), Some("box"));
    assert_eq!(overrides.notification, Some(false));
    assert_eq!(overrides.sound, Some(SoundSetting::File("/a/b.mp4".into())));
    let none = Overrides::from_options(None, false, None);
    assert_eq!(none.font, None);
    assert_eq!(none.notification, None);
    assert_eq!(none.sound, None);
    let saved = Config::default();
    assert!(saved.resolve(none).notification);
}
