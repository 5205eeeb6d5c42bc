use alarm_clock::audio::{
    classify_custom_sound, discover_sounds_in, resolve_custom_sound, resolve_system_sound,
    sound_name_of, PlaybackBackend, ResolvedSound, SoundError, SoundIndex,
};

#[test]
fn classifies_native_and_ffmpeg_audio() {
    assert_eq!(
        classify_custom_sound("/tmp/sounds/alarm.MP3", true).unwrap(),
        PlaybackBackend::Native
    );
    assert_eq!(
        classify_custom_sound("/tmp/sounds/alarm.mp4", true).unwrap(),
        PlaybackBackend::Ffmpeg
    );
}

#[test]
fn every_native_extension_is_recognised() {
    for name in ["a.mp3", "a.WAV", "a.flac", "a.Ogg", "a.oga", "a.aiff", "a.AIF"] {
        assert_eq!(classify_custom_sound(name, true).unwrap(), PlaybackBackend::Native, "{name}");
    }
    for name in ["a", ".mp3", "a.mp3.gz", "dir.mp3/a", "a.m4a"] {
        assert_eq!(classify_custom_sound(name, true).unwrap(), PlaybackBackend::Ffmpeg, "{name}");
    }
    assert_eq!(classify_custom_sound("dir/a.mp3/", true).unwrap(), PlaybackBackend::Native);
}

#[test]
fn unreadable_sound_files_are_refused() {
    assert_eq!(
        classify_custom_sound("/missing.mp3", false),
        Err(SoundError::Unreadable("/missing.mp3".into()))
    );
    assert_eq!(
        resolve_custom_sound("/missing.mp3", false),
        Err(SoundError::Unreadable("/missing.mp3".into()))
    );
    assert_eq!(
        resolve_custom_sound("/a/b.mp4", true),
        Ok(ResolvedSound::Ffmpeg("/a/b.mp4".into()))
    );
    assert_eq!(
        resolve_custom_sound("/a/b.ogg", true),
        Ok(ResolvedSound::Native("/a/b.ogg".into()))
    );
}

#[test]
fn sound_names_are_file_stems() {
    assert_eq!(sound_name_of("/usr/share/sounds/Glass.aiff").as_deref(), Some("Glass"));
    assert_eq!(sound_name_of("/x/archive.tar.gz").as_deref(), Some("archive.tar"));
    assert_eq!(sound_name_of("/x/.hidden").as_deref(), Some(".hidden"));
    assert_eq!(sound_name_of("/x/plain").as_deref(), Some("plain"));
    assert_eq!(sound_name_of("/x/..").as_deref(), None);
    assert_eq!(sound_name_of("/").as_deref(), None);
}

fn index_of(files: &[&str]) -> SoundIndex {
    discover_sounds_in(&files.iter().map(|f| f.to_string()).collect())
}

fn entries(index: &SoundIndex) -> Vec<(String, String)> {
    (0..index.len()).map(|i| (index.name(i).to_string(), index.path(i).to_string())).collect()
}

#[test]
fn discovers_logical_sound_names() {
    let index = index_of(&["/tmp/s/Glass.aiff"]);
    assert_eq!(entries(&index), vec![("Glass".to_string(), "/tmp/s/Glass.aiff".to_string())]);
}

#[test]
fn index_keeps_names_in_order_and_first_path() {
    let index = index_of(&["/a/Ping.aiff", "/a/Glass.aiff", "/b/Glass.wav", "/b/bell.oga", "/a/.."]);
    assert_eq!(
        entries(&index),
        vec![
            ("Glass".to_string(), "/a/Glass.aiff".to_string()),
            ("Ping".to_string(), "/a/Ping.aiff".to_string()),
            ("bell".to_string(), "/b/bell.oga".to_string()),
        ]
    );
    let mut index = index;
    index.record("Glass".into(), "/c/Glass.mp3".into());
    assert_eq!(index.len(), 3);
    assert_eq!(index.path(0), "/a/Glass.aiff");
    index.record("Basso".into(), "/c/Basso.mp3".into());
    assert_eq!(index.name(0), "Basso");
}

#[test]
fn system_sound_prefers_name_then_alarm_like_then_bell() {
    let index = index_of(&[
        "/s/phone-incoming-call.oga",
        "/s/complete.oga",
        "/s/Alarm-Clock-Elapsed.oga",
        "/s/glass.aiff",
    ]);
    assert_eq!(
        resolve_system_sound(&index, "Glass"),
        ResolvedSound::Native("/s/glass.aiff".into())
    );
    assert_eq!(
        resolve_system_sound(&index, "Sosumi"),
        ResolvedSound::Native("/s/Alarm-Clock-Elapsed.oga".into())
    );
    let quiet = index_of(&["/s/phone.oga", "/s/bell.oga"]);
    assert_eq!(resolve_system_sound(&quiet, "Glass"), ResolvedSound::TerminalBell);
    let notify = index_of(&["/s/message-new-instant.oga", "/s/NOTIFICATION.oga"]);
    assert_eq!(
        resolve_system_sound(&notify, "Glass"),
        ResolvedSound::Native("/s/NOTIFICATION.oga".into())
    );
}

#[test]
fn alarm_is_preferred_over_complete_over_notification() {
    let index = index_of(&["/s/complete-x.oga", "/s/x-alarm.oga"]);
    assert_eq!(
        resolve_system_sound(&index, "Glass"),
        ResolvedSound::Native("/s/x-alarm.oga".into())
    );
    let index = index_of(&["/s/a-notification.oga", "/s/b-COMPLETE.oga"]);
    assert_eq!(
        resolve_system_sound(&index, "Glass"),
        ResolvedSound::Native("/s/b-COMPLETE.oga".into())
    );
}
