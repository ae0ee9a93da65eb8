use std::cell::RefCell;

use minute::error::MinuteError;
use minute::settings::{apply_and_save, apply_patch, copy_settings, resolve_stt_model, Settings, SettingsPatch};

#[test]
fn default_settings_matches_the_mocks_initial_toggle_states() {
    let settings = Settings::default();
    assert_eq!(settings.stt_model, None);
    assert_eq!(settings.llm_model, None);
    assert!(settings.delete_audio_after_30d);
    assert!(!settings.meeting_detection);
}

#[test]
fn apply_patch_with_all_fields_overwrites_every_field() {
    let mut settings = Settings::default();
    let patch = SettingsPatch {
        stt_model: Some("whisper-medium".to_string()),
        llm_model: Some("gemma-4-e4b".to_string()),
        delete_audio_after_30d: Some(false),
        meeting_detection: Some(true),
    };
    apply_patch(&mut settings, patch);
    assert_eq!(settings.stt_model, Some("whisper-medium".to_string()));
    assert_eq!(settings.llm_model, Some("gemma-4-e4b".to_string()));
    assert!(!settings.delete_audio_after_30d);
    assert!(settings.meeting_detection);
}

#[test]
fn apply_patch_with_only_one_field_leaves_the_rest_unchanged() {
    let mut settings = Settings {
        stt_model: Some("whisper-small".to_string()),
        llm_model: Some("qwen3.5-4b".to_string()),
        delete_audio_after_30d: true,
        meeting_detection: false,
    };
    let patch = SettingsPatch {
        stt_model: None,
        llm_model: None,
        delete_audio_after_30d: Some(false),
        meeting_detection: None,
    };
    apply_patch(&mut settings, patch);
    assert_eq!(settings.stt_model, Some("whisper-small".to_string()));
    assert_eq!(settings.llm_model, Some("qwen3.5-4b".to_string()));
    assert!(!settings.delete_audio_after_30d);
    assert!(!settings.meeting_detection);
}

#[test]
fn apply_patch_with_no_fields_is_a_no_op() {
    let original = Settings {
        stt_model: Some("whisper-small".to_string()),
        llm_model: None,
        delete_audio_after_30d: true,
        meeting_detection: true,
    };
    let mut settings = original.clone();
    apply_patch(&mut settings, SettingsPatch::default());
    assert_eq!(settings, original);
}

#[test]
fn resolve_stt_model_prefers_the_explicit_arg() {
    let settings = Settings {
        stt_model: Some("whisper-medium".to_string()),
        ..Settings::default()
    };
    let resolved = resolve_stt_model(Some("whisper-large-v3-turbo".to_string()), &settings);
    assert_eq!(resolved, "whisper-large-v3-turbo");
}

#[test]
fn resolve_stt_model_falls_back_to_settings_when_explicit_is_none() {
    let settings = Settings {
        stt_model: Some("whisper-medium".to_string()),
        ..Settings::default()
    };
    let resolved = resolve_stt_model(None, &settings);
    assert_eq!(resolved, "whisper-medium");
}

#[test]
fn resolve_stt_model_falls_back_to_whisper_small_when_both_are_none() {
    let resolved = resolve_stt_model(None, &Settings::default());
    assert_eq!(resolved, "whisper-small");
}

#[test]
fn applying_the_same_patch_twice_is_applying_it_once() {
    let patch = SettingsPatch {
        stt_model: None,
        llm_model: Some("qwen3.5-4b".to_string()),
        delete_audio_after_30d: Some(false),
        meeting_detection: None,
    };
    let mut once = Settings::default();
    apply_patch(&mut once, patch.clone());
    let mut twice = once.clone();
    apply_patch(&mut twice, patch);
    assert_eq!(once, twice);
}

#[test]
fn a_patch_never_clears_a_selected_model() {
    let mut settings = Settings {
        stt_model: Some("whisper-small".to_string()),
        llm_model: Some("qwen3.5-4b".to_string()),
        delete_audio_after_30d: true,
        meeting_detection: false,
    };
    apply_patch(&mut settings, SettingsPatch::default());
    assert!(settings.stt_model.is_some() && settings.llm_model.is_some());
}

/// A save that records what it was asked to write, standing in for the
/// settings file.
fn recording_save(disk: &RefCell<Option<Settings>>) -> impl FnOnce(&Settings) -> Result<(), MinuteError> + '_ {
    move |s: &Settings| {
        *disk.borrow_mut() = Some(s.clone());
        Ok(())
    }
}

#[test]
fn apply_and_save_commits_the_patch_to_both_disk_and_shared_state_on_success() {
    let mut shared = Settings::default();
    let disk = RefCell::new(None);
    let patch = SettingsPatch { stt_model: Some("whisper-medium".to_string()), ..SettingsPatch::default() };
    let returned = apply_and_save(&mut shared, patch, recording_save(&disk)).unwrap();
    assert!(!returned.meeting_detection);
    assert_eq!(returned.stt_model, Some("whisper-medium".to_string()));
    assert_eq!(shared, returned);
    assert_eq!(disk.borrow().clone(), Some(returned));
}

#[test]
fn apply_and_save_toggles_meeting_detection_and_persists_it() {
    let mut shared = Settings::default();
    let disk = RefCell::new(None);
    let patch = SettingsPatch { meeting_detection: Some(true), ..SettingsPatch::default() };
    let returned = apply_and_save(&mut shared, patch, recording_save(&disk)).unwrap();
    assert!(returned.meeting_detection);
    assert!(shared.meeting_detection);
    assert!(disk.borrow().as_ref().unwrap().meeting_detection);
}

#[test]
fn apply_and_save_leaves_shared_state_unchanged_when_the_save_fails() {
    let original = Settings { stt_model: Some("whisper-small".to_string()), ..Settings::default() };
    let mut shared = copy_settings(&original);
    let patch = SettingsPatch { stt_model: Some("whisper-medium".to_string()), ..SettingsPatch::default() };
    let result = apply_and_save(&mut shared, patch, |_s: &Settings| {
        Err(MinuteError::Other("settings root is not a directory".to_string()))
    });
    assert!(result.is_err());
    assert_eq!(result.unwrap_err().message(), "settings root is not a directory");
    assert_eq!(shared, original);
}
