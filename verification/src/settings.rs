//! App settings: model selections and the storage/privacy toggles, partial
//! updates to them, and which speech model a new recording uses.
use vstd::prelude::*;

use crate::error::MinuteError;
use crate::store::{join_path, joined};

verus! {

/// Persisted settings. A model id of `None` means no explicit selection has
/// been made yet.
#[derive(Debug, Clone, PartialEq)]
pub struct Settings {
    pub stt_model: Option<String>,
    pub llm_model: Option<String>,
    pub delete_audio_after_30d: bool,
    pub meeting_detection: bool,
}

/// A partial update to [`Settings`]: `None` leaves a field unchanged.
#[derive(Debug, Clone, PartialEq)]
pub struct SettingsPatch {
    pub stt_model: Option<String>,
    pub llm_model: Option<String>,
    pub delete_audio_after_30d: Option<bool>,
    pub meeting_detection: Option<bool>,
}

/// The content of [`Settings`].
pub struct SettingsView {
    pub stt_model: Option<Seq<char>>,
    pub llm_model: Option<Seq<char>>,
    pub delete_audio_after_30d: bool,
    pub meeting_detection: bool,
}

/// The content of a [`SettingsPatch`].
pub struct SettingsPatchView {
    pub stt_model: Option<Seq<char>>,
    pub llm_model: Option<Seq<char>>,
    pub delete_audio_after_30d: Option<bool>,
    pub meeting_detection: Option<bool>,
}

pub open spec fn opt_str_view(o: Option<String>) -> Option<Seq<char>> {
    match o {
        Some(s) => Some(s@),
        None => None,
    }
}

impl View for Settings {
    type V = SettingsView;

    open spec fn view(&self) -> SettingsView {
        SettingsView {
            stt_model: opt_str_view(self.stt_model),
            llm_model: opt_str_view(self.llm_model),
            delete_audio_after_30d: self.delete_audio_after_30d,
            meeting_detection: self.meeting_detection,
        }
    }
}

impl View for SettingsPatch {
    type V = SettingsPatchView;

    open spec fn view(&self) -> SettingsPatchView {
        SettingsPatchView {
            stt_model: opt_str_view(self.stt_model),
            llm_model: opt_str_view(self.llm_model),
            delete_audio_after_30d: self.delete_audio_after_30d,
            meeting_detection: self.meeting_detection,
        }
    }
}

/// The settings a first launch starts from: no model selected, audio
/// deleted after 30 days, meeting detection off.
pub open spec fn default_settings() -> SettingsView {
    SettingsView {
        stt_model: None,
        llm_model: None,
        delete_audio_after_30d: true,
        meeting_detection: false,
    }
}

/// The patch that changes nothing.
pub open spec fn empty_patch() -> SettingsPatchView {
    SettingsPatchView {
        stt_model: None,
        llm_model: None,
        delete_audio_after_30d: None,
        meeting_detection: None,
    }
}

impl Default for Settings {
    fn default() -> (r: Self)
        ensures
            r@ == default_settings(),
    {
        Settings {
            stt_model: None,
            llm_model: None,
            delete_audio_after_30d: true,
            meeting_detection: false,
        }
    }
}

impl Default for SettingsPatch {
    fn default() -> (r: Self)
        ensures
            r@ == empty_patch(),
    {
        SettingsPatch {
            stt_model: None,
            llm_model: None,
            delete_audio_after_30d: None,
            meeting_detection: None,
        }
    }
}

pub open spec fn pick<T>(new: Option<T>, old: T) -> T {
    match new {
        Some(v) => v,
        None => old,
    }
}

/// `s` with every field the patch carries overwritten by it.
pub open spec fn patched(s: SettingsView, p: SettingsPatchView) -> SettingsView {
    SettingsView {
        stt_model: match p.stt_model {
            Some(v) => Some(v),
            None => s.stt_model,
        },
        llm_model: match p.llm_model {
            Some(v) => Some(v),
            None => s.llm_model,
        },
        delete_audio_after_30d: pick(p.delete_audio_after_30d, s.delete_audio_after_30d),
        meeting_detection: pick(p.meeting_detection, s.meeting_detection),
    }
}

/// Merges `patch` into `settings`: only the fields the patch carries change.
pub fn apply_patch(settings: &mut Settings, patch: SettingsPatch)
    ensures
        final(settings)@ == patched(old(settings)@, patch@),
{
    if let Some(v) = patch.stt_model {
        settings.stt_model = Some(v);
    }
    if let Some(v) = patch.llm_model {
        settings.llm_model = Some(v);
    }
    if let Some(v) = patch.delete_audio_after_30d {
        settings.delete_audio_after_30d = v;
    }
    if let Some(v) = patch.meeting_detection {
        settings.meeting_detection = v;
    }
}

/// Applying the empty patch leaves settings as they were.
pub proof fn law_empty_patch_changes_nothing(s: SettingsView)
    ensures
        patched(s, empty_patch()) == s,
{
}

/// Applying the same patch twice is applying it once.
pub proof fn law_patch_is_idempotent(s: SettingsView, p: SettingsPatchView)
    ensures
        patched(patched(s, p), p) == patched(s, p),
{
}

/// A patch never clears a model selection: a selected model stays
/// selected (possibly a different one).
pub proof fn law_patch_never_clears_a_model(s: SettingsView, p: SettingsPatchView)
    ensures
        s.stt_model is Some ==> patched(s, p).stt_model is Some,
        s.llm_model is Some ==> patched(s, p).llm_model is Some,
{
}

fn copy_model(o: &Option<String>) -> (r: Option<String>)
    ensures
        opt_str_view(r) == opt_str_view(*o),
{
    match o {
        Some(v) => Some(v.clone()),
        None => None,
    }
}

/// A copy of `s`.
pub fn copy_settings(s: &Settings) -> (r: Settings)
    ensures
        r@ == s@,
{
    Settings {
        stt_model: copy_model(&s.stt_model),
        llm_model: copy_model(&s.llm_model),
        delete_audio_after_30d: s.delete_audio_after_30d,
        meeting_detection: s.meeting_detection,
    }
}

/// Applies `patch` to the shared settings `current` and persists the result
/// with `save`: the settings change, and the result is returned, only when
/// `save` succeeded; otherwise its error is returned and `current` is left
/// exactly as it was.
pub fn apply_and_save(
    current: &mut Settings,
    patch: SettingsPatch,
    save: impl FnOnce(&Settings) -> Result<(), MinuteError>,
) -> (r: Result<Settings, MinuteError>)
    requires
        forall|s: &Settings| save.requires((s,)),
    ensures
        match r {
            Ok(s) => s@ == patched(old(current)@, patch@) && final(current)@ == s@ && exists|
                res: Result<(), MinuteError>,
            | #![trigger call_ensures(save, (&s,), res)] res is Ok && call_ensures(save, (&s,), res),
            Err(e) => final(current)@ == old(current)@ && exists|c: Settings|
                #![trigger call_ensures(save, (&c,), Err::<(), MinuteError>(e))]
                c@ == patched(old(current)@, patch@) && call_ensures(
                    save,
                    (&c,),
                    Err::<(), MinuteError>(e),
                ),
        },
{
    let mut candidate = copy_settings(current);
    apply_patch(&mut candidate, patch);
    let saved = save(&candidate);
    match saved {
        Ok(()) => {
            assert(call_ensures(save, (&candidate,), saved));
            *current = copy_settings(&candidate);
            assert(current@ == candidate@);
            Ok(candidate)
        },
        Err(e) => Err(e),
    }
}

/// The settings file's name, at the app's data root.
pub const SETTINGS_FILE: &'static str = "settings.json";
pub const SETTINGS_TMP_FILE: &'static str = "settings.json.tmp";

/// `root/settings.json`.
pub fn settings_path(root: &str) -> (r: String)
    ensures
        r@ == joined(root@, SETTINGS_FILE@),
{
    join_path(root, SETTINGS_FILE)
}

/// Where the settings are written before they replace the file.
pub fn settings_tmp_path(root: &str) -> (r: String)
    ensures
        r@ == joined(root@, SETTINGS_TMP_FILE@),
{
    join_path(root, SETTINGS_TMP_FILE)
}

/// The speech model used when nothing else is chosen.
pub open spec fn fallback_stt_model() -> Seq<char> {
    "whisper-small"@
}

/// The speech model a new recording uses: the explicit id when given, else
/// the persisted selection, else `whisper-small`.
pub fn resolve_stt_model(explicit: Option<String>, settings: &Settings) -> (r: String)
    ensures
        r@ == match explicit {
            Some(e) => e@,
            None => match settings.stt_model {
                Some(s) => s@,
                None => fallback_stt_model(),
            },
        },
{
    match explicit {
        Some(e) => e,
        None => match &settings.stt_model {
            Some(s) => s.clone(),
            None => String::from_str("whisper-small"),
        },
    }
}

} // verus!
