//! The folder-per-note library's rules: where each file of a note lives,
//! marker edits, which audio file a note has, the recovery token of a
//! deleted note and when it restores, export names, moving the library,
//! toggling an action item, disk-usage figures and the diagnostics
//! snapshot.
use vstd::prelude::*;
use vstd::utf8::encode_utf8;

use crate::clock::{moment_tuple, parse_rfc3339, parsed_rfc3339, Rfc3339Moment};
use crate::digest::{sha256_hex, sha256_hex_of};
use crate::error::{error_message, MinuteError};
use crate::extract::{lead_matching, trail_keep};
use crate::model::{NoteStatus, SummaryDoc, SummaryDocView};
use crate::text::{
    char_is_alphanumeric, chars_of, decimal, is_alphanumeric_char, is_ws, is_whitespace,
    push_decimal, push_str, slice_vec, str_eq, string_from_chars, trim, trim_chars,
};

verus! {

// ---------------------------------------------------------------------------
// Markers
// ---------------------------------------------------------------------------

/// A marker's label, trimmed; an empty one is refused.
pub fn marker_label(label: &str) -> (r: Result<String, MinuteError>)
    ensures
        match r {
            Ok(s) => s@ == trim(label@) && trim(label@).len() > 0,
            Err(e) => trim(label@).len() == 0 && error_message(e) == "marker label cannot be empty"@,
        },
{
    let cs = chars_of(label);
    let t = trim_chars(&cs);
    if t.len() == 0 {
        return Err(MinuteError::Other(String::from_str("marker label cannot be empty")));
    }
    Ok(string_from_chars(&t))
}

/// The refusal of a marker index past the end of a note's `len` markers.
pub open spec fn marker_index_refusal(index: nat) -> Seq<char> {
    "marker index out of bounds: "@ + decimal(index)
}

/// Checks that `index` names one of a note's `len` markers.
pub fn marker_index(index: usize, len: usize) -> (r: Result<(), MinuteError>)
    ensures
        index < len ==> r is Ok,
        index >= len ==> (r matches Err(e) && error_message(e) == marker_index_refusal(index as nat)),
{
    if index >= len {
        let mut out: Vec<char> = Vec::new();
        push_str(&mut out, "marker index out of bounds: ");
        push_decimal(&mut out, index as u64);
        return Err(MinuteError::Other(string_from_chars(&out)));
    }
    Ok(())
}

/// Renames marker `index` of `labels` (a note's marker labels, in display
/// order) to the trimmed `label`; refused, with nothing changed, for an
/// empty label (checked first) or an index past the end.
pub fn update_marker_label(labels: &mut Vec<String>, index: usize, label: &str) -> (r: Result<
    (),
    MinuteError,
>)
    ensures
        trim(label@).len() == 0 ==> (r matches Err(e) && error_message(e)
            == "marker label cannot be empty"@ && final(labels)@ == old(labels)@),
        trim(label@).len() > 0 && index >= old(labels)@.len() ==> (r matches Err(e) && error_message(e)
            == marker_index_refusal(index as nat) && final(labels)@ == old(labels)@),
        trim(label@).len() > 0 && index < old(labels)@.len() ==> (r is Ok && final(labels)@.len()
            == old(labels)@.len() && final(labels)@[index as int]@ == trim(label@) && forall|j: int|
            0 <= j < old(labels)@.len() && j != index ==> #[trigger] final(labels)@[j] == old(
            labels,
        )@[j]),
{
    let t = match marker_label(label) {
        Ok(t) => t,
        Err(e) => return Err(e),
    };
    match marker_index(index, labels.len()) {
        Ok(()) => {},
        Err(e) => return Err(e),
    }
    labels.set(index, t);
    Ok(())
}

/// Deletes item `index` of a note's markers, in display order; refused,
/// with nothing changed, for an index past the end.
pub fn delete_marker<T>(markers: &mut Vec<T>, index: usize) -> (r: Result<(), MinuteError>)
    ensures
        index < old(markers)@.len() ==> (r is Ok && final(markers)@ == old(markers)@.remove(
            index as int,
        )),
        index >= old(markers)@.len() ==> (r matches Err(e) && error_message(e)
            == marker_index_refusal(index as nat) && final(markers)@ == old(markers)@),
{
    match marker_index(index, markers.len()) {
        Ok(()) => {},
        Err(e) => return Err(e),
    }
    markers.remove(index);
    Ok(())
}

// ---------------------------------------------------------------------------
// Paths
// ---------------------------------------------------------------------------

/// `part` appended to the path `base` the way `Path::join` does on Unix:
/// an absolute `part` replaces `base`; otherwise one `/` separates them
/// unless `base` is empty or already ends with one.
pub open spec fn joined(base: Seq<char>, part: Seq<char>) -> Seq<char> {
    if part.len() > 0 && part[0] == '/' {
        part
    } else if base.len() == 0 || base.last() == '/' {
        base + part
    } else {
        base + seq!['/'] + part
    }
}

/// Joins a path component onto a path.
pub fn join_path(base: &str, part: &str) -> (r: String)
    ensures
        r@ == joined(base@, part@),
{
    let b = chars_of(base);
    let p = chars_of(part);
    if p.len() > 0 && p[0] == '/' {
        return String::from_str(part);
    }
    let mut out = b;
    let n = out.len();
    if n > 0 && out[n - 1] != '/' {
        out.push('/');
    }
    let ghost before = out@;
    crate::text::push_chars(&mut out, &p);
    assert(out@ =~= joined(base@, part@));
    string_from_chars(&out)
}

/// The file names a note's folder holds.
pub const META_FILE: &'static str = "meta.json";
pub const META_TMP_FILE: &'static str = "meta.json.tmp";
pub const TRANSCRIPT_FILE: &'static str = "transcript.json";
pub const TRANSCRIPT_TMP_FILE: &'static str = "transcript.json.tmp";
pub const AUDIO_FILE: &'static str = "audio.wav";
pub const AUDIO_M4A_FILE: &'static str = "audio.m4a";
pub const AUDIO_M4A_TMP_FILE: &'static str = "audio.m4a.tmp";
pub const SUMMARY_FILE: &'static str = "summary.json";
pub const SUMMARY_TMP_FILE: &'static str = "summary.json.tmp";
pub const SPEAKERS_FILE: &'static str = "speakers.json";
pub const SPEAKERS_TMP_FILE: &'static str = "speakers.json.tmp";
pub const NOTE_MD_FILE: &'static str = "note.md";
pub const NOTE_MD_TMP_FILE: &'static str = "note.md.tmp";
pub const RECOVERY_DIR: &'static str = ".minute-trash";
pub const PROFILES_FILE: &'static str = "voice-profiles.json";

/// Where the library lives: `root/notes/<id>/...`, with the voice
/// profiles and the recovery area beside `notes/`.
#[derive(Debug, Clone)]
pub struct Store {
    root: String,
}

impl Store {
    /// The library root, as text.
    pub closed spec fn root_path(&self) -> Seq<char> {
        self.root@
    }

    /// A store over the library at `root`.
    pub fn new(root: String) -> (s: Self)
        ensures
            s.root_path() == root@,
    {
        Store { root }
    }

    /// The library root.
    pub fn root(&self) -> (r: &str)
        ensures
            r@ == self.root_path(),
    {
        self.root.as_str()
    }

    /// `root/notes`.
    pub fn notes_root(&self) -> (r: String)
        ensures
            r@ == joined(self.root_path(), "notes"@),
    {
        join_path(self.root.as_str(), "notes")
    }

    /// `root/notes/<id>`: the folder of one note.
    pub fn note_dir(&self, id: &str) -> (r: String)
        ensures
            r@ == joined(joined(self.root_path(), "notes"@), id@),
    {
        let notes = self.notes_root();
        join_path(notes.as_str(), id)
    }

    /// A file of one note's folder.
    pub fn note_file(&self, id: &str, file: &str) -> (r: String)
        ensures
            r@ == joined(joined(joined(self.root_path(), "notes"@), id@), file@),
    {
        let dir = self.note_dir(id);
        join_path(dir.as_str(), file)
    }

    /// The note's metadata file.
    pub fn meta_path(&self, id: &str) -> (r: String)
        ensures
            r@ == joined(joined(joined(self.root_path(), "notes"@), id@), META_FILE@),
    {
        self.note_file(id, META_FILE)
    }

    /// Where the metadata is written before it replaces the file.
    pub fn meta_tmp_path(&self, id: &str) -> (r: String)
        ensures
            r@ == joined(joined(joined(self.root_path(), "notes"@), id@), META_TMP_FILE@),
    {
        self.note_file(id, META_TMP_FILE)
    }

    /// The note's transcript file.
    pub fn transcript_path(&self, id: &str) -> (r: String)
        ensures
            r@ == joined(joined(joined(self.root_path(), "notes"@), id@), TRANSCRIPT_FILE@),
    {
        self.note_file(id, TRANSCRIPT_FILE)
    }

    /// Where the transcript is written before it replaces the file.
    pub fn transcript_tmp_path(&self, id: &str) -> (r: String)
        ensures
            r@ == joined(joined(joined(self.root_path(), "notes"@), id@), TRANSCRIPT_TMP_FILE@),
    {
        self.note_file(id, TRANSCRIPT_TMP_FILE)
    }

    /// The note's summary file.
    pub fn summary_path(&self, id: &str) -> (r: String)
        ensures
            r@ == joined(joined(joined(self.root_path(), "notes"@), id@), SUMMARY_FILE@),
    {
        self.note_file(id, SUMMARY_FILE)
    }

    /// Where the summary is written before it replaces the file.
    pub fn summary_tmp_path(&self, id: &str) -> (r: String)
        ensures
            r@ == joined(joined(joined(self.root_path(), "notes"@), id@), SUMMARY_TMP_FILE@),
    {
        self.note_file(id, SUMMARY_TMP_FILE)
    }

    /// The note's per-speaker voice embeddings.
    pub fn speaker_embeddings_path(&self, id: &str) -> (r: String)
        ensures
            r@ == joined(joined(joined(self.root_path(), "notes"@), id@), SPEAKERS_FILE@),
    {
        self.note_file(id, SPEAKERS_FILE)
    }

    /// The note rendered as Markdown.
    pub fn note_md_path(&self, id: &str) -> (r: String)
        ensures
            r@ == joined(joined(joined(self.root_path(), "notes"@), id@), NOTE_MD_FILE@),
    {
        self.note_file(id, NOTE_MD_FILE)
    }

    /// Where the Markdown is written before it replaces the file.
    pub fn note_md_tmp_path(&self, id: &str) -> (r: String)
        ensures
            r@ == joined(joined(joined(self.root_path(), "notes"@), id@), NOTE_MD_TMP_FILE@),
    {
        self.note_file(id, NOTE_MD_TMP_FILE)
    }

    /// Where the voice-profile list lives: beside `notes/`.
    pub fn voice_profiles_path(&self) -> (r: String)
        ensures
            r@ == joined(self.root_path(), PROFILES_FILE@),
    {
        join_path(self.root.as_str(), PROFILES_FILE)
    }

    /// Where a deleted note waits to be restored.
    pub fn recovery_path(&self, trash_name: &str) -> (r: String)
        ensures
            r@ == joined(joined(self.root_path(), RECOVERY_DIR@), trash_name@),
    {
        let dir = join_path(self.root.as_str(), RECOVERY_DIR);
        join_path(dir.as_str(), trash_name)
    }

    /// The path to reveal for a note: its audio file if one is on disk,
    /// else its folder.
    pub fn reveal_target(&self, id: &str, on_disk: AudioOnDisk) -> (r: String)
        ensures
            r@ == reveal_path(joined(joined(self.root_path(), "notes"@), id@), on_disk),
    {
        let dir = self.note_dir(id);
        reveal_target(dir.as_str(), on_disk)
    }

    /// Flips one action item of a note's summary (`stored`, as read from
    /// disk) to `done`. Refused when the note has no summary yet or `index`
    /// is past its action items.
    pub fn toggle_action_item(
        &self,
        id: &str,
        index: usize,
        done: bool,
        stored: Option<SummaryDoc>,
    ) -> (r: Result<SummaryDoc, MinuteError>)
        ensures
            match stored {
                None => r matches Err(e) && error_message(e) == "note "@ + id@
                    + " has no summary yet"@,
                Some(doc) => if index < doc.action_items@.len() {
                    r matches Ok(d) && d@ == toggled(doc@, index as int, done)
                } else {
                    r matches Err(e) && error_message(e) == "action item index "@ + decimal(
                        index as nat,
                    ) + " out of bounds for note "@ + id@ + " ("@ + decimal(
                        doc.action_items@.len(),
                    ) + " item(s))"@
                },
            },
    {
        match stored {
            None => {
                let mut out: Vec<char> = Vec::new();
                push_str(&mut out, "note ");
                push_str(&mut out, id);
                push_str(&mut out, " has no summary yet");
                Err(MinuteError::Other(string_from_chars(&out)))
            },
            Some(mut doc) => {
                let count = doc.action_items.len();
                if index >= count {
                    let mut out: Vec<char> = Vec::new();
                    push_str(&mut out, "action item index ");
                    push_decimal(&mut out, index as u64);
                    push_str(&mut out, " out of bounds for note ");
                    push_str(&mut out, id);
                    push_str(&mut out, " (");
                    push_decimal(&mut out, count as u64);
                    push_str(&mut out, " item(s))");
                    return Err(MinuteError::Other(string_from_chars(&out)));
                }
                let ghost before = doc@;
                let text = doc.action_items[index].text.clone();
                doc.action_items.set(index, crate::model::ActionItem { text, done });
                assert(doc@.action_items =~= toggled(before, index as int, done).action_items);
                Ok(doc)
            },
        }
    }

    /// Disk usage of one note, from its folder's total bytes and its
    /// audio file's share.
    pub fn note_storage_stats(&self, total_bytes: u64, audio_bytes: u64) -> (r: NoteStorageStats)
        ensures
            r.total_bytes == total_bytes,
            r.audio_bytes == audio_bytes,
            r.document_bytes == if total_bytes >= audio_bytes {
                total_bytes - audio_bytes
            } else {
                0
            },
    {
        NoteStorageStats {
            total_bytes,
            audio_bytes,
            document_bytes: if total_bytes >= audio_bytes {
                total_bytes - audio_bytes
            } else {
                0
            },
        }
    }
}

/// The summary with action item `index` set to `done`.
pub open spec fn toggled(doc: SummaryDocView, index: int, done: bool) -> SummaryDocView {
    SummaryDocView {
        action_items: doc.action_items.update(
            index,
            crate::model::ActionItemView { text: doc.action_items[index].text, done },
        ),
        ..doc
    }
}

// ---------------------------------------------------------------------------
// Which audio file a note has
// ---------------------------------------------------------------------------

/// Which of a note's two possible audio files are on disk.
#[derive(Clone, Copy, Debug, PartialEq, Eq, Structural)]
pub struct AudioOnDisk {
    pub wav: bool,
    pub m4a: bool,
}

/// The audio file of a note folder: `audio.wav` when present, else
/// `audio.m4a`, else none.
pub open spec fn audio_file(note_dir: Seq<char>, on_disk: AudioOnDisk) -> Option<Seq<char>> {
    if on_disk.wav {
        Some(joined(note_dir, AUDIO_FILE@))
    } else if on_disk.m4a {
        Some(joined(note_dir, AUDIO_M4A_FILE@))
    } else {
        None
    }
}

/// The path to reveal for a note folder: its audio file, else the folder.
pub open spec fn reveal_path(note_dir: Seq<char>, on_disk: AudioOnDisk) -> Seq<char> {
    match audio_file(note_dir, on_disk) {
        Some(p) => p,
        None => note_dir,
    }
}

/// The note folder's audio file, whichever of the two names is on disk
/// (the WAV first).
pub fn existing_audio_file(note_dir: &str, on_disk: AudioOnDisk) -> (r: Option<String>)
    ensures
        match audio_file(note_dir@, on_disk) {
            Some(p) => r matches Some(s) && s@ == p,
            None => r is None,
        },
{
    if on_disk.wav {
        Some(join_path(note_dir, AUDIO_FILE))
    } else if on_disk.m4a {
        Some(join_path(note_dir, AUDIO_M4A_FILE))
    } else {
        None
    }
}

/// What to reveal for a note folder: its audio file if one exists, else the
/// folder itself.
pub fn reveal_target(note_dir: &str, on_disk: AudioOnDisk) -> (r: String)
    ensures
        r@ == reveal_path(note_dir@, on_disk),
{
    match existing_audio_file(note_dir, on_disk) {
        Some(p) => p,
        None => String::from_str(note_dir),
    }
}

/// The note's audio file, if one is on disk under either name.
pub fn audio_path(note_dir: &str, on_disk: AudioOnDisk) -> (r: Option<String>)
    ensures
        match audio_file(note_dir@, on_disk) {
            Some(p) => r matches Some(s) && s@ == p,
            None => r is None,
        },
{
    existing_audio_file(note_dir, on_disk)
}

/// The audio path to report for a note: none once its audio was deleted,
/// whatever is on disk; otherwise [`audio_path`].
pub fn resolved_audio_path(audio_deleted: bool, note_dir: &str, on_disk: AudioOnDisk) -> (r: Option<
    String,
>)
    ensures
        audio_deleted ==> r is None,
        !audio_deleted ==> match audio_file(note_dir@, on_disk) {
            Some(p) => r matches Some(s) && s@ == p,
            None => r is None,
        },
{
    if audio_deleted {
        return None;
    }
    audio_path(note_dir, on_disk)
}

// ---------------------------------------------------------------------------
// Recovery tokens
// ---------------------------------------------------------------------------

/// Exact token for restoring a note moved into the recovery area.
#[derive(Debug, Clone, PartialEq)]
pub struct DeletedNoteUndo {
    pub id: String,
    pub title: String,
    pub trash_name: String,
    pub checksum: String,
}

/// The text fingerprinted for a recovery token.
pub open spec fn recovery_payload(id: Seq<char>, trash_name: Seq<char>) -> Seq<char> {
    "minute-note-recovery\0"@ + id + seq!['\0'] + trash_name
}

/// The checksum a recovery token for `id` parked as `trash_name` carries.
pub open spec fn recovery_checksum(id: Seq<char>, trash_name: Seq<char>) -> Seq<char> {
    sha256_hex_of(encode_utf8(recovery_payload(id, trash_name)))
}

/// The checksum of a recovery token: hex SHA-256 of
/// `minute-note-recovery\0{id}\0{trash_name}`.
pub fn deleted_note_undo_checksum(id: &str, trash_name: &str) -> (r: String)
    ensures
        r@ == recovery_checksum(id@, trash_name@),
{
    let mut out: Vec<char> = Vec::new();
    push_str(&mut out, "minute-note-recovery\0");
    push_str(&mut out, id);
    out.push('\0');
    push_str(&mut out, trash_name);
    let payload = string_from_chars(&out);
    assert(payload@ =~= recovery_payload(id@, trash_name@));
    sha256_hex(payload.as_str().as_bytes())
}

/// Whether a recovery token is one this library issued for its note and
/// recovery name.
pub fn recovery_token_is_valid(undo: &DeletedNoteUndo) -> (b: bool)
    ensures
        b == (undo.checksum@ == recovery_checksum(undo.id@, undo.trash_name@)),
{
    let expected = deleted_note_undo_checksum(undo.id.as_str(), undo.trash_name.as_str());
    str_eq(undo.checksum.as_str(), expected.as_str())
}

/// Why restoring a deleted note from its recovery token is refused, if it
/// is: a checksum this library did not issue for the token's id and
/// recovery name, a recovery folder that is gone (`source_is_dir` false),
/// or a note folder already at the id — checked in that order.
pub open spec fn restore_refusal(
    id: Seq<char>,
    trash_name: Seq<char>,
    checksum: Seq<char>,
    source_is_dir: bool,
    destination_exists: bool,
) -> Option<Seq<char>> {
    if checksum != recovery_checksum(id, trash_name) {
        Some("invalid note recovery token"@)
    } else if !source_is_dir {
        Some("recoverable note is no longer available"@)
    } else if destination_exists {
        Some("cannot restore note "@ + id + " because that id already exists"@)
    } else {
        None
    }
}

/// Checks a restore of `undo`, given whether its recovery folder is still
/// a directory and whether a note folder already stands at its id.
pub fn check_restore(undo: &DeletedNoteUndo, source_is_dir: bool, destination_exists: bool) -> (r:
    Result<(), MinuteError>)
    ensures
        match restore_refusal(
            undo.id@,
            undo.trash_name@,
            undo.checksum@,
            source_is_dir,
            destination_exists,
        ) {
            Some(msg) => r matches Err(e) && error_message(e) == msg,
            None => r is Ok,
        },
{
    if !recovery_token_is_valid(undo) {
        return Err(MinuteError::Other(String::from_str("invalid note recovery token")));
    }
    if !source_is_dir {
        return Err(MinuteError::Other(String::from_str("recoverable note is no longer available")));
    }
    if destination_exists {
        let mut out: Vec<char> = Vec::new();
        push_str(&mut out, "cannot restore note ");
        push_str(&mut out, undo.id.as_str());
        push_str(&mut out, " because that id already exists");
        return Err(MinuteError::Other(string_from_chars(&out)));
    }
    Ok(())
}

/// The token a deletion issues restores the note while its recovery folder
/// is there and its id is free; and a restore never overwrites a note
/// folder already at the id, whatever the token.
pub proof fn law_deletion_token_restores_without_overwriting(
    id: Seq<char>,
    trash_name: Seq<char>,
    checksum: Seq<char>,
    source_is_dir: bool,
)
    ensures
        restore_refusal(id, trash_name, recovery_checksum(id, trash_name), true, false) is None,
        restore_refusal(id, trash_name, checksum, source_is_dir, true) is Some,
{
}

// ---------------------------------------------------------------------------
// Export names
// ---------------------------------------------------------------------------

/// A title char as an export file name keeps it: letters, digits, `-`,
/// `_` and spaces stay, anything else becomes `-`.
pub open spec fn export_char(c: char) -> char {
    if is_alphanumeric_char(c) || c == '-' || c == '_' || c == ' ' {
        c
    } else {
        '-'
    }
}

/// The words of `s` (split on whitespace) joined with `-`, as the state of
/// a left-to-right scan: text so far, a separator owed, a word seen.
pub open spec fn hyphen_state(s: Seq<char>) -> (Seq<char>, bool, bool)
    decreases s.len(),
{
    if s.len() == 0 {
        (Seq::empty(), false, false)
    } else {
        let prev = hyphen_state(s.drop_last());
        let c = s.last();
        if is_ws(c) {
            (prev.0, prev.2, prev.2)
        } else if prev.1 {
            (prev.0.push('-').push(c), false, true)
        } else {
            (prev.0.push(c), false, true)
        }
    }
}

/// A note title as a safe file name: unsafe chars replaced by `-`, words
/// joined with `-`, leading and trailing `-` removed, at most 80 chars;
/// `untitled` when nothing is left.
pub open spec fn export_name(title: Seq<char>) -> Seq<char> {
    let cleaned = title.map_values(|c: char| export_char(c));
    let compact = hyphen_state(cleaned).0;
    let a = compact.skip(lead_matching(compact, |c: char| c == '-'));
    let trimmed = a.take(trail_keep(a, |c: char| c == '-'));
    if trimmed.len() == 0 {
        "untitled"@
    } else if trimmed.len() > 80 {
        trimmed.take(80)
    } else {
        trimmed
    }
}

proof fn lemma_hyphen_state_no_ws(s: Seq<char>)
    ensures
        forall|i: int|
            0 <= i < hyphen_state(s).0.len() ==> !is_ws(#[trigger] hyphen_state(s).0[i]),
    decreases s.len(),
{
    if s.len() > 0 {
        lemma_hyphen_state_no_ws(s.drop_last());
        let prev = hyphen_state(s.drop_last());
        let cur = hyphen_state(s);
        assert(!is_ws('-'));
        assert forall|i: int| 0 <= i < cur.0.len() implies !is_ws(#[trigger] cur.0[i]) by {
            if i < prev.0.len() {
                assert(cur.0[i] == prev.0[i]);
            }
        }
    }
}

proof fn lemma_lead_matching_bounds(s: Seq<char>, p: spec_fn(char) -> bool)
    ensures
        0 <= lead_matching(s, p) <= s.len(),
        lead_matching(s, p) < s.len() ==> !p(s[lead_matching(s, p)]),
    decreases s.len(),
{
    if s.len() > 0 && p(s[0]) {
        lemma_lead_matching_bounds(s.drop_first(), p);
        let l = lead_matching(s.drop_first(), p);
        if l < s.drop_first().len() {
            assert(s.drop_first()[l] == s[l + 1]);
        }
    }
}

proof fn lemma_trail_keep_bounds(s: Seq<char>, p: spec_fn(char) -> bool)
    ensures
        0 <= trail_keep(s, p) <= s.len(),
    decreases s.len(),
{
    if s.len() > 0 && p(s.last()) {
        lemma_trail_keep_bounds(s.drop_last(), p);
    }
}

/// An export file name is never empty, at most 80 chars, holds no
/// whitespace, and does not start with `-`.
pub proof fn law_export_name_is_a_safe_file_name(title: Seq<char>)
    ensures
        0 < export_name(title).len() <= 80,
        forall|i: int| 0 <= i < export_name(title).len() ==> !is_ws(#[trigger] export_name(title)[i]),
        export_name(title)[0] != '-',
{
    let cleaned = title.map_values(|c: char| export_char(c));
    let compact = hyphen_state(cleaned).0;
    let dash = |c: char| c == '-';
    lemma_hyphen_state_no_ws(cleaned);
    lemma_lead_matching_bounds(compact, dash);
    let l = lead_matching(compact, dash);
    let a = compact.skip(l);
    lemma_trail_keep_bounds(a, dash);
    let k = trail_keep(a, dash);
    let trimmed = a.take(k);
    reveal_strlit("untitled");
    if trimmed.len() == 0 {
        assert(export_name(title) == "untitled"@);
    } else {
        assert(trimmed[0] == compact[l]);
        assert forall|i: int| 0 <= i < trimmed.len() implies !is_ws(#[trigger] trimmed[i]) by {
            assert(trimmed[i] == compact[l + i]);
        }
        if trimmed.len() > 80 {
            assert forall|i: int| 0 <= i < 80 implies !is_ws(#[trigger] trimmed.take(80)[i]) by {
                assert(trimmed.take(80)[i] == trimmed[i]);
            }
        }
    }
}

/// A note title made safe to use as an export file name.
pub fn safe_export_name(title: &str) -> (r: String)
    ensures
        r@ == export_name(title@),
{
    let cs = chars_of(title);
    let ghost cleaned = title@.map_values(|c: char| export_char(c));
    let mut compact: Vec<char> = Vec::new();
    let mut pending = false;
    let mut started = false;
    let mut i: usize = 0;
    assert(cleaned.take(0) =~= Seq::<char>::empty());
    while i < cs.len()
        invariant
            i <= cs@.len(),
            cs@ == title@,
            cleaned == title@.map_values(|c: char| export_char(c)),
            (compact@, pending, started) == hyphen_state(cleaned.take(i as int)),
        decreases cs@.len() - i,
    {
        assert(cleaned.take(i + 1).drop_last() =~= cleaned.take(i as int));
        let c0 = cs[i];
        let c = if char_is_alphanumeric(c0) || c0 == '-' || c0 == '_' || c0 == ' ' {
            c0
        } else {
            '-'
        };
        assert(c == cleaned[i as int]);
        if is_whitespace(c) {
            pending = started;
        } else {
            if pending {
                compact.push('-');
            }
            compact.push(c);
            pending = false;
            started = true;
        }
        i = i + 1;
    }
    assert(cleaned.take(i as int) =~= cleaned);
    let ghost dash = |c: char| c == '-';
    let mut a: usize = 0;
    while a < compact.len() && compact[a] == '-'
        invariant
            a <= compact@.len(),
            forall|j: int| 0 <= j < a ==> compact@[j] == '-',
        decreases compact@.len() - a,
    {
        a = a + 1;
    }
    proof {
        crate::extract::lemma_lead_matching(compact@, dash, a as int);
    }
    let rest = slice_vec(&compact, a, compact.len());
    assert(rest@ =~= compact@.skip(lead_matching(compact@, dash)));
    let mut k: usize = rest.len();
    while k > 0 && rest[k - 1] == '-'
        invariant
            k <= rest@.len(),
            forall|j: int| k <= j < rest@.len() ==> rest@[j] == '-',
        decreases k,
    {
        k = k - 1;
    }
    proof {
        crate::extract::lemma_trail_keep(rest@, dash, k as int);
    }
    if k == 0 {
        return String::from_str("untitled");
    }
    let end = if k > 80 {
        80
    } else {
        k
    };
    let out = slice_vec(&rest, 0, end);
    assert(out@ =~= export_name(title@));
    string_from_chars(&out)
}

/// The file name of the `index`-th (from 0) note of an export: its
/// position from 1, zero-padded to three digits, then its safe title.
pub open spec fn export_file_name(index: nat, title: Seq<char>) -> Seq<char> {
    crate::sweep::padded(index + 1, 3) + seq!['-'] + export_name(title) + ".md"@
}

/// Names the `index`-th (from 0) exported note's file.
pub fn export_file(index: usize, title: &str) -> (r: String)
    requires
        index < u64::MAX,
    ensures
        r@ == export_file_name(index as nat, title@),
{
    let mut out: Vec<char> = Vec::new();
    crate::sweep::push_padded(&mut out, index as u64 + 1, 3);
    out.push('-');
    let name = safe_export_name(title);
    push_str(&mut out, name.as_str());
    push_str(&mut out, ".md");
    string_from_chars(&out)
}

/// Refuses an export of no notes.
pub fn check_export_selection(count: usize) -> (r: Result<(), MinuteError>)
    ensures
        count == 0 ==> (r matches Err(e) && error_message(e) == "select at least one note to export"@),
        count > 0 ==> r is Ok,
{
    if count == 0 {
        return Err(MinuteError::Other(String::from_str("select at least one note to export")));
    }
    Ok(())
}

// ---------------------------------------------------------------------------
// Moving the library
// ---------------------------------------------------------------------------

/// A canonical path `child` is `base` or lies under it, component-wise.
pub open spec fn path_within(child: Seq<char>, base: Seq<char>) -> bool {
    ||| child == base
    ||| (base.len() > 0 && base.last() == '/' && crate::prompt::starts_with(child, base))
    ||| crate::prompt::starts_with(child, base + seq!['/'])
}

fn path_within_exec(child: &str, base: &str) -> (b: bool)
    ensures
        b == path_within(child@, base@),
{
    if str_eq(child, base) {
        return true;
    }
    let c = chars_of(child);
    let mut b = chars_of(base);
    let n = b.len();
    proof {
        let ext = base@ + seq!['/'];
        if crate::prompt::starts_with(child@, ext) {
            assert(child@.take(n as int) =~= child@.take(ext.len() as int).take(n as int));
            assert(ext.take(n as int) =~= base@);
        }
    }
    if n > 0 && b[n - 1] == '/' {
        return crate::text::starts_with_chars(&c, &b);
    }
    b.push('/');
    assert(b@ =~= base@ + seq!['/']);
    crate::text::starts_with_chars(&c, &b)
}

/// Why moving the library into a chosen folder is refused, if it is, from
/// what the file system says: whether the folder is a directory, the
/// canonical paths of it, of the current root and of the current `notes`
/// folder (when that resolves), and whether the folder already has a
/// `notes` folder — checked in that order.
pub open spec fn move_refusal(
    is_dir: bool,
    new_root: Seq<char>,
    old_root: Seq<char>,
    old_notes: Option<Seq<char>>,
    notes_exists: bool,
) -> Option<Seq<char>> {
    if !is_dir {
        Some("the chosen folder does not exist or is not a directory"@)
    } else if new_root == old_root {
        Some("the library already lives in that folder"@)
    } else if old_notes matches Some(n) && path_within(new_root, n) {
        Some("the chosen folder is inside the current library"@)
    } else if notes_exists {
        Some("the chosen folder already contains a \"notes\" folder"@)
    } else {
        None
    }
}

/// Checks a library move against the guards above.
pub fn check_library_move(
    is_dir: bool,
    new_root: &str,
    old_root: &str,
    old_notes: Option<&str>,
    notes_exists: bool,
) -> (r: Result<(), MinuteError>)
    ensures
        match move_refusal(
            is_dir,
            new_root@,
            old_root@,
            match old_notes {
                Some(n) => Some(n@),
                None => None,
            },
            notes_exists,
        ) {
            Some(msg) => r matches Err(e) && error_message(e) == msg,
            None => r is Ok,
        },
{
    if !is_dir {
        return Err(
            MinuteError::Other(
                String::from_str("the chosen folder does not exist or is not a directory"),
            ),
        );
    }
    if str_eq(new_root, old_root) {
        return Err(MinuteError::Other(String::from_str("the library already lives in that folder")));
    }
    match old_notes {
        Some(n) => {
            if path_within_exec(new_root, n) {
                return Err(
                    MinuteError::Other(
                        String::from_str("the chosen folder is inside the current library"),
                    ),
                );
            }
        },
        None => {},
    }
    if notes_exists {
        return Err(
            MinuteError::Other(
                String::from_str("the chosen folder already contains a \"notes\" folder"),
            ),
        );
    }
    Ok(())
}

// ---------------------------------------------------------------------------
// Disk usage and diagnostics
// ---------------------------------------------------------------------------

/// Disk usage breakdown for the library.
#[derive(Clone, Copy, Debug, PartialEq, Eq, Structural)]
pub struct StorageStats {
    pub models_bytes: u64,
    pub audio_bytes: u64,
    pub notes_bytes: u64,
}

/// Disk usage of one note.
#[derive(Clone, Copy, Debug, PartialEq, Eq, Structural)]
pub struct NoteStorageStats {
    pub total_bytes: u64,
    pub audio_bytes: u64,
    pub document_bytes: u64,
}

/// Whether a note folder entry is the note's audio.
pub open spec fn is_audio_name(name: Seq<char>) -> bool {
    name == "audio.wav"@ || name == "audio.m4a"@
}

/// A note folder's bytes from its entries `(file name, length)`: the total,
/// and the audio file's length (the last audio entry listed; 0 with none).
pub open spec fn dir_totals(entries: Seq<(String, u64)>) -> (int, int)
    decreases entries.len(),
{
    if entries.len() == 0 {
        (0, 0)
    } else {
        let prev = dir_totals(entries.drop_last());
        let e = entries.last();
        (prev.0 + e.1, if is_audio_name(e.0@) {
            e.1 as int
        } else {
            prev.1
        })
    }
}

proof fn lemma_dir_totals_grow(entries: Seq<(String, u64)>, i: int)
    requires
        0 <= i <= entries.len(),
    ensures
        0 <= dir_totals(entries.take(i)).0 <= dir_totals(entries).0,
        0 <= dir_totals(entries.take(i)).1 <= dir_totals(entries.take(i)).0,
    decreases entries.len() - i,
{
    if i < entries.len() {
        lemma_dir_totals_grow(entries, i + 1);
        lemma_dir_totals_bounded(entries.take(i));
        assert(entries.take(i + 1).drop_last() =~= entries.take(i));
    } else {
        assert(entries.take(i) =~= entries);
        lemma_dir_totals_bounded(entries);
    }
}

proof fn lemma_dir_totals_bounded(entries: Seq<(String, u64)>)
    ensures
        0 <= dir_totals(entries).1 <= dir_totals(entries).0,
    decreases entries.len(),
{
    if entries.len() > 0 {
        lemma_dir_totals_bounded(entries.drop_last());
    }
}

/// One note folder's `(total bytes, audio bytes)` from its entries, as
/// listed: `audio.wav` or `audio.m4a` is the audio.
pub fn note_dir_totals(entries: &[(String, u64)]) -> (r: (u64, u64))
    requires
        dir_totals(entries@).0 <= u64::MAX,
    ensures
        r.0 == dir_totals(entries@).0,
        r.1 == dir_totals(entries@).1,
{
    let mut total: u64 = 0;
    let mut audio: u64 = 0;
    let mut i: usize = 0;
    assert(entries@.take(0) =~= Seq::<(String, u64)>::empty());
    while i < entries.len()
        invariant
            i <= entries@.len(),
            dir_totals(entries@).0 <= u64::MAX,
            total == dir_totals(entries@.take(i as int)).0,
            audio == dir_totals(entries@.take(i as int)).1,
        decreases entries@.len() - i,
    {
        proof {
            lemma_dir_totals_grow(entries@, i + 1);
            assert(entries@.take(i + 1).drop_last() =~= entries@.take(i as int));
        }
        let len = entries[i].1;
        total = total + len;
        if str_eq(entries[i].0.as_str(), "audio.wav") || str_eq(entries[i].0.as_str(), "audio.m4a") {
            audio = len;
        }
        i = i + 1;
    }
    assert(entries@.take(i as int) =~= entries@);
    (total, audio)
}

/// The library's audio and document bytes from each note folder's
/// `(total, audio)`: audio summed, and each folder's rest (never below
/// zero) summed.
pub open spec fn library_totals(notes: Seq<(u64, u64)>) -> (int, int)
    decreases notes.len(),
{
    if notes.len() == 0 {
        (0, 0)
    } else {
        let prev = library_totals(notes.drop_last());
        let n = notes.last();
        (prev.0 + n.1, prev.1 + if n.0 >= n.1 {
            n.0 - n.1
        } else {
            0
        })
    }
}

proof fn lemma_library_totals_grow(notes: Seq<(u64, u64)>, i: int)
    requires
        0 <= i <= notes.len(),
    ensures
        0 <= library_totals(notes.take(i)).0 <= library_totals(notes).0,
        0 <= library_totals(notes.take(i)).1 <= library_totals(notes).1,
    decreases notes.len() - i,
{
    if i < notes.len() {
        lemma_library_totals_grow(notes, i + 1);
        lemma_library_totals_nonneg(notes.take(i));
        assert(notes.take(i + 1).drop_last() =~= notes.take(i));
    } else {
        assert(notes.take(i) =~= notes);
        lemma_library_totals_nonneg(notes);
    }
}

proof fn lemma_library_totals_nonneg(notes: Seq<(u64, u64)>)
    ensures
        0 <= library_totals(notes).0,
        0 <= library_totals(notes).1,
    decreases notes.len(),
{
    if notes.len() > 0 {
        lemma_library_totals_nonneg(notes.drop_last());
    }
}

/// The library's disk usage: the models folder's bytes, and the audio and
/// document bytes summed over the note folders' `(total, audio)`.
pub fn storage_totals(models_bytes: u64, notes: &[(u64, u64)]) -> (r: StorageStats)
    requires
        library_totals(notes@).0 <= u64::MAX,
        library_totals(notes@).1 <= u64::MAX,
    ensures
        r.models_bytes == models_bytes,
        r.audio_bytes == library_totals(notes@).0,
        r.notes_bytes == library_totals(notes@).1,
{
    let mut audio: u64 = 0;
    let mut docs: u64 = 0;
    let mut i: usize = 0;
    assert(notes@.take(0) =~= Seq::<(u64, u64)>::empty());
    while i < notes.len()
        invariant
            i <= notes@.len(),
            library_totals(notes@).0 <= u64::MAX,
            library_totals(notes@).1 <= u64::MAX,
            audio == library_totals(notes@.take(i as int)).0,
            docs == library_totals(notes@.take(i as int)).1,
        decreases notes@.len() - i,
    {
        proof {
            lemma_library_totals_grow(notes@, i + 1);
            assert(notes@.take(i + 1).drop_last() =~= notes@.take(i as int));
        }
        let (total, a) = notes[i];
        audio = audio + a;
        docs = docs + if total >= a {
            total - a
        } else {
            0
        };
        i = i + 1;
    }
    assert(notes@.take(i as int) =~= notes@);
    StorageStats { models_bytes, audio_bytes: audio, notes_bytes: docs }
}

/// What the library rules read of a note's metadata.
#[derive(Debug, Clone, PartialEq)]
pub struct NoteFacts {
    pub id: String,
    pub created_at: String,
    pub status: NoteStatus,
    pub audio_deleted: bool,
    pub audio_compressed: bool,
    pub sources: Vec<String>,
}

/// The sources of a note recorded before sources were tracked, and of a
/// new note: the microphone alone.
pub fn default_sources() -> (r: Vec<String>)
    ensures
        r@.len() == 1,
        r@[0]@ == "mic"@,
{
    let mut v: Vec<String> = Vec::new();
    v.push(String::from_str("mic"));
    v
}

/// The note recorded system audio too.
pub open spec fn has_system_audio(n: NoteFacts) -> bool {
    exists|i: int| 0 <= i < n.sources@.len() && n.sources@[i]@ == "system"@
}

/// How many of `notes` satisfy `p`.
pub open spec fn count_where(notes: Seq<NoteFacts>, p: spec_fn(NoteFacts) -> bool) -> nat
    decreases notes.len(),
{
    if notes.len() == 0 {
        0
    } else {
        count_where(notes.drop_last(), p) + if p(notes.last()) {
            1nat
        } else {
            0nat
        }
    }
}

/// The privacy statement a diagnostics snapshot carries.
pub open spec fn privacy_statement() -> Seq<char> {
    "Aggregate operational metadata only. No note ids, titles, transcript text, filenames, or paths."@
}

/// A privacy-safe support snapshot: aggregate counts only.
#[derive(Debug, Clone, PartialEq)]
pub struct DiagnosticsSnapshot {
    pub generated_at: String,
    pub app_version: String,
    pub os: String,
    pub architecture: String,
    pub note_count: usize,
    pub recording_notes: usize,
    pub transcribed_notes: usize,
    pub ready_notes: usize,
    pub notes_with_system_audio: usize,
    pub notes_with_audio_removed: usize,
    pub notes_with_audio_compressed: usize,
    pub storage: StorageStats,
    pub privacy: String,
}

fn mentions_system(sources: &Vec<String>) -> (b: bool)
    ensures
        b == exists|i: int| 0 <= i < sources@.len() && sources@[i]@ == "system"@,
{
    let mut i: usize = 0;
    while i < sources.len()
        invariant
            i <= sources@.len(),
            forall|j: int| 0 <= j < i ==> sources@[j]@ != "system"@,
        decreases sources@.len() - i,
    {
        if str_eq(sources[i].as_str(), "system") {
            return true;
        }
        i = i + 1;
    }
    false
}

impl DiagnosticsSnapshot {
    /// The snapshot of `notes`: how many there are, per status, with system
    /// audio, with audio removed or compressed; the disk figures; and the
    /// privacy statement.
    pub fn new(
        generated_at: String,
        app_version: String,
        os: String,
        architecture: String,
        notes: &[NoteFacts],
        storage: StorageStats,
    ) -> (r: Self)
        ensures
            r.generated_at@ == generated_at@,
            r.app_version@ == app_version@,
            r.os@ == os@,
            r.architecture@ == architecture@,
            r.note_count == notes@.len(),
            r.recording_notes == count_where(notes@, |n: NoteFacts| n.status == NoteStatus::Recording),
            r.transcribed_notes == count_where(
                notes@,
                |n: NoteFacts| n.status == NoteStatus::Transcribed,
            ),
            r.ready_notes == count_where(notes@, |n: NoteFacts| n.status == NoteStatus::Ready),
            r.notes_with_system_audio == count_where(notes@, |n: NoteFacts| has_system_audio(n)),
            r.notes_with_audio_removed == count_where(notes@, |n: NoteFacts| n.audio_deleted),
            r.notes_with_audio_compressed == count_where(notes@, |n: NoteFacts| n.audio_compressed),
            r.storage == storage,
            r.privacy@ == privacy_statement(),
    {
        let ghost s = notes@;
        let mut recording: usize = 0;
        let mut transcribed: usize = 0;
        let mut ready: usize = 0;
        let mut system: usize = 0;
        let mut removed: usize = 0;
        let mut compressed: usize = 0;
        let mut i: usize = 0;
        assert(s.take(0) =~= Seq::<NoteFacts>::empty());
        while i < notes.len()
            invariant
                i <= s.len(),
                s == notes@,
                recording == count_where(s.take(i as int), |n: NoteFacts| n.status == NoteStatus::Recording),
                transcribed == count_where(
                    s.take(i as int),
                    |n: NoteFacts| n.status == NoteStatus::Transcribed,
                ),
                ready == count_where(s.take(i as int), |n: NoteFacts| n.status == NoteStatus::Ready),
                system == count_where(s.take(i as int), |n: NoteFacts| has_system_audio(n)),
                removed == count_where(s.take(i as int), |n: NoteFacts| n.audio_deleted),
                compressed == count_where(s.take(i as int), |n: NoteFacts| n.audio_compressed),
                recording <= i && transcribed <= i && ready <= i && system <= i && removed <= i
                    && compressed <= i,
            decreases s.len() - i,
        {
            assert(s.take(i + 1).drop_last() =~= s.take(i as int));
            let n = &notes[i];
            match n.status {
                NoteStatus::Recording => {
                    recording = recording + 1;
                },
                NoteStatus::Transcribed => {
                    transcribed = transcribed + 1;
                },
                NoteStatus::Ready => {
                    ready = ready + 1;
                },
            }
            if mentions_system(&n.sources) {
                system = system + 1;
            }
            if n.audio_deleted {
                removed = removed + 1;
            }
            if n.audio_compressed {
                compressed = compressed + 1;
            }
            i = i + 1;
        }
        assert(s.take(i as int) =~= s);
        DiagnosticsSnapshot {
            generated_at,
            app_version,
            os,
            architecture,
            note_count: notes.len(),
            recording_notes: recording,
            transcribed_notes: transcribed,
            ready_notes: ready,
            notes_with_system_audio: system,
            notes_with_audio_removed: removed,
            notes_with_audio_compressed: compressed,
            storage,
            privacy: String::from_str(
                "Aggregate operational metadata only. No note ids, titles, transcript text, filenames, or paths.",
            ),
        }
    }
}

} // verus!
