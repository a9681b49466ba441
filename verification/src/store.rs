//! The notes store: the notes directory, the notes index and the backup directory, held
//! together, with the commands that create, read, save, rename and delete notes. Each
//! command records the file operations it makes, in order, for the caller to carry out on
//! disk.
use vstd::prelude::*;
use crate::text::{concat3, owned};
use crate::strings::current_unix_time;
use crate::errors::{AppError, AppErrorView, error_text};
use crate::validation::{note_name_check, validate_note_name};
use crate::renderer::{render_note, rendered_note};
use crate::paths::{file_name, file_name_of, join_path, opt_view, path_join};
use crate::filemap::{EntryView, FileMap, keys_distinct, lookup, removed, stored, without_paths};
use crate::index::{
    NoteRecord, NotesIndex, RecordView, distinct_names, record_of, rename_records, upserted,
    without_name, names_by_recency_spec,
};
use crate::sync::{DiskNote, DiskView, in_sync, is_hidden, is_hidden_path, load_all_notes_into_sqlite, load_spec, quick_filesystem_sync_check};
use crate::backups::{
    BackupType, backup_file_name, backups_to_prune, dir_part, generate_backup_filename,
    pruned_paths, split_dir,
};

verus! {

/// A file operation that a command made: on a note (a path within the notes directory) or
/// on a backup (a path within the backup directory).
#[derive(Debug, Clone)]
pub enum FileAction {
    WriteNote(String, String),
    RemoveNote(String),
    RenameNote(String, String),
    WriteBackup(String, String),
    RemoveBackup(String),
}

/// The mathematical value of a [`FileAction`].
pub enum ActionView {
    WriteNote(Seq<char>, Seq<char>),
    RemoveNote(Seq<char>),
    RenameNote(Seq<char>, Seq<char>),
    WriteBackup(Seq<char>, Seq<char>),
    RemoveBackup(Seq<char>),
}

impl View for FileAction {
    type V = ActionView;

    open spec fn view(&self) -> ActionView {
        match self {
            FileAction::WriteNote(p, c) => ActionView::WriteNote(p@, c@),
            FileAction::RemoveNote(p) => ActionView::RemoveNote(p@),
            FileAction::RenameNote(a, b) => ActionView::RenameNote(a@, b@),
            FileAction::WriteBackup(p, c) => ActionView::WriteBackup(p@, c@),
            FileAction::RemoveBackup(p) => ActionView::RemoveBackup(p@),
        }
    }
}

/// The notes directory, the notes index and the backup directory, with the file
/// operations made so far.
pub struct NoteStore {
    pub notes_dir: String,
    pub files: FileMap,
    pub index: NotesIndex,
    pub backups: FileMap,
    pub actions: Vec<FileAction>,
}

/// The mathematical value of a [`NoteStore`].
pub struct StoreView {
    pub notes_dir: Seq<char>,
    pub files: Seq<EntryView>,
    pub index: Seq<RecordView>,
    pub backups: Seq<EntryView>,
    pub actions: Seq<ActionView>,
}

impl View for NoteStore {
    type V = StoreView;

    open spec fn view(&self) -> StoreView {
        StoreView {
            notes_dir: self.notes_dir@,
            files: self.files@,
            index: self.index@,
            backups: self.backups@,
            actions: self.actions@.map_values(|a: FileAction| a@),
        }
    }
}

/// The view of a command's result: the message of its error.
pub open spec fn outcome_view<T: View>(r: Result<T, String>) -> Result<T::V, Seq<char>> {
    match r {
        Ok(v) => Ok(v@),
        Err(m) => Err(m@),
    }
}

/// The record that the index keeps for a note written with `content` at `modified`.
pub open spec fn fresh_record(name: Seq<char>, content: Seq<char>, modified: i64) -> RecordView {
    RecordView {
        filename: name,
        content,
        html_render: rendered_note(name, content),
        modified,
        is_indexed: true,
    }
}

/// Where a backup of the note `name`, whose file is called `file`, is written: rollback
/// backups beside the note's own path, the others at the top of the backup directory.
pub open spec fn backup_location(name: Seq<char>, file: Seq<char>, t: BackupType, ts: u64) -> Seq<char> {
    if t == BackupType::Rollback {
        dir_part(name) + backup_file_name(file, t, ts)
    } else {
        backup_file_name(file, t, ts)
    }
}

/// The store after writing a backup at `loc` and pruning the old ones of its kind.
pub open spec fn with_backup(st: StoreView, loc: Seq<char>, content: Seq<char>) -> StoreView {
    let written = stored(st.backups, loc, content);
    let gone = pruned_paths(written, loc);
    StoreView {
        backups: without_paths(written, gone),
        actions: st.actions.push(ActionView::WriteBackup(loc, content)) + gone.map_values(
            |p: Seq<char>| ActionView::RemoveBackup(p),
        ),
        ..st
    }
}

/// The message of a note that already exists.
pub open spec fn exists_message(name: Seq<char>) -> Seq<char> {
    error_text(AppErrorView::InvalidNoteName("Note '"@ + name + "' already exists"@))
}

/// The message of a note that the index does not hold.
pub open spec fn not_found_message(name: Seq<char>) -> Seq<char> {
    error_text(AppErrorView::FileNotFound("Note not found: "@ + name))
}

/// The message of a save refused because the file changed since editing began.
pub open spec fn conflict_message(name: Seq<char>) -> Seq<char> {
    error_text(
        AppErrorView::InvalidPath(
            "Cannot save '"@ + name
                + "': file has been modified since editing began. This safety check prevents accidental data loss."@,
        ),
    )
}

/// The message of a note whose path has no file name.
pub open spec fn invalid_filename_message() -> Seq<char> {
    error_text(AppErrorView::InvalidPath("Invalid filename"@))
}

/// The message of a rename whose note is neither on disk nor at the new name.
pub open spec fn rename_missing_message(name: Seq<char>) -> Seq<char> {
    error_text(AppErrorView::FileNotFound("Note '"@ + name + "' not found"@))
}

/// The verdict on a note name, as a message.
pub open spec fn name_verdict(name: Seq<char>) -> Result<(), Seq<char>> {
    match note_name_check(name) {
        Ok(_) => Ok(()),
        Err(e) => Err(error_text(e)),
    }
}

/// The file name of a note's path.
pub open spec fn note_file(st: StoreView, name: Seq<char>) -> Option<Seq<char>> {
    file_name_of(path_join(st.notes_dir, name))
}

/// Every prefix of `b + n` that reaches into `n` has a file name, where `b` is empty or
/// ends in `/`, and `n` starts with a character other than `/` and `.` and has no `..`
/// component; `m` is where the prefix ends, at the end, before a `/` or just after one.
proof fn lemma_prefix_has_file_name(p: Seq<char>, k: int, m: int)
    requires
        0 <= k < m <= p.len(),
        k == 0 || p[k - 1] == '/',
        p[k] != '/',
        p[k] != '.',
        !crate::validation::has_parent_component(p.subrange(k, p.len() as int)),
        m == p.len() || p[m] == '/' || p[m - 1] == '/',
    ensures
        file_name_of(p.subrange(0, m)) is Some,
    decreases m,
{
    let q = p.subrange(0, m);
    if q.last() == '/' {
        assert(q.drop_last() == p.subrange(0, m - 1));
        lemma_prefix_has_file_name(p, k, m - 1);
    } else {
        crate::paths::lemma_segment_start_bounds(q);
        let start = crate::paths::segment_start(q);
        if k > 0 && start < k {
            assert(q[k - 1] == '/');
        }
        assert(start >= k);
        let seg = q.subrange(start, m);
        if start == k {
            assert(seg[0] == p[k]);
        } else {
            assert(q[start - 1] == '/');
            if seg == seq!['.'] {
                assert(q.subrange(0, start) == p.subrange(0, start));
                lemma_prefix_has_file_name(p, k, start);
            } else if seg == seq!['.', '.'] {
                let n = p.subrange(k, p.len() as int);
                let j = start - k;
                assert(seq!['.', '.'].len() == 2);
                assert(seg.len() == 2 && m == start + 2);
                assert(seg[0] == q[start] && seg[1] == q[start + 1]);
                assert(q[start] == n[j] && q[start + 1] == n[j + 1]);
                assert(n[j - 1] == p[start - 1]);
                if m < p.len() {
                    assert(n[j + 2] == p[m]);
                }
                assert(crate::validation::parent_component_at(n, j));
            }
        }
    }
}

/// A note name that passes validation names a file inside any notes directory.
pub proof fn lemma_valid_name_has_file(st: StoreView, name: Seq<char>)
    requires
        note_name_check(name) is Ok,
    ensures
        note_file(st, name) is Some,
{
    let d = st.notes_dir;
    assert(name.len() > 0) by {
        if name.len() == 0 {
            assert(crate::text::is_blank(name));
        }
    }
    let b = if d.len() == 0 || d.last() == '/' { d } else { d + "/"@ };
    reveal_strlit("/");
    let p = path_join(d, name);
    assert(p == b + name);
    assert(p.subrange(b.len() as int, p.len() as int) == name);
    assert(p.subrange(0, p.len() as int) == p);
    lemma_prefix_has_file_name(p, b.len() as int, p.len() as int);
}

/// What creating a note does: a new, empty file and its record, or an error.
pub open spec fn create_outcome(st: StoreView, name: Seq<char>, now: u64) -> (StoreView, Result<(), Seq<char>>) {
    match name_verdict(name) {
        Err(m) => (st, Err(m)),
        Ok(_) => if lookup(st.files, name) is Some {
            (st, Err(exists_message(name)))
        } else {
            (
                StoreView {
                    files: stored(st.files, name, Seq::empty()),
                    index: upserted(st.index, fresh_record(name, Seq::empty(), now as i64)),
                    actions: st.actions.push(ActionView::WriteNote(name, Seq::empty())),
                    ..st
                },
                Ok(()),
            )
        },
    }
}

/// What reading a note gives: the content that the index holds for it.
pub open spec fn content_outcome(st: StoreView, name: Seq<char>) -> Result<Seq<char>, Seq<char>> {
    match name_verdict(name) {
        Err(m) => Err(m),
        Ok(_) => match record_of(st.index, name) {
            Some(r) => Ok(r.content),
            None => Err(not_found_message(name)),
        },
    }
}

/// What reading a note's HTML does: the stored HTML where it is current, else the note
/// rendered now and stored.
pub open spec fn html_outcome(st: StoreView, name: Seq<char>) -> (StoreView, Result<Seq<char>, Seq<char>>) {
    match name_verdict(name) {
        Err(m) => (st, Err(m)),
        Ok(_) => match record_of(st.index, name) {
            None => (st, Err(not_found_message(name))),
            Some(r) => if r.is_indexed {
                (st, Ok(r.html_render))
            } else {
                let html = rendered_note(name, r.content);
                (
                    StoreView {
                        index: upserted(st.index, RecordView { html_render: html, is_indexed: true, ..r }),
                        ..st
                    },
                    Ok(html),
                )
            },
        },
    }
}

/// The file that opening a note hands to the system: the note's path under the notes
/// directory, where its name is valid and its file is there.
pub open spec fn open_target(st: StoreView, name: Seq<char>) -> Result<Seq<char>, Seq<char>> {
    match name_verdict(name) {
        Err(m) => Err(m),
        Ok(_) => if lookup(st.files, name) is Some {
            Ok(path_join(st.notes_dir, name))
        } else {
            Err(not_found_message(name))
        },
    }
}

/// The message of a backup whose source file is not there.
pub open spec fn missing_source_message(st: StoreView, name: Seq<char>) -> Seq<char> {
    error_text(
        AppErrorView::FileNotFound(
            "Cannot create backup: source file '"@ + path_join(st.notes_dir, name) + "' does not exist"@,
        ),
    )
}

/// What writing a versioned backup of a note does: the given text, or else the note's
/// file, is written to the backup's location and the old backups of its kind are pruned;
/// the result is that location. A path without a file name, or a missing file where no
/// text is given, is refused and changes nothing.
pub open spec fn versioned_backup_outcome(
    st: StoreView,
    name: Seq<char>,
    t: BackupType,
    content_override: Option<Seq<char>>,
    now: u64,
) -> (StoreView, Result<Seq<char>, Seq<char>>) {
    match note_file(st, name) {
        None => (st, Err(invalid_filename_message())),
        Some(f) => {
            let content = match content_override {
                Some(c) => Some(c),
                None => lookup(st.files, name),
            };
            match content {
                None => (st, Err(missing_source_message(st, name))),
                Some(c) => {
                    let loc = backup_location(name, f, t, now);
                    (with_backup(st, loc, c), Ok(loc))
                },
            }
        },
    }
}

/// What saving a note does. Where the file no longer holds what the editor started from,
/// the new text goes to a save-failure backup and the save is refused; otherwise the old
/// text goes to a rollback backup, the file takes the new text and the index its record.
pub open spec fn save_outcome(st: StoreView, name: Seq<char>, content: Seq<char>, original: Seq<char>, now: u64) -> (StoreView, Result<(), Seq<char>>) {
    match name_verdict(name) {
        Err(m) => (st, Err(m)),
        Ok(_) => {
            let current = match lookup(st.files, name) {
                Some(c) => c,
                None => Seq::empty(),
            };
            if current != original {
                let st2 = match note_file(st, name) {
                    Some(f) => with_backup(st, backup_location(name, f, BackupType::SaveFailure, now), content),
                    None => st,
                };
                (st2, Err(conflict_message(name)))
            } else {
                write_outcome(st, name, content, now)
            }
        },
    }
}

/// What writing a note's file does: where the file exists its old text goes to a rollback
/// backup first (a path without a file name is refused); the file then takes the new text.
/// The index is left as it was.
pub open spec fn file_write_outcome(st: StoreView, name: Seq<char>, content: Seq<char>, now: u64) -> (StoreView, Result<(), Seq<char>>) {
    if lookup(st.files, name) is Some && note_file(st, name) is None {
        (st, Err(invalid_filename_message()))
    } else {
        let st2 = if lookup(st.files, name) is Some {
            with_backup(
                st,
                backup_location(name, note_file(st, name)->0, BackupType::Rollback, now),
                lookup(st.files, name)->0,
            )
        } else {
            st
        };
        (
            StoreView {
                files: stored(st2.files, name, content),
                actions: st2.actions.push(ActionView::WriteNote(name, content)),
                ..st2
            },
            Ok(()),
        )
    }
}

/// What writing a note and recording it does: the file is written as
/// [`file_write_outcome`] says and, where that succeeds, the index takes a fresh record.
pub open spec fn write_outcome(st: StoreView, name: Seq<char>, content: Seq<char>, now: u64) -> (StoreView, Result<(), Seq<char>>) {
    let (st2, r) = file_write_outcome(st, name, content, now);
    match r {
        Err(m) => (st2, Err(m)),
        Ok(_) => (StoreView { index: upserted(st2.index, fresh_record(name, content, now as i64)), ..st2 }, Ok(())),
    }
}

/// What renaming a note does. A note on disk is first copied to a rename backup; where the
/// new name is taken the backup is dropped and the rename refused; otherwise the file moves,
/// its record takes the new name and the backup is dropped. A note that is not on disk is
/// renamed in the index alone, where a file already has the new name.
pub open spec fn rename_outcome(st: StoreView, old: Seq<char>, new: Seq<char>, now: u64) -> (StoreView, Result<(), Seq<char>>) {
    match name_verdict(old) {
        Err(m) => (st, Err(m)),
        Ok(_) => match name_verdict(new) {
            Err(m) => (st, Err(m)),
            Ok(_) => match note_file(st, old) {
                None => (st, Err(invalid_filename_message())),
                Some(f) => match lookup(st.files, old) {
                    None => if lookup(st.files, new) is Some {
                        (StoreView { index: rename_records(st.index, old, new), ..st }, Ok(()))
                    } else {
                        (st, Err(rename_missing_message(old)))
                    },
                    Some(c) => {
                        let loc = backup_location(old, f, BackupType::Rename, now);
                        let st2 = with_backup(st, loc, c);
                        if lookup(st.files, new) is Some {
                            (
                                StoreView {
                                    backups: removed(st2.backups, loc),
                                    actions: st2.actions.push(ActionView::RemoveBackup(loc)),
                                    ..st2
                                },
                                Err(exists_message(new)),
                            )
                        } else {
                            (
                                StoreView {
                                    files: stored(removed(st2.files, old), new, c),
                                    index: rename_records(st2.index, old, new),
                                    backups: removed(st2.backups, loc),
                                    actions: st2.actions.push(ActionView::RenameNote(old, new)).push(
                                        ActionView::RemoveBackup(loc),
                                    ),
                                    ..st2
                                },
                                Ok(()),
                            )
                        }
                    },
                },
            },
        },
    }
}

/// What deleting a note does: a note on disk is copied to a delete backup and removed; its
/// record leaves the index either way.
pub open spec fn delete_outcome(st: StoreView, name: Seq<char>, now: u64) -> (StoreView, Result<(), Seq<char>>) {
    match name_verdict(name) {
        Err(m) => (st, Err(m)),
        Ok(_) => match (note_file(st, name), lookup(st.files, name)) {
            (Some(f), Some(c)) => {
                let st2 = with_backup(st, backup_location(name, f, BackupType::Delete, now), c);
                (
                    StoreView {
                        files: removed(st2.files, name),
                        index: without_name(st2.index, name),
                        actions: st2.actions.push(ActionView::RemoveNote(name)),
                        ..st2
                    },
                    Ok(()),
                )
            },
            _ => (StoreView { index: without_name(st.index, name), ..st }, Ok(())),
        },
    }
}

/// Puts a note into the index: its content, its HTML rendered afresh and its modification
/// time, replacing the record it had.
pub fn update_note_in_database(index: &mut NotesIndex, note_name: &str, content: &str, modified: i64)
    ensures
        final(index)@ == upserted(old(index)@, fresh_record(note_name@, content@, modified)),
{
    let record = NoteRecord {
        filename: owned(note_name),
        content: owned(content),
        html_render: render_note(note_name, content),
        modified,
        is_indexed: true,
    };
    index.upsert(record);
}

pub(crate) fn check_name(name: &str) -> (r: Result<(), String>)
    ensures
        outcome_view(r) == name_verdict(name@),
{
    match validate_note_name(name) {
        Ok(()) => Ok(()),
        Err(e) => Err(e.message()),
    }
}

fn exists_error(name: &str) -> (r: String)
    ensures
        r@ == exists_message(name@),
{
    proof {
        reveal_strlit("Note '");
        reveal_strlit("' already exists");
    }
    AppError::InvalidNoteName(concat3("Note '", name, "' already exists")).message()
}

fn not_found_error(name: &str) -> (r: String)
    ensures
        r@ == not_found_message(name@),
{
    proof {
        reveal_strlit("Note not found: ");
    }
    AppError::FileNotFound(crate::text::concat2("Note not found: ", name)).message()
}

fn conflict_error(name: &str) -> (r: String)
    ensures
        r@ == conflict_message(name@),
{
    proof {
        reveal_strlit("Cannot save '");
        reveal_strlit("': file has been modified since editing began. This safety check prevents accidental data loss.");
    }
    AppError::InvalidPath(
        concat3(
            "Cannot save '",
            name,
            "': file has been modified since editing began. This safety check prevents accidental data loss.",
        ),
    ).message()
}

fn invalid_filename_error() -> (r: String)
    ensures
        r@ == invalid_filename_message(),
{
    proof {
        reveal_strlit("Invalid filename");
    }
    AppError::InvalidPath(owned("Invalid filename")).message()
}

fn rename_missing_error(name: &str) -> (r: String)
    ensures
        r@ == rename_missing_message(name@),
{
    proof {
        reveal_strlit("Note '");
        reveal_strlit("' not found");
    }
    AppError::FileNotFound(concat3("Note '", name, "' not found")).message()
}

/// Where a backup of the note `name`, whose file is called `file`, is written.
pub fn backup_location_for(name: &str, file: &str, backup_type: BackupType, timestamp: u64) -> (r: String)
    ensures
        r@ == backup_location(name@, file@, backup_type, timestamp),
{
    let bf = generate_backup_filename(file, &backup_type, timestamp);
    if backup_type == BackupType::Rollback {
        let (d, _) = split_dir(name);
        crate::text::concat2(d.as_str(), bf.as_str())
    } else {
        bf
    }
}

impl NoteStore {
    /// An empty store for a notes directory.
    pub fn new(notes_dir: &str) -> (r: NoteStore)
        ensures
            r@.notes_dir == notes_dir@,
            r@.files == Seq::<EntryView>::empty(),
            r@.index == Seq::<RecordView>::empty(),
            r@.backups == Seq::<EntryView>::empty(),
            r@.actions == Seq::<ActionView>::empty(),
    {
        let r = NoteStore {
            notes_dir: owned(notes_dir),
            files: FileMap::new(),
            index: NotesIndex::new(),
            backups: FileMap::new(),
            actions: Vec::new(),
        };
        assert(r@.actions =~= Seq::<ActionView>::empty());
        r
    }

    /// Hands over the file operations recorded so far and forgets them.
    pub fn take_actions(&mut self) -> (r: Vec<FileAction>)
        ensures
            r@.map_values(|a: FileAction| a@) == old(self)@.actions,
            final(self)@ == (StoreView { actions: Seq::empty(), ..old(self)@ }),
    {
        let mut out: Vec<FileAction> = Vec::new();
        std::mem::swap(&mut out, &mut self.actions);
        assert(self@.actions =~= Seq::<ActionView>::empty());
        out
    }

    fn note_file_name(&self, name: &str) -> (r: Option<String>)
        ensures
            r matches Some(f) ==> note_file(self@, name@) == Some(f@),
            r is None ==> note_file(self@, name@) is None,
    {
        let p = join_path(self.notes_dir.as_str(), name);
        file_name(p.as_str())
    }

    fn record_backup(&mut self, loc: &str, content: &str)
        ensures
            final(self)@ == with_backup(old(self)@, loc@, content@),
    {
        let ghost st = self@;
        self.backups.store(loc, content);
        let ghost written = self.backups@;
        self.actions.push(FileAction::WriteBackup(owned(loc), owned(content)));
        let gone = backups_to_prune(&self.backups, loc);
        self.backups.remove_all(&gone);
        let ghost gv = gone@.map_values(|x: String| x@);
        let ghost acts = self.actions@.map_values(|a: FileAction| a@);
        assert(acts =~= st.actions.push(ActionView::WriteBackup(loc@, content@)));
        let mut k: usize = 0;
        while k < gone.len()
            invariant
                k <= gone@.len(),
                gv == gone@.map_values(|x: String| x@),
                self.actions@.map_values(|a: FileAction| a@) == acts + gv.take(k as int).map_values(|p: Seq<char>| ActionView::RemoveBackup(p)),
                self.notes_dir@ == st.notes_dir,
                self.files@ == st.files,
                self.index@ == st.index,
                self.backups@ == without_paths(written, gv),
                gv == pruned_paths(written, loc@),
                written == stored(st.backups, loc@, content@),
            decreases gone.len() - k,
        {
            let ghost before = self.actions@.map_values(|a: FileAction| a@);
            self.actions.push(FileAction::RemoveBackup(gone[k].clone()));
            assert(self.actions@.map_values(|a: FileAction| a@) =~= before.push(ActionView::RemoveBackup(gv[k as int])));
            assert(gv.take(k + 1).map_values(|p: Seq<char>| ActionView::RemoveBackup(p)) =~= gv.take(k as int).map_values(|p: Seq<char>| ActionView::RemoveBackup(p)).push(ActionView::RemoveBackup(gv[k as int])));
            k += 1;
        }
        assert(gv.take(gv.len() as int) =~= gv);
        assert(self@ == with_backup(st, loc@, content@));
    }

    /// Writes a versioned backup of a note (the given text, or else the note's file) and
    /// prunes the old backups of its kind; gives the backup's location. The backup is
    /// stamped with the moment `now`, in seconds since the epoch.
    pub fn create_versioned_backup_at(
        &mut self,
        note_name: &str,
        backup_type: BackupType,
        content_override: Option<&str>,
        now: u64,
    ) -> (r: Result<String, String>)
        ensures
            (final(self)@, outcome_view(r)) == versioned_backup_outcome(
                old(self)@,
                note_name@,
                backup_type,
                opt_view(content_override),
                now,
            ),
    {
        let f = match self.note_file_name(note_name) {
            None => return Err(invalid_filename_error()),
            Some(f) => f,
        };
        let content: String = match content_override {
            Some(c) => owned(c),
            None => match self.files.get(note_name) {
                Some(c) => c.clone(),
                None => {
                    let path = join_path(self.notes_dir.as_str(), note_name);
                    proof {
                        reveal_strlit("Cannot create backup: source file '");
                        reveal_strlit("' does not exist");
                    }
                    return Err(
                        AppError::FileNotFound(
                            concat3("Cannot create backup: source file '", path.as_str(), "' does not exist"),
                        ).message(),
                    );
                },
            },
        };
        let loc = backup_location_for(note_name, f.as_str(), backup_type, now);
        self.record_backup(loc.as_str(), content.as_str());
        Ok(loc)
    }

    /// Creates an empty note at the moment `now`, refusing a name that is invalid or
    /// already taken on disk.
    pub fn create_new_note_at(&mut self, note_name: &str, now: u64) -> (r: Result<(), String>)
        ensures
            (final(self)@, outcome_view(r)) == create_outcome(old(self)@, note_name@, now),
    {
        match check_name(note_name) {
            Err(m) => return Err(m),
            Ok(()) => {},
        }
        if self.files.contains(note_name) {
            return Err(exists_error(note_name));
        }
        let ghost st = self@;
        proof {
            reveal_strlit("");
        }
        assert(""@ =~= Seq::<char>::empty());
        self.files.store(note_name, "");
        update_note_in_database(&mut self.index, note_name, "", #[verifier::truncate] (now as i64));
        let ghost before = self.actions@.map_values(|a: FileAction| a@);
        self.actions.push(FileAction::WriteNote(owned(note_name), String::new()));
        assert(self.actions@.map_values(|a: FileAction| a@) =~= before.push(ActionView::WriteNote(note_name@, Seq::empty())));
        assert(self@.files == stored(st.files, note_name@, Seq::empty()));
        assert(self@.index == upserted(st.index, fresh_record(note_name@, Seq::empty(), now as i64)));
        assert(self@.backups == st.backups);
        assert(self@.notes_dir == st.notes_dir);
        assert(self@ == create_outcome(st, note_name@, now).0);
        Ok(())
    }

    /// The content that the index holds for a note.
    pub fn get_note_content(&self, note_name: &str) -> (r: Result<String, String>)
        ensures
            outcome_view(r) == content_outcome(self@, note_name@),
    {
        match check_name(note_name) {
            Err(m) => return Err(m),
            Ok(()) => {},
        }
        match self.index.lookup(note_name) {
            Some(rec) => Ok(rec.content.clone()),
            None => Err(not_found_error(note_name)),
        }
    }

    /// The HTML of a note: the stored rendering where it is current, else the note rendered
    /// now, which is stored for next time.
    pub fn get_note_html_content(&mut self, note_name: &str) -> (r: Result<String, String>)
        ensures
            (final(self)@, outcome_view(r)) == html_outcome(old(self)@, note_name@),
    {
        match check_name(note_name) {
            Err(m) => return Err(m),
            Ok(()) => {},
        }
        let found = match self.index.lookup(note_name) {
            Some(rec) => Some(rec.clone_record()),
            None => None,
        };
        match found {
            None => Err(not_found_error(note_name)),
            Some(rec) => {
                if rec.is_indexed {
                    Ok(rec.html_render)
                } else {
                    let html = render_note(note_name, rec.content.as_str());
                    let updated = NoteRecord {
                        filename: rec.filename,
                        content: rec.content,
                        html_render: html.clone(),
                        modified: rec.modified,
                        is_indexed: true,
                    };
                    proof {
                        crate::index::lemma_record_of_name(self@.index, note_name@);
                    }
                    self.index.upsert(updated);
                    Ok(html)
                }
            },
        }
    }

    /// The names of all notes in the index, most recently modified first.
    pub fn list_all_notes(&self) -> (r: Result<Vec<String>, String>)
        ensures
            r matches Ok(v) && v@.map_values(|s: String| s@) == names_by_recency_spec(self@.index),
    {
        Ok(self.index.names_by_recency())
    }

    /// The file to hand to the system's opener for a note: its path under the notes
    /// directory, where the name is valid and the file is there.
    pub fn open_note_in_editor(&self, note_name: &str) -> (r: Result<String, String>)
        ensures
            outcome_view(r) == open_target(self@, note_name@),
    {
        match check_name(note_name) {
            Err(m) => return Err(m),
            Ok(()) => {},
        }
        if self.files.contains(note_name) {
            Ok(join_path(self.notes_dir.as_str(), note_name))
        } else {
            Err(not_found_error(note_name))
        }
    }
}

impl NoteStore {
    /// Saves a note's new content, provided the file still holds the text the editor
    /// started from; otherwise the new content is kept in a save-failure backup and the
    /// save is refused. Backups and the record are stamped with the moment `now`.
    pub fn save_note_with_content_check_at(&mut self, note_name: &str, content: &str, original_content: &str, now: u64) -> (r: Result<(), String>)
        ensures
            (final(self)@, outcome_view(r)) == save_outcome(old(self)@, note_name@, content@, original_content@, now),
    {
        match check_name(note_name) {
            Err(m) => return Err(m),
            Ok(()) => {},
        }
        let current: String = match self.files.get(note_name) {
            Some(c) => c.clone(),
            None => String::new(),
        };
        if current != owned(original_content) {
            match self.note_file_name(note_name) {
                Some(f) => {
                    let loc = backup_location_for(note_name, f.as_str(), BackupType::SaveFailure, now);
                    self.record_backup(loc.as_str(), content);
                },
                None => {},
            }
            return Err(conflict_error(note_name));
        }
        self.write_note_at(note_name, content, now)
    }

    /// Writes a note's file and, where that succeeds, gives the index a fresh record of it,
    /// stamped with the moment `now`.
    pub(crate) fn write_note_at(&mut self, note_name: &str, content: &str, now: u64) -> (r: Result<(), String>)
        ensures
            (final(self)@, outcome_view(r)) == write_outcome(old(self)@, note_name@, content@, now),
    {
        let r = self.safe_write_note_at(note_name, content, now);
        match r {
            Err(m) => Err(m),
            Ok(()) => {
                update_note_in_database(&mut self.index, note_name, content, #[verifier::truncate] (now as i64));
                Ok(())
            },
        }
    }

    /// Writes a note's file: where the file exists, its old text goes to a rollback backup
    /// first, stamped with the moment `now`; the file then takes the new text. The index is
    /// not touched.
    pub fn safe_write_note_at(&mut self, note_name: &str, content: &str, now: u64) -> (r: Result<(), String>)
        ensures
            (final(self)@, outcome_view(r)) == file_write_outcome(old(self)@, note_name@, content@, now),
    {
        let current: String = match self.files.get(note_name) {
            Some(c) => c.clone(),
            None => String::new(),
        };
        let on_disk = self.files.contains(note_name);
        if on_disk {
            match self.note_file_name(note_name) {
                None => return Err(invalid_filename_error()),
                Some(f) => {
                    let loc = backup_location_for(note_name, f.as_str(), BackupType::Rollback, now);
                    self.record_backup(loc.as_str(), current.as_str());
                },
            }
        }
        let ghost st2 = self@;
        self.files.store(note_name, content);
        let ghost before = self.actions@.map_values(|a: FileAction| a@);
        self.actions.push(FileAction::WriteNote(owned(note_name), owned(content)));
        assert(self.actions@.map_values(|a: FileAction| a@) =~= before.push(ActionView::WriteNote(note_name@, content@)));
        assert(self@.files == stored(st2.files, note_name@, content@));
        Ok(())
    }

    /// Renames a note: on disk (keeping a rename backup while it moves) and in the index. A
    /// note that is not on disk is renamed in the index alone, where a file already has the
    /// new name. The rename backup is stamped with the moment `now`.
    pub fn rename_note_at(&mut self, old_name: String, new_name: String, now: u64) -> (r: Result<(), String>)
        ensures
            (final(self)@, outcome_view(r)) == rename_outcome(old(self)@, old_name@, new_name@, now),
    {
        match check_name(old_name.as_str()) {
            Err(m) => return Err(m),
            Ok(()) => {},
        }
        match check_name(new_name.as_str()) {
            Err(m) => return Err(m),
            Ok(()) => {},
        }
        let f = match self.note_file_name(old_name.as_str()) {
            None => return Err(invalid_filename_error()),
            Some(f) => f,
        };
        let ghost st = self@;
        let target_on_disk = self.files.contains(new_name.as_str());
        let content: String = match self.files.get(old_name.as_str()) {
            None => {
                if target_on_disk {
                    self.index.rename(old_name.as_str(), new_name.as_str());
                    return Ok(());
                } else {
                    return Err(rename_missing_error(old_name.as_str()));
                }
            },
            Some(c) => c.clone(),
        };
        let loc = backup_location_for(old_name.as_str(), f.as_str(), BackupType::Rename, now);
        self.record_backup(loc.as_str(), content.as_str());
        let ghost st2 = self@;
        if target_on_disk {
            self.backups.remove(loc.as_str());
            let ghost before = self.actions@.map_values(|a: FileAction| a@);
            self.actions.push(FileAction::RemoveBackup(loc.clone()));
            assert(self.actions@.map_values(|a: FileAction| a@) =~= before.push(ActionView::RemoveBackup(loc@)));
            return Err(exists_error(new_name.as_str()));
        }
        self.files.remove(old_name.as_str());
        self.files.store(new_name.as_str(), content.as_str());
        self.index.rename(old_name.as_str(), new_name.as_str());
        self.backups.remove(loc.as_str());
        let ghost before = self.actions@.map_values(|a: FileAction| a@);
        self.actions.push(FileAction::RenameNote(old_name.clone(), new_name.clone()));
        self.actions.push(FileAction::RemoveBackup(loc.clone()));
        assert(self.actions@.map_values(|a: FileAction| a@) =~= before.push(ActionView::RenameNote(old_name@, new_name@)).push(ActionView::RemoveBackup(loc@)));
        Ok(())
    }

    /// Deletes a note: a note on disk is copied to a delete backup and removed; its record
    /// leaves the index either way. Deleting a note that is not there succeeds. The delete
    /// backup is stamped with the moment `now`.
    pub fn delete_note_at(&mut self, note_name: &str, now: u64) -> (r: Result<(), String>)
        ensures
            (final(self)@, outcome_view(r)) == delete_outcome(old(self)@, note_name@, now),
    {
        match check_name(note_name) {
            Err(m) => return Err(m),
            Ok(()) => {},
        }
        let f = self.note_file_name(note_name);
        let content: Option<String> = match self.files.get(note_name) {
            Some(c) => Some(c.clone()),
            None => None,
        };
        match (f, content) {
            (Some(f), Some(c)) => {
                let loc = backup_location_for(note_name, f.as_str(), BackupType::Delete, now);
                self.record_backup(loc.as_str(), c.as_str());
                self.files.remove(note_name);
                self.index.remove(note_name);
                let ghost before = self.actions@.map_values(|a: FileAction| a@);
                self.actions.push(FileAction::RemoveNote(owned(note_name)));
                assert(self.actions@.map_values(|a: FileAction| a@) =~= before.push(ActionView::RemoveNote(note_name@)));
                Ok(())
            },
            _ => {
                self.index.remove(note_name);
                Ok(())
            },
        }
    }
}

/// The directory after writing the listed files, in order.
pub open spec fn files_of(listing: Seq<DiskView>) -> Seq<EntryView>
    decreases listing.len(),
{
    if listing.len() == 0 {
        Seq::empty()
    } else {
        stored(files_of(listing.drop_last()), listing.last().filename, listing.last().content)
    }
}

/// What an outside change to a file does to the store. A hidden file changes nothing. A
/// file that is there takes its text and a fresh record, and where the index held other
/// text for it, that text goes to an external-change backup first. A file that is gone
/// leaves the directory and the index.
pub open spec fn external_change_outcome(st: StoreView, name: Seq<char>, current: Option<(Seq<char>, i64)>, now: u64) -> StoreView {
    if is_hidden(name) {
        st
    } else {
        match current {
            Some((content, modified)) => {
                let st2 = match (record_of(st.index, name), note_file(st, name)) {
                    (Some(r), Some(f)) => if r.content != content {
                        with_backup(st, backup_location(name, f, BackupType::ExternalChange, now), r.content)
                    } else {
                        st
                    },
                    _ => st,
                };
                StoreView {
                    files: stored(st2.files, name, content),
                    index: upserted(st2.index, fresh_record(name, content, modified)),
                    ..st2
                }
            },
            None => StoreView {
                files: removed(st.files, name),
                index: without_name(st.index, name),
                ..st
            },
        }
    }
}

impl NoteStore {
    /// Takes in a listing of the notes directory: the directory holds the listed files, and
    /// the index is rebuilt from them.
    pub fn load_directory(&mut self, listing: &Vec<DiskNote>)
        ensures
            final(self)@.files == files_of(listing@.map_values(|d: DiskNote| d@)),
            final(self)@.index == load_spec(old(self)@.index, listing@.map_values(|d: DiskNote| d@)),
            final(self)@.notes_dir == old(self)@.notes_dir,
            final(self)@.backups == old(self)@.backups,
            final(self)@.actions == old(self)@.actions,
    {
        let ghost lv = listing@.map_values(|d: DiskNote| d@);
        let mut files = FileMap::new();
        let mut i: usize = 0;
        assert(lv.take(0) =~= Seq::<DiskView>::empty());
        while i < listing.len()
            invariant
                i <= listing@.len(),
                lv == listing@.map_values(|d: DiskNote| d@),
                files@ == files_of(lv.take(i as int)),
            decreases listing.len() - i,
        {
            files.store(listing[i].filename.as_str(), listing[i].content.as_str());
            assert(lv.take(i + 1).drop_last() =~= lv.take(i as int));
            assert(lv.take(i + 1).last() == lv[i as int]);
            i += 1;
        }
        assert(lv.take(lv.len() as int) =~= lv);
        self.files = files;
        load_all_notes_into_sqlite(&mut self.index, listing);
    }

    /// Rebuilds the index from a listing of the notes directory, starting from an empty one.
    pub fn recreate_database(&mut self, listing: &Vec<DiskNote>)
        ensures
            final(self)@ == (StoreView {
                index: load_spec(Seq::empty(), listing@.map_values(|d: DiskNote| d@)),
                ..old(self)@
            }),
    {
        self.index = NotesIndex::new();
        load_all_notes_into_sqlite(&mut self.index, listing);
    }

    /// Checks the index against a listing of the notes directory and rebuilds it where the
    /// quick check finds a difference; tells whether it did.
    pub fn sync_with_directory(&mut self, listing: &Vec<DiskNote>) -> (rebuilt: bool)
        ensures
            rebuilt == !in_sync(old(self)@.index, listing@.map_values(|d: DiskNote| d@)),
            rebuilt ==> final(self)@ == (StoreView {
                index: load_spec(Seq::empty(), listing@.map_values(|d: DiskNote| d@)),
                ..old(self)@
            }),
            !rebuilt ==> final(self)@ == old(self)@,
    {
        if quick_filesystem_sync_check(&self.index, listing) {
            false
        } else {
            self.recreate_database(listing);
            true
        }
    }

    /// Recovers from a failed operation by rebuilding the index from a fresh reading of
    /// the notes directory. Where that reading failed, the store is left as it was and the
    /// rebuild error carries `success_message` and the reading's error. The operation's
    /// description, its error and `failure_message` only describe the event; nothing here
    /// depends on them.
    pub fn handle_database_recovery(
        &mut self,
        listing: Result<Vec<DiskNote>, AppError>,
        operation_description: &str,
        original_error: &AppError,
        success_message: &str,
        failure_message: &str,
    ) -> (r: Result<(), AppError>)
        ensures
            match listing {
                Ok(l) => r is Ok && final(self)@ == (StoreView {
                    index: load_spec(Seq::empty(), l@.map_values(|d: DiskNote| d@)),
                    ..old(self)@
                }),
                Err(e) => final(self)@ == old(self)@ && match r {
                    Err(x) => x@ == AppErrorView::DatabaseRebuild(
                        success_message@ + ": "@ + error_text(e@),
                    ),
                    Ok(_) => false,
                },
            },
    {
        match listing {
            Ok(l) => {
                self.recreate_database(&l);
                Ok(())
            },
            Err(e) => {
                let shown = e.message();
                Err(AppError::DatabaseRebuild(concat3(success_message, ": ", shown.as_str())))
            },
        }
    }

    /// Takes in an outside change to a file of the notes directory, given by its path
    /// within the directory and, where the file is there, its text and modification time.
    /// A backup of the replaced text is stamped with the moment `now`.
    pub fn apply_external_change_at(&mut self, filename: &str, current: Option<(String, i64)>, now: u64)
        ensures
            final(self)@ == external_change_outcome(
                old(self)@,
                filename@,
                change_view(current),
                now,
            ),
    {
        if is_hidden_path(filename) {
            return;
        }
        match current {
            Some((content, modified)) => {
                let old_text: Option<String> = match self.index.lookup(filename) {
                    Some(r) => Some(r.content.clone()),
                    None => None,
                };
                let f = self.note_file_name(filename);
                match (old_text, f) {
                    (Some(t), Some(f)) => {
                        if t != content {
                            let loc = backup_location_for(filename, f.as_str(), BackupType::ExternalChange, now);
                            self.record_backup(loc.as_str(), t.as_str());
                        }
                    },
                    _ => {},
                }
                self.files.store(filename, content.as_str());
                update_note_in_database(&mut self.index, filename, content.as_str(), modified);
            },
            None => {
                self.files.remove(filename);
                self.index.remove(filename);
            },
        }
    }
}

impl NoteStore {
    /// Creates an empty note, stamped with the current time (see
    /// [`NoteStore::create_new_note_at`]).
    pub fn create_new_note(&mut self, note_name: &str) -> (r: Result<(), String>)
        ensures
            exists|now: u64| (final(self)@, outcome_view(r)) == #[trigger] create_outcome(old(self)@, note_name@, now),
    {
        let now = current_unix_time();
        self.create_new_note_at(note_name, now)
    }

    /// Saves a note's new content at the current time (see
    /// [`NoteStore::save_note_with_content_check_at`]).
    pub fn save_note_with_content_check(&mut self, note_name: &str, content: &str, original_content: &str) -> (r: Result<(), String>)
        ensures
            exists|now: u64| (final(self)@, outcome_view(r)) == #[trigger] save_outcome(old(self)@, note_name@, content@, original_content@, now),
    {
        let now = current_unix_time();
        self.save_note_with_content_check_at(note_name, content, original_content, now)
    }

    /// Writes a note's file at the current time (see [`NoteStore::safe_write_note_at`]).
    pub fn safe_write_note(&mut self, note_name: &str, content: &str) -> (r: Result<(), String>)
        ensures
            exists|now: u64| (final(self)@, outcome_view(r)) == #[trigger] file_write_outcome(old(self)@, note_name@, content@, now),
    {
        let now = current_unix_time();
        self.safe_write_note_at(note_name, content, now)
    }

    /// Renames a note, stamping its rename backup with the current time (see
    /// [`NoteStore::rename_note_at`]).
    pub fn rename_note(&mut self, old_name: String, new_name: String) -> (r: Result<(), String>)
        ensures
            exists|now: u64| (final(self)@, outcome_view(r)) == #[trigger] rename_outcome(old(self)@, old_name@, new_name@, now),
    {
        let now = current_unix_time();
        self.rename_note_at(old_name, new_name, now)
    }

    /// Deletes a note, stamping its delete backup with the current time (see
    /// [`NoteStore::delete_note_at`]).
    pub fn delete_note(&mut self, note_name: &str) -> (r: Result<(), String>)
        ensures
            exists|now: u64| (final(self)@, outcome_view(r)) == #[trigger] delete_outcome(old(self)@, note_name@, now),
    {
        let now = current_unix_time();
        self.delete_note_at(note_name, now)
    }

    /// Writes a versioned backup of a note stamped with the current time (see
    /// [`NoteStore::create_versioned_backup_at`]).
    pub fn create_versioned_backup(&mut self, note_name: &str, backup_type: BackupType, content_override: Option<&str>) -> (r: Result<String, String>)
        ensures
            exists|now: u64| (final(self)@, outcome_view(r)) == #[trigger] versioned_backup_outcome(
                old(self)@,
                note_name@,
                backup_type,
                opt_view(content_override),
                now,
            ),
    {
        let now = current_unix_time();
        self.create_versioned_backup_at(note_name, backup_type, content_override, now)
    }

    /// Takes in an outside change to a file, stamping any backup with the current time
    /// (see [`NoteStore::apply_external_change_at`]).
    pub fn apply_external_change(&mut self, filename: &str, current: Option<(String, i64)>)
        ensures
            exists|now: u64| final(self)@ == #[trigger] external_change_outcome(
                old(self)@,
                filename@,
                change_view(current),
                now,
            ),
    {
        let now = current_unix_time();
        self.apply_external_change_at(filename, current, now)
    }
}

/// The text and time of a changed file, taken by their views.
pub open spec fn change_view(current: Option<(String, i64)>) -> Option<(Seq<char>, i64)> {
    match current {
        Some((c, m)) => Some((c@, m)),
        None => None,
    }
}

/// The store's directory and index have no repeated names.
pub open spec fn store_wf(st: StoreView) -> bool {
    keys_distinct(st.files) && distinct_names(st.index) && keys_distinct(st.backups)
}

/// Writing a backup leaves the notes directory and the index as they were.
pub proof fn lemma_with_backup_keeps_notes(st: StoreView, loc: Seq<char>, content: Seq<char>)
    ensures
        with_backup(st, loc, content).files == st.files,
        with_backup(st, loc, content).index == st.index,
        with_backup(st, loc, content).notes_dir == st.notes_dir,
{
}

/// Writing a backup keeps at most [`crate::backups::MAX_BACKUPS`] backups of its group in
/// the backup directory.
pub proof fn law_backups_bounded(st: StoreView, loc: Seq<char>, content: Seq<char>)
    requires
        store_wf(st),
        crate::backups::prune_prefix(crate::backups::name_part(loc)) is Some,
    ensures
        with_backup(st, loc, content).backups.filter(
            crate::backups::group_pred(dir_part(loc), crate::backups::prune_prefix(crate::backups::name_part(loc))->0),
        ).len() <= crate::backups::MAX_BACKUPS,
{
    let written = stored(st.backups, loc, content);
    crate::filemap::lemma_lookup_stored(st.backups, loc, content, loc);
    crate::backups::law_prune_keeps_at_most_max(written, loc);
}

/// A created note is on disk, empty, and reads back empty.
pub proof fn law_create_then_read(st: StoreView, name: Seq<char>, now: u64)
    requires
        store_wf(st),
        create_outcome(st, name, now).1 is Ok,
    ensures
        lookup(create_outcome(st, name, now).0.files, name) == Some(Seq::<char>::empty()),
        content_outcome(create_outcome(st, name, now).0, name) == Ok::<Seq<char>, Seq<char>>(Seq::empty()),
{
    crate::filemap::lemma_lookup_stored(st.files, name, Seq::empty(), name);
    crate::index::lemma_lookup_upserted(st.index, fresh_record(name, Seq::empty(), now as i64), name);
}

/// Creating a note whose file exists is refused and changes nothing.
pub proof fn law_create_existing_refused(st: StoreView, name: Seq<char>, now: u64)
    requires
        note_name_check(name) is Ok,
        lookup(st.files, name) is Some,
    ensures
        create_outcome(st, name, now) == (st, Err::<(), Seq<char>>(exists_message(name))),
{
}

/// A saved note holds the new content on disk and reads it back.
pub proof fn law_save_then_read(st: StoreView, name: Seq<char>, content: Seq<char>, original: Seq<char>, now: u64)
    requires
        store_wf(st),
        save_outcome(st, name, content, original, now).1 is Ok,
    ensures
        lookup(save_outcome(st, name, content, original, now).0.files, name) == Some(content),
        content_outcome(save_outcome(st, name, content, original, now).0, name) == Ok::<Seq<char>, Seq<char>>(content),
{
    if lookup(st.files, name) is Some {
        let f = note_file(st, name)->0;
        lemma_with_backup_keeps_notes(st, backup_location(name, f, BackupType::Rollback, now), lookup(st.files, name)->0);
    }
    crate::filemap::lemma_lookup_stored(st.files, name, content, name);
    crate::index::lemma_lookup_upserted(st.index, fresh_record(name, content, now as i64), name);
}

/// A save is refused, and the disk left as it was, when the file no longer holds the text
/// the editor started from.
pub proof fn law_save_conflict_keeps_file(st: StoreView, name: Seq<char>, content: Seq<char>, original: Seq<char>, now: u64)
    requires
        note_name_check(name) is Ok,
        (match lookup(st.files, name) {
            Some(c) => c,
            None => Seq::<char>::empty(),
        }) != original,
    ensures
        save_outcome(st, name, content, original, now).1 == Err::<(), Seq<char>>(conflict_message(name)),
        save_outcome(st, name, content, original, now).0.files == st.files,
        save_outcome(st, name, content, original, now).0.index == st.index,
{
}

/// A deleted note is gone from disk, from the index and from the listing of notes.
pub proof fn law_delete_then_read(st: StoreView, name: Seq<char>, now: u64)
    requires
        store_wf(st),
        note_name_check(name) is Ok,
    ensures
        delete_outcome(st, name, now).1 is Ok,
        lookup(delete_outcome(st, name, now).0.files, name) is None,
        content_outcome(delete_outcome(st, name, now).0, name) == Err::<Seq<char>, Seq<char>>(not_found_message(name)),
        !names_by_recency_spec(delete_outcome(st, name, now).0.index).contains(name),
{
    lemma_valid_name_has_file(st, name);
    crate::index::lemma_lookup_without(st.index, name, name);
    let idx = delete_outcome(st, name, now).0.index;
    if names_by_recency_spec(idx).contains(name) {
        crate::index::lemma_listed_names(idx, name);
        let i = choose|i: int| 0 <= i < idx.len() && #[trigger] idx[i].filename == name;
        let base = match (note_file(st, name), lookup(st.files, name)) {
            (Some(f), Some(c)) => with_backup(st, backup_location(name, f, BackupType::Delete, now), c).index,
            _ => st.index,
        };
        assert(idx == without_name(base, name));
        assert(idx.contains(idx[i]));
        base.lemma_filter_contains_rev(|r: RecordView| r.filename != name, idx[i]);
    }
    match (note_file(st, name), lookup(st.files, name)) {
        (Some(f), Some(c)) => {
            lemma_with_backup_keeps_notes(st, backup_location(name, f, BackupType::Delete, now), c);
            crate::filemap::lemma_lookup_removed(st.files, name, name);
        },
        _ => {
            if lookup(st.files, name) is Some {
            }
        },
    }
}

/// Renaming a note on disk moves its content to the new name: the old name is gone from
/// disk and from the index, and the new name reads what the old one held.
pub proof fn law_rename_moves_note(st: StoreView, old: Seq<char>, new: Seq<char>, now: u64)
    requires
        store_wf(st),
        lookup(st.files, old) is Some,
        record_of(st.index, old) is Some,
        rename_outcome(st, old, new, now).1 is Ok,
    ensures
        old != new,
        lookup(rename_outcome(st, old, new, now).0.files, new) == lookup(st.files, old),
        lookup(rename_outcome(st, old, new, now).0.files, old) is None,
        content_outcome(rename_outcome(st, old, new, now).0, new) == Ok::<Seq<char>, Seq<char>>(record_of(st.index, old)->0.content),
        content_outcome(rename_outcome(st, old, new, now).0, old) == Err::<Seq<char>, Seq<char>>(not_found_message(old)),
{
    let f = note_file(st, old)->0;
    let c = lookup(st.files, old)->0;
    let loc = backup_location(old, f, BackupType::Rename, now);
    lemma_with_backup_keeps_notes(st, loc, c);
    crate::filemap::lemma_lookup_removed(st.files, old, new);
    crate::filemap::lemma_lookup_removed(st.files, old, old);
    crate::filemap::lemma_lookup_stored(removed(st.files, old), new, c, old);
    crate::index::lemma_lookup_renamed(st.index, old, new);
}

/// Leaving a name out twice is leaving it out once.
proof fn lemma_without_name_twice(s: Seq<RecordView>, name: Seq<char>)
    ensures
        without_name(without_name(s, name), name) == without_name(s, name),
    decreases s.len(),
{
    reveal(Seq::filter);
    if s.len() > 0 {
        let init = s.drop_last();
        lemma_without_name_twice(init, name);
        if s.last().filename != name {
            without_name(init, name).lemma_filter_push(s.last(), |r: RecordView| r.filename != name);
        }
    } else {
        assert(without_name(s, name) =~= s);
        assert(without_name(without_name(s, name), name) =~= s);
    }
}

/// Deleting is idempotent: deleting a note a second time succeeds and changes neither the
/// notes directory nor the index.
pub proof fn law_delete_idempotent(st: StoreView, name: Seq<char>, now: u64, later: u64)
    requires
        store_wf(st),
        delete_outcome(st, name, now).1 is Ok,
    ensures
        delete_outcome(delete_outcome(st, name, now).0, name, later).1 is Ok,
        delete_outcome(delete_outcome(st, name, now).0, name, later).0.files == delete_outcome(st, name, now).0.files,
        delete_outcome(delete_outcome(st, name, now).0, name, later).0.index == delete_outcome(st, name, now).0.index,
{
    let st1 = delete_outcome(st, name, now).0;
    match (note_file(st, name), lookup(st.files, name)) {
        (Some(f), Some(c)) => {
            let loc = backup_location(name, f, BackupType::Delete, now);
            lemma_with_backup_keeps_notes(st, loc, c);
            crate::filemap::lemma_lookup_removed(st.files, name, name);
            assert(lookup(st1.files, name) is None);
            lemma_without_name_twice(st.index, name);
        },
        _ => {
            lemma_without_name_twice(st.index, name);
        },
    }
}

/// Renaming a note on disk onto a name that a file already has is refused, and both notes
/// stay as they were, on disk and in the index.
pub proof fn law_rename_onto_existing_refused(st: StoreView, old: Seq<char>, new: Seq<char>, now: u64)
    requires
        note_name_check(old) is Ok,
        note_name_check(new) is Ok,
        lookup(st.files, old) is Some,
        lookup(st.files, new) is Some,
    ensures
        rename_outcome(st, old, new, now).1 == Err::<(), Seq<char>>(exists_message(new)),
        rename_outcome(st, old, new, now).0.files == st.files,
        rename_outcome(st, old, new, now).0.index == st.index,
{
    lemma_valid_name_has_file(st, old);
    let f = note_file(st, old)->0;
    let c = lookup(st.files, old)->0;
    lemma_with_backup_keeps_notes(st, backup_location(old, f, BackupType::Rename, now), c);
}

/// Reading a note's HTML leaves its content, and every file on disk, as they were.
pub proof fn law_html_keeps_content(st: StoreView, name: Seq<char>)
    requires
        store_wf(st),
    ensures
        html_outcome(st, name).0.files == st.files,
        content_outcome(html_outcome(st, name).0, name) == content_outcome(st, name),
{
    match record_of(st.index, name) {
        Some(r) => {
            crate::index::lemma_record_of_name(st.index, name);
            crate::index::lemma_lookup_upserted(st.index, RecordView { html_render: rendered_note(name, r.content), is_indexed: true, ..r }, name);
        },
        None => {},
    }
}

/// A save refused because the file changed keeps the new text in a save-failure backup, so
/// nothing typed is lost. (The backup must not have been pruned at once, which happens
/// only where many newer save-failure backups of the same stem exist.)
pub proof fn law_refused_save_keeps_text(st: StoreView, name: Seq<char>, content: Seq<char>, original: Seq<char>, now: u64)
    requires
        store_wf(st),
        note_name_check(name) is Ok,
        (match lookup(st.files, name) {
            Some(c) => c,
            None => Seq::<char>::empty(),
        }) != original,
        !pruned_paths(
            stored(st.backups, backup_location(name, note_file(st, name)->0, BackupType::SaveFailure, now), content),
            backup_location(name, note_file(st, name)->0, BackupType::SaveFailure, now),
        ).contains(backup_location(name, note_file(st, name)->0, BackupType::SaveFailure, now)),
    ensures
        lookup(
            save_outcome(st, name, content, original, now).0.backups,
            backup_location(name, note_file(st, name)->0, BackupType::SaveFailure, now),
        ) == Some(content),
{
    lemma_valid_name_has_file(st, name);
    let loc = backup_location(name, note_file(st, name)->0, BackupType::SaveFailure, now);
    let written = stored(st.backups, loc, content);
    crate::filemap::lemma_lookup_stored(st.backups, loc, content, loc);
    crate::filemap::lemma_lookup_without_paths(written, pruned_paths(written, loc), loc);
}

} // verus!
