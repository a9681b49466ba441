//! Earlier versions of notes, read back from the backup directory: the backups of a note,
//! the notes that were deleted, and recovering either into the notes directory.
use vstd::prelude::*;
use vstd::utf8::encode_utf8;
use crate::text::{chars_of, concat2, concat3, ends_with_chars, owned, seq_ends_with, string_of_range};
use crate::errors::{AppError, AppErrorView, error_text};
use crate::strings::{age_text, current_unix_time, format_elapsed};
use crate::backups::{file_stem, lemma_nth_dot_bound, name_part, nth_dot, nth_dot_from, stem_of, split_dir};
use crate::paths::{file_name, file_name_of};
use crate::filemap::{EntryView, lookup, removed};
use crate::ordering::{lemma_first_after_is, sorted_stable};
use crate::store::{
    ActionView, FileAction, NoteStore, StoreView, name_verdict, outcome_view, write_outcome,
};

verus! {

/// A backup of a note, as the versions list shows it.
#[derive(Debug, Clone)]
pub struct NoteVersion {
    pub filename: String,
    pub backup_type: String,
    pub timestamp: u64,
    pub size: u64,
    pub formatted_time: String,
}

/// A deleted note whose backup can bring it back.
#[derive(Debug, Clone)]
pub struct DeletedFile {
    pub filename: String,
    pub backup_filename: String,
    pub deleted_at: String,
    pub timestamp: u64,
}

/// The value of a [`NoteVersion`].
pub struct VersionView {
    pub filename: Seq<char>,
    pub backup_type: Seq<char>,
    pub timestamp: u64,
    pub size: u64,
    pub formatted_time: Seq<char>,
}

/// The value of a [`DeletedFile`].
pub struct DeletedView {
    pub filename: Seq<char>,
    pub backup_filename: Seq<char>,
    pub deleted_at: Seq<char>,
    pub timestamp: u64,
}

impl View for NoteVersion {
    type V = VersionView;

    open spec fn view(&self) -> VersionView {
        VersionView {
            filename: self.filename@,
            backup_type: self.backup_type@,
            timestamp: self.timestamp,
            size: self.size,
            formatted_time: self.formatted_time@,
        }
    }
}

impl View for DeletedFile {
    type V = DeletedView;

    open spec fn view(&self) -> DeletedView {
        DeletedView {
            filename: self.filename@,
            backup_filename: self.backup_filename@,
            deleted_at: self.deleted_at@,
            timestamp: self.timestamp,
        }
    }
}

/// A decimal digit.
pub open spec fn is_digit(c: char) -> bool {
    '0' <= c <= '9'
}

/// The number that a run of decimal digits writes.
pub open spec fn digits_value(s: Seq<char>) -> nat
    decreases s.len(),
{
    if s.len() == 0 {
        0
    } else {
        digits_value(s.drop_last()) * 10 + ((s.last() as nat) - ('0' as nat)) as nat
    }
}

/// A timestamp as `u64`'s `FromStr` reads it: an optional `+` before at least one decimal
/// digit, the value fitting in a `u64`.
pub open spec fn parse_timestamp(s: Seq<char>) -> Option<u64> {
    digits_reading(if s.len() > 1 && s[0] == '+' { s.drop_first() } else { s })
}

/// The number that a non-empty run of decimal digits writes, where it fits in a `u64`.
pub open spec fn digits_reading(digits: Seq<char>) -> Option<u64> {
    if digits.len() > 0 && (forall|i: int| 0 <= i < digits.len() ==> is_digit(#[trigger] digits[i]))
        && digits_value(digits) <= u64::MAX {
        Some(digits_value(digits) as u64)
    } else {
        None
    }
}

/// The parts of a backup name `{stem}.{kind}.{timestamp}.md`, split at its first three
/// dots as `str::splitn(4, '.')` splits it: the stem, the kind and the timestamp, where the
/// last part is exactly `md` and the third reads as a timestamp.
pub open spec fn backup_parts(f: Seq<char>) -> Option<(Seq<char>, Seq<char>, u64)> {
    match nth_dot(f, 0, 0) {
        None => None,
        Some(a) => match nth_dot(f, a + 1, 0) {
            None => None,
            Some(b) => match nth_dot(f, b + 1, 0) {
                None => None,
                Some(c) => if f.skip(c + 1) == seq!['m', 'd'] {
                    match parse_timestamp(f.subrange(b + 1, c)) {
                        Some(ts) => Some((f.take(a), f.subrange(a + 1, b), ts)),
                        None => None,
                    }
                } else {
                    None
                },
            },
        },
    }
}

fn parse_timestamp_chars(v: &Vec<char>, from: usize, to: usize) -> (r: Option<u64>)
    requires
        from <= to <= v@.len(),
    ensures
        r == parse_timestamp(v@.subrange(from as int, to as int)),
{
    let ghost whole = v@.subrange(from as int, to as int);
    if to - from > 1 && v[from] == '+' {
        assert(whole[0] == v@[from as int]);
        assert(whole.drop_first() =~= v@.subrange(from + 1, to as int));
        parse_digits(v, from + 1, to)
    } else {
        proof {
            if to > from {
                assert(whole[0] == v@[from as int]);
            }
        }
        parse_digits(v, from, to)
    }
}

fn parse_digits(v: &Vec<char>, from: usize, to: usize) -> (r: Option<u64>)
    requires
        from <= to <= v@.len(),
    ensures
        r == digits_reading(v@.subrange(from as int, to as int)),
{
    let ghost s = v@.subrange(from as int, to as int);
    if from == to {
        return None;
    }
    let mut value: u64 = 0;
    let mut k = from;
    while k < to
        invariant
            from <= k <= to <= v@.len(),
            s == v@.subrange(from as int, to as int),
            forall|i: int| 0 <= i < k - from ==> is_digit(#[trigger] s[i]),
            value as nat == digits_value(s.take(k - from)),
        decreases to - k,
    {
        let c = v[k];
        assert(s[k - from] == c);
        if !('0' <= c && c <= '9') {
            return None;
        }
        let d = (c as u32 - '0' as u32) as u64;
        assert(s.take(k - from + 1).drop_last() =~= s.take(k - from));
        if value > (u64::MAX - d) / 10 {
            proof {
                if forall|i: int| 0 <= i < s.len() ==> is_digit(#[trigger] s[i]) {
                    lemma_digits_value_prefix(s, k - from + 1);
                }
            }
            return None;
        }
        value = value * 10 + d;
        k += 1;
    }
    assert(s.take(to - from) =~= s);
    Some(value)
}

proof fn lemma_digits_value_prefix(s: Seq<char>, n: int)
    requires
        0 <= n <= s.len(),
        forall|i: int| 0 <= i < s.len() ==> is_digit(#[trigger] s[i]),
    ensures
        digits_value(s.take(n)) <= digits_value(s),
    decreases s.len() - n,
{
    if n < s.len() {
        lemma_digits_value_prefix(s, n + 1);
        assert(s.take(n + 1).drop_last() =~= s.take(n));
        assert(s.take(n + 1).last() == s[n]);
        assert(is_digit(s[n]));
        assert(digits_value(s.take(n + 1)) == digits_value(s.take(n)) * 10 + ((s[n] as nat) - ('0' as nat)) as nat);
    } else {
        assert(s.take(n) =~= s);
    }
}

/// Splits a backup name into its stem, kind and timestamp.
pub fn backup_name_parts(f: &str) -> (r: Option<(String, String, u64)>)
    ensures
        r matches Some(p) ==> backup_parts(f@) == Some((p.0@, p.1@, p.2)),
        r is None ==> backup_parts(f@) is None,
{
    let v = chars_of(f);
    let a = match nth_dot_from(&v, 0, 0) {
        None => return None,
        Some(a) => a,
    };
    proof {
        lemma_nth_dot_bound(v@, 0, 0);
    }
    assert(a < v@.len());
    let b = match nth_dot_from(&v, a + 1, 0) {
        None => return None,
        Some(b) => b,
    };
    proof {
        lemma_nth_dot_bound(v@, a + 1, 0);
    }
    assert(a < b && b < v@.len());
    let c = match nth_dot_from(&v, b + 1, 0) {
        None => return None,
        Some(c) => c,
    };
    proof {
        lemma_nth_dot_bound(v@, b + 1, 0);
    }
    assert(b < c && c < v@.len());
    let tail_is_md = v.len() - c == 3 && v[c + 1] == 'm' && v[c + 2] == 'd';
    proof {
        if tail_is_md {
            assert(v@.skip(c + 1) =~= seq!['m', 'd']);
        } else if v@.skip(c + 1) == seq!['m', 'd'] {
            assert(v@.skip(c + 1).len() == 2);
            assert(v@.skip(c + 1)[0] == v@[c + 1]);
            assert(v@.skip(c + 1)[1] == v@[c + 2]);
        }
    }
    if !tail_is_md {
        return None;
    }
    match parse_timestamp_chars(&v, b + 1, c) {
        None => None,
        Some(ts) => {
            assert(v@.take(a as int) =~= v@.subrange(0, a as int));
            Some((string_of_range(&v, 0, a), string_of_range(&v, a + 1, b), ts))
        },
    }
}

/// The kind and timestamp of a backup of the note whose stem is `base`.
pub open spec fn backup_of(f: Seq<char>, base: Seq<char>) -> Option<(Seq<char>, u64)> {
    match backup_parts(f) {
        Some((stem, kind, ts)) => if stem == base {
            Some((kind, ts))
        } else {
            None
        },
        None => None,
    }
}

/// Reads the kind and timestamp of a backup of the note whose stem is `base_name`.
pub fn parse_backup_filename(filename: &str, base_name: &str) -> (r: Option<(String, u64)>)
    ensures
        r matches Some(p) ==> backup_of(filename@, base_name@) == Some((p.0@, p.1)),
        r is None ==> backup_of(filename@, base_name@) is None,
{
    match backup_name_parts(filename) {
        Some((stem, kind, ts)) => {
            if stem == owned(base_name) {
                Some((kind, ts))
            } else {
                None
            }
        },
        None => None,
    }
}

/// The file name and deletion time of a note kept in a delete backup: the stem with `.md`.
pub open spec fn deleted_of(f: Seq<char>) -> Option<(Seq<char>, u64)> {
    match backup_parts(f) {
        Some((stem, kind, ts)) => if kind == "delete_backup"@ {
            Some((stem + ".md"@, ts))
        } else {
            None
        },
        None => None,
    }
}

/// Reads the file name and deletion time from the name of a delete backup.
pub fn parse_deleted_backup_filename(filename: &str) -> (r: Option<(String, u64)>)
    ensures
        r matches Some(p) ==> deleted_of(filename@) == Some((p.0@, p.1)),
        r is None ==> deleted_of(filename@) is None,
{
    proof {
        reveal_strlit("delete_backup");
        reveal_strlit(".md");
    }
    match backup_name_parts(filename) {
        Some((stem, kind, ts)) => {
            if kind == owned("delete_backup") {
                Some((concat2(stem.as_str(), ".md"), ts))
            } else {
                None
            }
        },
        None => None,
    }
}

/// The stem by which the backups of a note are named.
pub open spec fn note_base(name: Seq<char>) -> Seq<char> {
    match file_name_of(name) {
        Some(f) => file_stem(f),
        None => name,
    }
}

/// The version listed for a backup entry of the top of the backup directory.
pub open spec fn version_of(e: EntryView, base: Seq<char>, now: u64) -> Option<VersionView> {
    if name_part(e.0) == e.0 {
        match backup_of(e.0, base) {
            Some((kind, ts)) => Some(
                VersionView {
                    filename: e.0,
                    backup_type: kind,
                    timestamp: ts,
                    size: encode_utf8(e.1).len() as u64,
                    formatted_time: age_text(now, ts),
                },
            ),
            None => None,
        }
    } else {
        None
    }
}

/// The versions found among backup entries, in directory order.
pub open spec fn versions_found(s: Seq<EntryView>, base: Seq<char>, now: u64) -> Seq<VersionView>
    decreases s.len(),
{
    if s.len() == 0 {
        Seq::empty()
    } else {
        let v = versions_found(s.drop_last(), base, now);
        match version_of(s.last(), base, now) {
            Some(x) => v.push(x),
            None => v,
        }
    }
}

/// One version goes before another when it is newer.
pub open spec fn newer_version() -> spec_fn(VersionView, VersionView) -> bool {
    |a: VersionView, b: VersionView| a.timestamp > b.timestamp
}

/// The deleted note listed for a backup entry of the top of the backup directory.
pub open spec fn deleted_entry(e: EntryView, now: u64) -> Option<DeletedView> {
    if name_part(e.0) == e.0 {
        match deleted_of(e.0) {
            Some((name, ts)) => Some(
                DeletedView { filename: name, backup_filename: e.0, deleted_at: age_text(now, ts), timestamp: ts },
            ),
            None => None,
        }
    } else {
        None
    }
}

/// The deleted notes found among backup entries, in directory order.
pub open spec fn deleted_found(s: Seq<EntryView>, now: u64) -> Seq<DeletedView>
    decreases s.len(),
{
    if s.len() == 0 {
        Seq::empty()
    } else {
        let v = deleted_found(s.drop_last(), now);
        match deleted_entry(s.last(), now) {
            Some(x) => v.push(x),
            None => v,
        }
    }
}

/// One deleted note goes before another when it was deleted later.
pub open spec fn newer_deleted() -> spec_fn(DeletedView, DeletedView) -> bool {
    |a: DeletedView, b: DeletedView| a.timestamp > b.timestamp
}

fn copy_version(v: &NoteVersion) -> (r: NoteVersion)
    ensures
        r@ == v@,
{
    NoteVersion {
        filename: v.filename.clone(),
        backup_type: v.backup_type.clone(),
        timestamp: v.timestamp,
        size: v.size,
        formatted_time: v.formatted_time.clone(),
    }
}

fn copy_deleted(d: &DeletedFile) -> (r: DeletedFile)
    ensures
        r@ == d@,
{
    DeletedFile {
        filename: d.filename.clone(),
        backup_filename: d.backup_filename.clone(),
        deleted_at: d.deleted_at.clone(),
        timestamp: d.timestamp,
    }
}

/// Sorts versions newest first, keeping the order of those with the same timestamp.
pub fn sort_versions(items: Vec<NoteVersion>) -> (r: Vec<NoteVersion>)
    ensures
        r@.map_values(|x: NoteVersion| x@) == sorted_stable(items@.map_values(|x: NoteVersion| x@), newer_version()),
{
    let ghost input = items@.map_values(|x: NoteVersion| x@);
    let mut out: Vec<NoteVersion> = Vec::new();
    let mut i: usize = 0;
    assert(input.take(0) =~= Seq::<VersionView>::empty());
    while i < items.len()
        invariant
            i <= items@.len(),
            input == items@.map_values(|x: NoteVersion| x@),
            out@.map_values(|x: NoteVersion| x@) == sorted_stable(input.take(i as int), newer_version()),
        decreases items.len() - i,
    {
        let x = copy_version(&items[i]);
        let ghost cur = out@.map_values(|x: NoteVersion| x@);
        let mut p: usize = 0;
        while p < out.len() && !(x.timestamp > out[p].timestamp)
            invariant
                p <= out@.len(),
                cur == out@.map_values(|x: NoteVersion| x@),
                forall|k: int| 0 <= k < p ==> !(x@.timestamp > #[trigger] cur[k].timestamp),
            decreases out.len() - p,
        {
            p += 1;
        }
        proof {
            lemma_first_after_is(cur, x@, newer_version(), p as int);
        }
        let ghost xv = x@;
        out.insert(p, x);
        assert(out@.map_values(|x: NoteVersion| x@) =~= cur.insert(p as int, xv));
        assert(input.take(i + 1).drop_last() =~= input.take(i as int));
        assert(input.take(i + 1).last() == xv);
        i += 1;
    }
    assert(input.take(items@.len() as int) =~= input);
    out
}

/// Sorts deleted notes newest first, keeping the order of those with the same timestamp.
pub fn sort_deleted(items: Vec<DeletedFile>) -> (r: Vec<DeletedFile>)
    ensures
        r@.map_values(|x: DeletedFile| x@) == sorted_stable(items@.map_values(|x: DeletedFile| x@), newer_deleted()),
{
    let ghost input = items@.map_values(|x: DeletedFile| x@);
    let mut out: Vec<DeletedFile> = Vec::new();
    let mut i: usize = 0;
    assert(input.take(0) =~= Seq::<DeletedView>::empty());
    while i < items.len()
        invariant
            i <= items@.len(),
            input == items@.map_values(|x: DeletedFile| x@),
            out@.map_values(|x: DeletedFile| x@) == sorted_stable(input.take(i as int), newer_deleted()),
        decreases items.len() - i,
    {
        let x = copy_deleted(&items[i]);
        let ghost cur = out@.map_values(|x: DeletedFile| x@);
        let mut p: usize = 0;
        while p < out.len() && !(x.timestamp > out[p].timestamp)
            invariant
                p <= out@.len(),
                cur == out@.map_values(|x: DeletedFile| x@),
                forall|k: int| 0 <= k < p ==> !(x@.timestamp > #[trigger] cur[k].timestamp),
            decreases out.len() - p,
        {
            p += 1;
        }
        proof {
            lemma_first_after_is(cur, x@, newer_deleted(), p as int);
        }
        let ghost xv = x@;
        out.insert(p, x);
        assert(out@.map_values(|x: DeletedFile| x@) =~= cur.insert(p as int, xv));
        assert(input.take(i + 1).drop_last() =~= input.take(i as int));
        assert(input.take(i + 1).last() == xv);
        i += 1;
    }
    assert(input.take(items@.len() as int) =~= input);
    out
}

/// What listing a note's versions gives: its backups at the top of the backup directory,
/// newest first.
pub open spec fn versions_outcome(st: StoreView, name: Seq<char>, now: u64) -> Result<Seq<VersionView>, Seq<char>> {
    match name_verdict(name) {
        Err(m) => Err(m),
        Ok(_) => Ok(sorted_stable(versions_found(st.backups, note_base(name), now), newer_version())),
    }
}

/// What listing the deleted notes gives: the delete backups at the top of the backup
/// directory, most recently deleted first.
pub open spec fn deleted_outcome(st: StoreView, now: u64) -> Seq<DeletedView> {
    sorted_stable(deleted_found(st.backups, now), newer_deleted())
}

/// The message of a version that is not in the backup directory.
pub open spec fn version_missing_message(f: Seq<char>) -> Seq<char> {
    error_text(AppErrorView::FileNotFound("Version file not found: "@ + f))
}

/// What reading a version gives: the text of the backup.
pub open spec fn version_content_outcome(st: StoreView, f: Seq<char>) -> Result<Seq<char>, Seq<char>> {
    match lookup(st.backups, f) {
        Some(c) => Ok(c),
        None => Err(version_missing_message(f)),
    }
}

/// What recovering a version does: the note is written with the version's text.
pub open spec fn recover_version_outcome(st: StoreView, name: Seq<char>, f: Seq<char>, now: u64) -> (StoreView, Result<(), Seq<char>>) {
    match name_verdict(name) {
        Err(m) => (st, Err(m)),
        Ok(_) => match lookup(st.backups, f) {
            None => (st, Err(version_missing_message(f))),
            Some(c) => write_outcome(st, name, c, now),
        },
    }
}

/// The message of a delete backup that is not in the backup directory.
pub open spec fn deleted_missing_message(f: Seq<char>) -> Seq<char> {
    error_text(AppErrorView::FileNotFound("Deleted file backup not found: "@ + f))
}

/// The message of a recovery onto a file that exists.
pub open spec fn recover_exists_message(name: Seq<char>) -> Seq<char> {
    error_text(AppErrorView::FileWrite("Cannot recover '"@ + name + "': file already exists"@))
}

/// What recovering a deleted note does: where no file has its name, the note is written
/// with the backup's text and the backup is removed.
pub open spec fn recover_deleted_outcome(st: StoreView, name: Seq<char>, f: Seq<char>, now: u64) -> (StoreView, Result<(), Seq<char>>) {
    match name_verdict(name) {
        Err(m) => (st, Err(m)),
        Ok(_) => match lookup(st.backups, f) {
            None => (st, Err(deleted_missing_message(f))),
            Some(c) => if lookup(st.files, name) is Some {
                (st, Err(recover_exists_message(name)))
            } else {
                let (st2, r) = write_outcome(st, name, c, now);
                match r {
                    Err(m) => (st2, Err(m)),
                    Ok(_) => (
                        StoreView {
                            backups: removed(st2.backups, f),
                            actions: st2.actions.push(ActionView::RemoveBackup(f)),
                            ..st2
                        },
                        Ok(()),
                    ),
                }
            },
        },
    }
}

fn base_of(note_name: &str) -> (r: String)
    ensures
        r@ == note_base(note_name@),
{
    match file_name(note_name) {
        Some(f) => stem_of(f.as_str()),
        None => owned(note_name),
    }
}

fn at_top(path: &str) -> (r: bool)
    ensures
        r == (name_part(path@) == path@),
{
    let (d, _) = split_dir(path);
    proof {
        crate::paths::lemma_segment_start_bounds(path@);
        if d@.len() != 0 {
            assert(name_part(path@).len() < path@.len());
        } else {
            assert(path@.skip(0) =~= path@);
        }
    }
    d.as_str().unicode_len() == 0
}

impl NoteStore {
    /// The backups of a note at the top of the backup directory, newest first, with their
    /// kind, size and age seen from `now`.
    pub fn get_note_versions_at(&self, note_name: &str, now: u64) -> (r: Result<Vec<NoteVersion>, String>)
        ensures
            match r {
                Ok(v) => versions_outcome(self@, note_name@, now) == Ok::<Seq<VersionView>, Seq<char>>(v@.map_values(|x: NoteVersion| x@)),
                Err(m) => versions_outcome(self@, note_name@, now) == Err::<Seq<VersionView>, Seq<char>>(m@),
            },
    {
        match crate::store::check_name(note_name) {
            Err(m) => return Err(m),
            Ok(()) => {},
        }
        let base = base_of(note_name);
        let ghost s = self.backups@;
        let mut found: Vec<NoteVersion> = Vec::new();
        let mut i: usize = 0;
        assert(s.take(0) =~= Seq::<EntryView>::empty());
        while i < self.backups.len()
            invariant
                i <= s.len(),
                s == self.backups@,
                base@ == note_base(note_name@),
                found@.map_values(|x: NoteVersion| x@) == versions_found(s.take(i as int), base@, now),
            decreases s.len() - i,
        {
            let path = self.backups.path_at(i);
            let ghost before = found@.map_values(|x: NoteVersion| x@);
            assert(s.take(i + 1).drop_last() =~= s.take(i as int));
            assert(s.take(i + 1).last() == s[i as int]);
            if at_top(path.as_str()) {
                match parse_backup_filename(path.as_str(), base.as_str()) {
                    Some((kind, ts)) => {
                        let text = self.backups.text_at(i);
                        let size = text.as_str().as_bytes().len() as u64;
                        found.push(NoteVersion {
                            filename: path.clone(),
                            backup_type: kind,
                            timestamp: ts,
                            size,
                            formatted_time: format_elapsed(now, ts),
                        });
                        assert(found@.map_values(|x: NoteVersion| x@) =~= before.push(version_of(s[i as int], base@, now)->0));
                    },
                    None => {},
                }
            }
            i += 1;
        }
        assert(s.take(s.len() as int) =~= s);
        Ok(sort_versions(found))
    }

    /// The text of a version in the backup directory.
    pub fn get_version_content(&self, version_filename: &str) -> (r: Result<String, String>)
        ensures
            outcome_view(r) == version_content_outcome(self@, version_filename@),
    {
        match self.backups.get(version_filename) {
            Some(t) => Ok(t.clone()),
            None => {
                proof {
                    reveal_strlit("Version file not found: ");
                }
                Err(AppError::FileNotFound(concat2("Version file not found: ", version_filename)).message())
            },
        }
    }

    /// Writes a note with the text of one of its versions, at the moment `now`.
    pub fn recover_note_version_at(&mut self, note_name: &str, version_filename: &str, now: u64) -> (r: Result<(), String>)
        ensures
            (final(self)@, outcome_view(r)) == recover_version_outcome(old(self)@, note_name@, version_filename@, now),
    {
        match crate::store::check_name(note_name) {
            Err(m) => return Err(m),
            Ok(()) => {},
        }
        let text = match self.backups.get(version_filename) {
            Some(t) => t.clone(),
            None => {
                proof {
                    reveal_strlit("Version file not found: ");
                }
                return Err(AppError::FileNotFound(concat2("Version file not found: ", version_filename)).message());
            },
        };
        self.write_note_at(note_name, text.as_str(), now)
    }

    /// The notes kept in delete backups at the top of the backup directory, most recently
    /// deleted first, with their age seen from `now`.
    pub fn get_deleted_files_at(&self, now: u64) -> (r: Vec<DeletedFile>)
        ensures
            r@.map_values(|x: DeletedFile| x@) == deleted_outcome(self@, now),
    {
        let ghost s = self.backups@;
        let mut found: Vec<DeletedFile> = Vec::new();
        let mut i: usize = 0;
        assert(s.take(0) =~= Seq::<EntryView>::empty());
        while i < self.backups.len()
            invariant
                i <= s.len(),
                s == self.backups@,
                found@.map_values(|x: DeletedFile| x@) == deleted_found(s.take(i as int), now),
            decreases s.len() - i,
        {
            let path = self.backups.path_at(i);
            let ghost before = found@.map_values(|x: DeletedFile| x@);
            assert(s.take(i + 1).drop_last() =~= s.take(i as int));
            assert(s.take(i + 1).last() == s[i as int]);
            if at_top(path.as_str()) {
                match parse_deleted_backup_filename(path.as_str()) {
                    Some((name, ts)) => {
                        found.push(DeletedFile {
                            filename: name,
                            backup_filename: path.clone(),
                            deleted_at: format_elapsed(now, ts),
                            timestamp: ts,
                        });
                        assert(found@.map_values(|x: DeletedFile| x@) =~= before.push(deleted_entry(s[i as int], now)->0));
                    },
                    None => {},
                }
            }
            i += 1;
        }
        assert(s.take(s.len() as int) =~= s);
        sort_deleted(found)
    }

    /// Brings a deleted note back from its delete backup, where no file has its name; the
    /// backup is then removed. The note is written at the moment `now`.
    pub fn recover_deleted_file_at(&mut self, original_filename: &str, backup_filename: &str, now: u64) -> (r: Result<(), String>)
        ensures
            (final(self)@, outcome_view(r)) == recover_deleted_outcome(old(self)@, original_filename@, backup_filename@, now),
    {
        match crate::store::check_name(original_filename) {
            Err(m) => return Err(m),
            Ok(()) => {},
        }
        let text = match self.backups.get(backup_filename) {
            Some(t) => t.clone(),
            None => {
                proof {
                    reveal_strlit("Deleted file backup not found: ");
                }
                return Err(AppError::FileNotFound(concat2("Deleted file backup not found: ", backup_filename)).message());
            },
        };
        if self.files.contains(original_filename) {
            proof {
                reveal_strlit("Cannot recover '");
                reveal_strlit("': file already exists");
            }
            return Err(AppError::FileWrite(concat3("Cannot recover '", original_filename, "': file already exists")).message());
        }
        match self.write_note_at(original_filename, text.as_str(), now) {
            Err(m) => Err(m),
            Ok(()) => {
                self.backups.remove(backup_filename);
                let ghost before = self.actions@.map_values(|a: FileAction| a@);
                self.actions.push(FileAction::RemoveBackup(owned(backup_filename)));
                assert(self.actions@.map_values(|a: FileAction| a@) =~= before.push(ActionView::RemoveBackup(backup_filename@)));
                Ok(())
            },
        }
    }
}

impl NoteStore {
    /// The versions of a note, their ages seen from the current time (see
    /// [`NoteStore::get_note_versions_at`]).
    pub fn get_note_versions(&self, note_name: &str) -> (r: Result<Vec<NoteVersion>, String>)
        ensures
            exists|now: u64| match r {
                Ok(v) => #[trigger] versions_outcome(self@, note_name@, now) == Ok::<Seq<VersionView>, Seq<char>>(v@.map_values(|x: NoteVersion| x@)),
                Err(m) => versions_outcome(self@, note_name@, now) == Err::<Seq<VersionView>, Seq<char>>(m@),
            },
    {
        let now = current_unix_time();
        self.get_note_versions_at(note_name, now)
    }

    /// Writes a note with the text of one of its versions, at the current time (see
    /// [`NoteStore::recover_note_version_at`]).
    pub fn recover_note_version(&mut self, note_name: &str, version_filename: &str) -> (r: Result<(), String>)
        ensures
            exists|now: u64| (final(self)@, outcome_view(r)) == #[trigger] recover_version_outcome(old(self)@, note_name@, version_filename@, now),
    {
        let now = current_unix_time();
        self.recover_note_version_at(note_name, version_filename, now)
    }

    /// The deleted notes, their ages seen from the current time (see
    /// [`NoteStore::get_deleted_files_at`]).
    pub fn get_deleted_files(&self) -> (r: Vec<DeletedFile>)
        ensures
            exists|now: u64| r@.map_values(|x: DeletedFile| x@) == #[trigger] deleted_outcome(self@, now),
    {
        let now = current_unix_time();
        self.get_deleted_files_at(now)
    }

    /// Brings a deleted note back from its delete backup, at the current time (see
    /// [`NoteStore::recover_deleted_file_at`]).
    pub fn recover_deleted_file(&mut self, original_filename: &str, backup_filename: &str) -> (r: Result<(), String>)
        ensures
            exists|now: u64| (final(self)@, outcome_view(r)) == #[trigger] recover_deleted_outcome(old(self)@, original_filename@, backup_filename@, now),
    {
        let now = current_unix_time();
        self.recover_deleted_file_at(original_filename, backup_filename, now)
    }
}

/// A note deleted from disk can be brought back from its delete backup: recovering it
/// under its own name restores its text, on disk and in the index. (The backup must not
/// have been pruned at once, which happens only where many newer delete backups of the same
/// stem exist.)
pub proof fn law_delete_then_recover(st: StoreView, name: Seq<char>, now: u64, later: u64)
    requires
        crate::store::store_wf(st),
        crate::validation::note_name_check(name) is Ok,
        lookup(st.files, name) is Some,
        !crate::backups::pruned_paths(
            crate::filemap::stored(
                st.backups,
                crate::store::backup_location(name, crate::store::note_file(st, name)->0, crate::backups::BackupType::Delete, now),
                lookup(st.files, name)->0,
            ),
            crate::store::backup_location(name, crate::store::note_file(st, name)->0, crate::backups::BackupType::Delete, now),
        ).contains(crate::store::backup_location(name, crate::store::note_file(st, name)->0, crate::backups::BackupType::Delete, now)),
    ensures
        ({
            let loc = crate::store::backup_location(name, crate::store::note_file(st, name)->0, crate::backups::BackupType::Delete, now);
            let deleted = crate::store::delete_outcome(st, name, now).0;
            let recovered = recover_deleted_outcome(deleted, name, loc, later);
            &&& recovered.1 is Ok
            &&& lookup(recovered.0.files, name) == lookup(st.files, name)
            &&& crate::store::content_outcome(recovered.0, name) == Ok::<Seq<char>, Seq<char>>(lookup(st.files, name)->0)
        }),
{
    crate::store::lemma_valid_name_has_file(st, name);
    let f = crate::store::note_file(st, name)->0;
    let c = lookup(st.files, name)->0;
    let loc = crate::store::backup_location(name, f, crate::backups::BackupType::Delete, now);
    let written = crate::filemap::stored(st.backups, loc, c);
    crate::filemap::lemma_lookup_stored(st.backups, loc, c, loc);
    crate::filemap::lemma_lookup_without_paths(written, crate::backups::pruned_paths(written, loc), loc);
    crate::filemap::lemma_lookup_removed(st.files, name, name);
    crate::index::lemma_lookup_without(st.index, name, name);
    let deleted = crate::store::delete_outcome(st, name, now).0;
    assert(lookup(deleted.backups, loc) == Some(c));
    assert(lookup(deleted.files, name) is None);
    crate::filemap::lemma_lookup_stored(deleted.files, name, c, name);
    crate::index::lemma_lookup_upserted(deleted.index, crate::store::fresh_record(name, c, later as i64), name);
}

/// Recovering a version writes the version's text to the note: afterwards the note holds
/// that text on disk and reads it back.
pub proof fn law_recover_version_then_read(st: StoreView, name: Seq<char>, f: Seq<char>, now: u64)
    requires
        crate::store::store_wf(st),
        recover_version_outcome(st, name, f, now).1 is Ok,
    ensures
        lookup(st.backups, f) is Some,
        lookup(recover_version_outcome(st, name, f, now).0.files, name) == lookup(st.backups, f),
        crate::store::content_outcome(recover_version_outcome(st, name, f, now).0, name)
            == Ok::<Seq<char>, Seq<char>>(lookup(st.backups, f)->0),
{
    let c = lookup(st.backups, f)->0;
    if lookup(st.files, name) is Some {
        let file = crate::store::note_file(st, name)->0;
        crate::store::lemma_with_backup_keeps_notes(
            st,
            crate::store::backup_location(name, file, crate::backups::BackupType::Rollback, now),
            lookup(st.files, name)->0,
        );
    }
    crate::filemap::lemma_lookup_stored(st.files, name, c, name);
    crate::index::lemma_lookup_upserted(st.index, crate::store::fresh_record(name, c, now as i64), name);
}

} // verus!
