//! Keeping the notes index in step with the notes directory: the full load that rebuilds
//! the index from a listing of the directory, and the quick check that compares the most
//! recently modified markdown files with the index.
use vstd::prelude::*;
use crate::text::{chars_equal, chars_of, concat2, contains_chars, ends_with_chars, i64_to_decimal, seq_contains, seq_ends_with, signed_decimal};
use crate::index::{NoteRecord, NotesIndex, RecordView, distinct_names, named_in, record_of, upserted};
use crate::ordering::{keys_unique, lemma_filter_keys_unique, lemma_first_after_is, lemma_sorted_keys_unique, lemma_sorted_members, sorted_stable};
use crate::renderer::{render_note, rendered_note};
use crate::store::fresh_record;
use crate::backups::{name_part, split_dir};

verus! {

/// A file found in the notes directory: its path within the directory, its text, its
/// modification time in whole seconds since the epoch and the nanoseconds past that
/// second.
#[derive(Debug, Clone)]
pub struct DiskNote {
    pub filename: String,
    pub content: String,
    pub modified: i64,
    pub modified_nanos: u32,
}

/// The mathematical value of a [`DiskNote`].
pub struct DiskView {
    pub filename: Seq<char>,
    pub content: Seq<char>,
    pub modified: i64,
    pub modified_nanos: u32,
}

impl View for DiskNote {
    type V = DiskView;

    open spec fn view(&self) -> DiskView {
        DiskView {
            filename: self.filename@,
            content: self.content@,
            modified: self.modified,
            modified_nanos: self.modified_nanos,
        }
    }
}

/// The notes among the most recently modified that get their HTML rendered at load time.
pub const IMMEDIATE_RENDER_COUNT: usize = 2000;

/// A path within the notes directory that is hidden: it, or a folder on its way, starts
/// with a dot.
pub open spec fn is_hidden(f: Seq<char>) -> bool {
    seq_contains(f, "/."@) || (f.len() > 0 && f[0] == '.')
}

/// Tests whether a path within the notes directory is hidden.
pub fn is_hidden_path(f: &str) -> (r: bool)
    ensures
        r == is_hidden(f@),
{
    let v = chars_of(f);
    let pat = chars_of("/.");
    proof {
        reveal_strlit("/.");
    }
    contains_chars(&v, &pat) || (v.len() > 0 && v[0] == '.')
}

/// One file goes before another when it was modified in a later second.
pub open spec fn newer_file() -> spec_fn(DiskView, DiskView) -> bool {
    |a: DiskView, b: DiskView| a.modified > b.modified
}

/// One file goes before another when it was modified later, to the nanosecond.
pub open spec fn newer_exact() -> spec_fn(DiskView, DiskView) -> bool {
    |a: DiskView, b: DiskView| a.modified > b.modified || (a.modified == b.modified && a.modified_nanos > b.modified_nanos)
}

/// The order of [`newer_exact`] where `exact` holds, else that of [`newer_file`].
pub open spec fn newer_by(exact: bool) -> spec_fn(DiskView, DiskView) -> bool {
    if exact {
        newer_exact()
    } else {
        newer_file()
    }
}

fn is_newer(a: &DiskNote, b: &DiskNote, exact: bool) -> (r: bool)
    ensures
        r == newer_by(exact)(a@, b@),
{
    if exact {
        a.modified > b.modified || (a.modified == b.modified && a.modified_nanos > b.modified_nanos)
    } else {
        a.modified > b.modified
    }
}

/// The visible files, most recently modified first; files modified at the same time keep
/// the order of the listing.
pub open spec fn load_order(listing: Seq<DiskView>) -> Seq<DiskView> {
    sorted_stable(listing.filter(|f: DiskView| !is_hidden(f.filename)), newer_file())
}

/// What the index knows of a file before the load: its modification time and whether its
/// HTML is current, or (0, false) where it has no record.
pub open spec fn indexed_state(s: Seq<RecordView>, name: Seq<char>) -> (i64, bool) {
    match record_of(s, name) {
        Some(r) => (r.modified, r.is_indexed),
        None => (0, false),
    }
}

/// Loading the file at position `i` of the load order: a file whose time differs from the
/// index is stored anew (rendered among the first [`IMMEDIATE_RENDER_COUNT`], else with
/// empty HTML to render later); a file with the same time whose HTML is not current gets
/// its HTML rendered when it is among the first; other files are left as they are.
pub open spec fn load_step(s: Seq<RecordView>, f: DiskView, i: int) -> Seq<RecordView> {
    let (db_modified, indexed) = indexed_state(s, f.filename);
    if f.modified != db_modified {
        if i < IMMEDIATE_RENDER_COUNT {
            upserted(s, fresh_record(f.filename, f.content, f.modified))
        } else {
            upserted(
                s,
                RecordView {
                    filename: f.filename,
                    content: f.content,
                    html_render: Seq::empty(),
                    modified: f.modified,
                    is_indexed: false,
                },
            )
        }
    } else if !indexed && i < IMMEDIATE_RENDER_COUNT {
        match record_of(s, f.filename) {
            Some(r) => upserted(
                s,
                RecordView { html_render: rendered_note(f.filename, f.content), is_indexed: true, ..r },
            ),
            None => s,
        }
    } else {
        s
    }
}

/// The index after loading the first `n` files of the load order.
pub open spec fn loaded(s: Seq<RecordView>, files: Seq<DiskView>, n: int) -> Seq<RecordView>
    decreases n,
{
    if n <= 0 || n > files.len() {
        s
    } else {
        load_step(loaded(s, files, n - 1), files[n - 1], n - 1)
    }
}

/// The index after a full load from a listing of the directory: records of files that are
/// gone are dropped, then the visible files are loaded, most recently modified first.
pub open spec fn load_spec(s: Seq<RecordView>, listing: Seq<DiskView>) -> Seq<RecordView> {
    let files = load_order(listing);
    loaded(
        s.filter(named_in(files.map_values(|f: DiskView| f.filename))),
        files,
        files.len() as int,
    )
}

fn copy_disk_note(n: &DiskNote) -> (r: DiskNote)
    ensures
        r@ == n@,
{
    DiskNote {
        filename: n.filename.clone(),
        content: n.content.clone(),
        modified: n.modified,
        modified_nanos: n.modified_nanos,
    }
}

/// The files in the order of [`newer_by`]`(exact)`, files that neither goes before keeping
/// their order.
fn newest_first(files: &Vec<DiskNote>, exact: bool) -> (r: Vec<DiskNote>)
    ensures
        r@.map_values(|d: DiskNote| d@) == sorted_stable(files@.map_values(|d: DiskNote| d@), newer_by(exact)),
{
    let ghost input = files@.map_values(|d: DiskNote| d@);
    let mut out: Vec<DiskNote> = Vec::new();
    let mut j: usize = 0;
    assert(input.take(0) =~= Seq::<DiskView>::empty());
    while j < files.len()
        invariant
            j <= files@.len(),
            input == files@.map_values(|d: DiskNote| d@),
            out@.map_values(|d: DiskNote| d@) == sorted_stable(input.take(j as int), newer_by(exact)),
        decreases files.len() - j,
    {
        let x = copy_disk_note(&files[j]);
        let ghost cur = out@.map_values(|d: DiskNote| d@);
        let mut p: usize = 0;
        while p < out.len() && !is_newer(&x, &out[p], exact)
            invariant
                p <= out@.len(),
                cur == out@.map_values(|d: DiskNote| d@),
                forall|k: int| 0 <= k < p ==> !newer_by(exact)(x@, #[trigger] cur[k]),
            decreases out.len() - p,
        {
            p += 1;
        }
        proof {
            lemma_first_after_is(cur, x@, newer_by(exact), p as int);
        }
        let ghost xv = x@;
        out.insert(p, x);
        assert(out@.map_values(|d: DiskNote| d@) =~= cur.insert(p as int, xv));
        assert(input.take(j + 1).drop_last() =~= input.take(j as int));
        assert(input.take(j + 1).last() == xv);
        j += 1;
    }
    assert(input.take(input.len() as int) =~= input);
    out
}

/// The visible files of a listing, most recently modified first.
pub fn order_for_load(listing: &Vec<DiskNote>) -> (r: Vec<DiskNote>)
    ensures
        r@.map_values(|d: DiskNote| d@) == load_order(listing@.map_values(|d: DiskNote| d@)),
{
    let ghost lv = listing@.map_values(|d: DiskNote| d@);
    let ghost keep = |f: DiskView| !is_hidden(f.filename);
    let mut visible: Vec<DiskNote> = Vec::new();
    let mut i: usize = 0;
    assert(lv.take(0).filter(keep) =~= Seq::<DiskView>::empty()) by {
        reveal(Seq::filter);
    }
    while i < listing.len()
        invariant
            i <= listing@.len(),
            lv == listing@.map_values(|d: DiskNote| d@),
            keep == (|f: DiskView| !is_hidden(f.filename)),
            visible@.map_values(|d: DiskNote| d@) == lv.take(i as int).filter(keep),
        decreases listing.len() - i,
    {
        let ghost before = visible@.map_values(|d: DiskNote| d@);
        proof {
            assert(lv.take(i + 1) =~= lv.take(i as int).push(lv[i as int]));
            lv.take(i as int).lemma_filter_push(lv[i as int], keep);
        }
        if !is_hidden_path(listing[i].filename.as_str()) {
            visible.push(copy_disk_note(&listing[i]));
            assert(visible@.map_values(|d: DiskNote| d@) =~= before.push(lv[i as int]));
        }
        i += 1;
    }
    assert(lv.take(lv.len() as int) =~= lv);
    newest_first(&visible, false)
}

/// Rebuilds the index from a listing of the notes directory: records of files that are
/// gone are dropped, and the visible files are loaded most recently modified first, the
/// first [`IMMEDIATE_RENDER_COUNT`] with their HTML rendered.
pub fn load_all_notes_into_sqlite(index: &mut NotesIndex, listing: &Vec<DiskNote>)
    ensures
        final(index)@ == load_spec(old(index)@, listing@.map_values(|d: DiskNote| d@)),
{
    let files = order_for_load(listing);
    let ghost fv = files@.map_values(|d: DiskNote| d@);
    let mut names: Vec<String> = Vec::new();
    let mut k: usize = 0;
    while k < files.len()
        invariant
            k <= files@.len(),
            fv == files@.map_values(|d: DiskNote| d@),
            names@.map_values(|x: String| x@) == fv.take(k as int).map_values(|f: DiskView| f.filename),
        decreases files.len() - k,
    {
        let ghost before = names@.map_values(|x: String| x@);
        names.push(files[k].filename.clone());
        assert(names@.map_values(|x: String| x@) =~= before.push(fv[k as int].filename));
        assert(fv.take(k + 1).map_values(|f: DiskView| f.filename) =~= fv.take(k as int).map_values(|f: DiskView| f.filename).push(fv[k as int].filename));
        k += 1;
    }
    assert(fv.take(fv.len() as int) =~= fv);
    index.retain_names(&names);
    let ghost start = index@;
    let mut i: usize = 0;
    while i < files.len()
        invariant
            i <= files@.len(),
            fv == files@.map_values(|d: DiskNote| d@),
            index@ == loaded(start, fv, i as int),
        decreases files.len() - i,
    {
        let f = &files[i];
        assert(fv[i as int] == f@);
        let (db_modified, indexed) = match index.lookup(f.filename.as_str()) {
            Some(r) => (r.modified, r.is_indexed),
            None => (0i64, false),
        };
        if f.modified != db_modified {
            if i < IMMEDIATE_RENDER_COUNT {
                index.upsert(NoteRecord {
                    filename: f.filename.clone(),
                    content: f.content.clone(),
                    html_render: render_note(f.filename.as_str(), f.content.as_str()),
                    modified: f.modified,
                    is_indexed: true,
                });
            } else {
                index.upsert(NoteRecord {
                    filename: f.filename.clone(),
                    content: f.content.clone(),
                    html_render: String::new(),
                    modified: f.modified,
                    is_indexed: false,
                });
            }
        } else if !indexed && i < IMMEDIATE_RENDER_COUNT {
            let current = match index.lookup(f.filename.as_str()) {
                Some(r) => Some(r.clone_record()),
                None => None,
            };
            match current {
                Some(r) => {
                    proof {
                        crate::index::lemma_record_of_name(index@, f@.filename);
                    }
                    index.upsert(NoteRecord {
                        filename: r.filename,
                        content: r.content,
                        html_render: render_note(f.filename.as_str(), f.content.as_str()),
                        modified: r.modified,
                        is_indexed: true,
                    });
                },
                None => {},
            }
        }
        i += 1;
    }
}

/// The files that the quick check reads: the visible markdown files, most recently
/// modified first to the nanosecond, at most a hundred.
pub open spec fn check_order(listing: Seq<DiskView>) -> Seq<DiskView> {
    let md = sorted_stable(
        listing.filter(|f: DiskView| !is_hidden(f.filename) && is_md_path(f.filename)),
        newer_exact(),
    );
    md.take(if md.len() < 100 { md.len() as int } else { 100 })
}

/// The file name of a path has the extension `md`: it ends in `.md` after at least one
/// other character.
pub open spec fn is_md_path(f: Seq<char>) -> bool {
    seq_ends_with(name_part(f), ".md"@) && name_part(f).len() > 3
}

/// The index agrees with the file: it holds the same text and a time at most a second
/// away.
pub open spec fn agrees(s: Seq<RecordView>, f: DiskView) -> bool {
    match record_of(s, f.filename) {
        Some(r) => r.content == f.content && -1 <= r.modified - f.modified <= 1,
        None => false,
    }
}

/// The quick check passes: every file it reads agrees with the index.
pub open spec fn in_sync(s: Seq<RecordView>, listing: Seq<DiskView>) -> bool {
    let files = check_order(listing);
    forall|i: int| 0 <= i < files.len() ==> agrees(s, #[trigger] files[i])
}

fn is_md_file(f: &str) -> (r: bool)
    ensures
        r == is_md_path(f@),
{
    let (_, name) = split_dir(f);
    let v = chars_of(name.as_str());
    let md = chars_of(".md");
    proof {
        reveal_strlit(".md");
    }
    ends_with_chars(&v, &md) && v.len() > 3
}

/// Compares the most recently modified visible markdown files (at most a hundred) with
/// the index: true when each has a record with the same text and a time at most a second
/// away.
pub fn quick_filesystem_sync_check(index: &NotesIndex, listing: &Vec<DiskNote>) -> (r: bool)
    ensures
        r == in_sync(index@, listing@.map_values(|d: DiskNote| d@)),
{
    let ghost lv = listing@.map_values(|d: DiskNote| d@);
    let ghost keep = |f: DiskView| !is_hidden(f.filename) && is_md_path(f.filename);
    let mut md: Vec<DiskNote> = Vec::new();
    let mut i: usize = 0;
    assert(lv.take(0).filter(keep) =~= Seq::<DiskView>::empty()) by {
        reveal(Seq::filter);
    }
    while i < listing.len()
        invariant
            i <= listing@.len(),
            lv == listing@.map_values(|d: DiskNote| d@),
            keep == (|f: DiskView| !is_hidden(f.filename) && is_md_path(f.filename)),
            md@.map_values(|d: DiskNote| d@) == lv.take(i as int).filter(keep),
        decreases listing.len() - i,
    {
        let ghost before = md@.map_values(|d: DiskNote| d@);
        proof {
            assert(lv.take(i + 1) =~= lv.take(i as int).push(lv[i as int]));
            lv.take(i as int).lemma_filter_push(lv[i as int], keep);
        }
        if !is_hidden_path(listing[i].filename.as_str()) && is_md_file(listing[i].filename.as_str()) {
            md.push(copy_disk_note(&listing[i]));
            assert(md@.map_values(|d: DiskNote| d@) =~= before.push(lv[i as int]));
        }
        i += 1;
    }
    assert(lv.take(lv.len() as int) =~= lv);
    let sorted = newest_first(&md, true);
    let ghost sv = sorted@.map_values(|d: DiskNote| d@);
    let limit = if sorted.len() < 100 { sorted.len() } else { 100 };
    let ghost files = check_order(lv);
    assert(files == sv.take(limit as int));
    let mut k: usize = 0;
    while k < limit
        invariant
            k <= limit <= sorted@.len(),
            sv == sorted@.map_values(|d: DiskNote| d@),
            files == sv.take(limit as int),
            lv == listing@.map_values(|d: DiskNote| d@),
            files == check_order(lv),
            forall|j: int| 0 <= j < k ==> agrees(index@, #[trigger] files[j]),
        decreases limit - k,
    {
        let f = &sorted[k];
        assert(files[k as int] == f@);
        match index.lookup(f.filename.as_str()) {
            None => {
                assert(!agrees(index@, files[k as int]));
                return false;
            },
            Some(r) => {
                if r.content != f.content {
                    assert(!agrees(index@, files[k as int]));
                    return false;
                }
                let diff: i128 = r.modified as i128 - f.modified as i128;
                if diff > 1 || diff < -1 {
                    assert(!agrees(index@, files[k as int]));
                    return false;
                }
            },
        }
        k += 1;
    }
    true
}

/// A file of the listing has this path.
pub open spec fn listed(listing: Seq<DiskView>, name: Seq<char>) -> bool {
    exists|i: int| 0 <= i < listing.len() && #[trigger] listing[i].filename == name
}

/// The records whose file the listing lacks.
pub open spec fn db_only_pred(listing: Seq<DiskView>) -> spec_fn(RecordView) -> bool {
    |r: RecordView| !listed(listing, r.filename)
}

/// The listed files that the index lacks.
pub open spec fn fs_only_pred(index: Seq<RecordView>) -> spec_fn(DiskView) -> bool {
    |f: DiskView| record_of(index, f.filename) is None
}

/// The report line of a record whose file is gone.
pub open spec fn db_only_message(r: RecordView) -> Seq<char> {
    "File in database but not filesystem: "@ + r.filename
}

/// The report line of a file that the index lacks.
pub open spec fn fs_only_message(f: DiskView) -> Seq<char> {
    "File in filesystem but not database: "@ + f.filename
}

/// The report lines of a listed file whose record differs from it: in text, then in time.
pub open spec fn file_mismatches(index: Seq<RecordView>, f: DiskView) -> Seq<Seq<char>> {
    match record_of(index, f.filename) {
        None => Seq::empty(),
        Some(r) => {
            let text = if f.content != r.content {
                seq!["Content mismatch for file: "@ + f.filename]
            } else {
                Seq::empty()
            };
            let time = if f.modified != r.modified {
                seq![
                    "Timestamp mismatch for file "@ + f.filename + ": filesystem="@ + signed_decimal(
                        f.modified as int,
                    ) + ", database="@ + signed_decimal(r.modified as int),
                ]
            } else {
                Seq::empty()
            };
            text + time
        },
    }
}

/// The report lines of the differences in text and time, file by file.
pub open spec fn mismatch_report(index: Seq<RecordView>, listing: Seq<DiskView>) -> Seq<Seq<char>>
    decreases listing.len(),
{
    if listing.len() == 0 {
        Seq::empty()
    } else {
        mismatch_report(index, listing.drop_last()) + file_mismatches(index, listing.last())
    }
}

/// The differences between the index and a listing of the directory: records whose file
/// is gone (in index order), files the index lacks (in listing order), then the files
/// whose record holds other text or another time.
pub open spec fn sync_report(index: Seq<RecordView>, listing: Seq<DiskView>) -> Seq<Seq<char>> {
    index.filter(db_only_pred(listing)).map_values(|r: RecordView| db_only_message(r))
        + listing.filter(fs_only_pred(index)).map_values(|f: DiskView| fs_only_message(f))
        + mismatch_report(index, listing)
}

fn is_listed(listing: &Vec<DiskNote>, name: &str) -> (r: bool)
    ensures
        r == listed(listing@.map_values(|d: DiskNote| d@), name@),
{
    let ghost lv = listing@.map_values(|d: DiskNote| d@);
    let target = chars_of(name);
    let mut i: usize = 0;
    while i < listing.len()
        invariant
            i <= listing@.len(),
            lv == listing@.map_values(|d: DiskNote| d@),
            target@ == name@,
            forall|j: int| 0 <= j < i ==> lv[j].filename != name@,
        decreases listing.len() - i,
    {
        let f = chars_of(listing[i].filename.as_str());
        if chars_equal(&f, &target) {
            assert(lv[i as int].filename == name@);
            return true;
        }
        i += 1;
    }
    false
}

/// Compares the index with a listing of the notes directory and reports each difference:
/// a record whose file is gone, a file the index lacks, and for a file that has a record,
/// other text or another modification time.
pub fn verify_sync_consistency(index: &NotesIndex, filesystem_files: &Vec<DiskNote>) -> (r: Vec<String>)
    ensures
        r@.map_values(|s: String| s@) == sync_report(index@, filesystem_files@.map_values(|d: DiskNote| d@)),
{
    let ghost lv = filesystem_files@.map_values(|d: DiskNote| d@);
    let ghost iv = index@;
    let ghost p1 = db_only_pred(lv);
    let ghost p2 = fs_only_pred(iv);
    let mut out: Vec<String> = Vec::new();
    let mut i: usize = 0;
    assert(iv.take(0).filter(p1) =~= Seq::<RecordView>::empty()) by {
        reveal(Seq::filter);
    }
    while i < index.len()
        invariant
            i <= iv.len(),
            iv == index@,
            lv == filesystem_files@.map_values(|d: DiskNote| d@),
            p1 == db_only_pred(lv),
            out@.map_values(|s: String| s@) == iv.take(i as int).filter(p1).map_values(|r: RecordView| db_only_message(r)),
        decreases iv.len() - i,
    {
        let rec = index.get(i);
        let ghost before = out@.map_values(|s: String| s@);
        proof {
            assert(iv.take(i + 1) =~= iv.take(i as int).push(iv[i as int]));
            iv.take(i as int).lemma_filter_push(iv[i as int], p1);
        }
        if !is_listed(filesystem_files, rec.filename.as_str()) {
            proof {
                reveal_strlit("File in database but not filesystem: ");
            }
            out.push(concat2("File in database but not filesystem: ", rec.filename.as_str()));
            assert(out@.map_values(|s: String| s@) =~= before.push(db_only_message(iv[i as int])));
        }
        i += 1;
    }
    assert(iv.take(iv.len() as int) =~= iv);
    let ghost part1 = out@.map_values(|s: String| s@);
    let mut j: usize = 0;
    assert(lv.take(0).filter(p2) =~= Seq::<DiskView>::empty()) by {
        reveal(Seq::filter);
    }
    assert(part1 + lv.take(0).filter(p2).map_values(|f: DiskView| fs_only_message(f)) =~= part1);
    while j < filesystem_files.len()
        invariant
            j <= lv.len(),
            iv == index@,
            lv == filesystem_files@.map_values(|d: DiskNote| d@),
            p2 == fs_only_pred(iv),
            out@.map_values(|s: String| s@) == part1 + lv.take(j as int).filter(p2).map_values(|f: DiskView| fs_only_message(f)),
        decreases lv.len() - j,
    {
        let f = &filesystem_files[j];
        let ghost before = out@.map_values(|s: String| s@);
        proof {
            assert(lv.take(j + 1) =~= lv.take(j as int).push(lv[j as int]));
            lv.take(j as int).lemma_filter_push(lv[j as int], p2);
        }
        if index.lookup(f.filename.as_str()).is_none() {
            proof {
                reveal_strlit("File in filesystem but not database: ");
            }
            out.push(concat2("File in filesystem but not database: ", f.filename.as_str()));
            assert(out@.map_values(|s: String| s@) =~= before.push(fs_only_message(lv[j as int])));
        }
        j += 1;
    }
    assert(lv.take(lv.len() as int) =~= lv);
    let ghost part2 = out@.map_values(|s: String| s@);
    let mut k: usize = 0;
    assert(lv.take(0) =~= Seq::<DiskView>::empty());
    assert(part2 + mismatch_report(iv, lv.take(0)) =~= part2);
    while k < filesystem_files.len()
        invariant
            k <= lv.len(),
            iv == index@,
            lv == filesystem_files@.map_values(|d: DiskNote| d@),
            out@.map_values(|s: String| s@) == part2 + mismatch_report(iv, lv.take(k as int)),
        decreases lv.len() - k,
    {
        let f = &filesystem_files[k];
        let ghost before = out@.map_values(|s: String| s@);
        proof {
            assert(lv.take(k + 1).drop_last() =~= lv.take(k as int));
            assert(lv.take(k + 1).last() == lv[k as int]);
        }
        match index.lookup(f.filename.as_str()) {
            None => {
                assert(file_mismatches(iv, lv[k as int]) =~= Seq::<Seq<char>>::empty());
                assert(before + Seq::<Seq<char>>::empty() =~= before);
            },
            Some(rec) => {
                if rec.content != f.content {
                    proof {
                        reveal_strlit("Content mismatch for file: ");
                    }
                    out.push(concat2("Content mismatch for file: ", f.filename.as_str()));
                }
                if rec.modified != f.modified {
                    let mut line = concat2("Timestamp mismatch for file ", f.filename.as_str());
                    line.append(": filesystem=");
                    let fs_time = i64_to_decimal(f.modified);
                    line.append(fs_time.as_str());
                    line.append(", database=");
                    let db_time = i64_to_decimal(rec.modified);
                    line.append(db_time.as_str());
                    proof {
                        reveal_strlit("Timestamp mismatch for file ");
                        reveal_strlit(": filesystem=");
                        reveal_strlit(", database=");
                    }
                    out.push(line);
                }
                assert(out@.map_values(|s: String| s@) =~= before + file_mismatches(iv, lv[k as int]));
            },
        }
        k += 1;
    }
    assert(lv.take(lv.len() as int) =~= lv);
    out
}

/// The path of a listed file.
pub open spec fn disk_name() -> spec_fn(DiskView) -> Seq<char> {
    |f: DiskView| f.filename
}

proof fn lemma_loaded_fresh(files: Seq<DiskView>, n: int)
    requires
        0 <= n <= files.len(),
        keys_unique(files, disk_name()),
        forall|i: int| 0 <= i < files.len() ==> #[trigger] files[i].modified != 0,
    ensures
        distinct_names(loaded(Seq::empty(), files, n)),
        forall|j: int| 0 <= j < n ==> ((#[trigger] record_of(loaded(Seq::empty(), files, n), files[j].filename)) matches Some(r)
            && r.content == files[j].content && r.modified == files[j].modified),
        forall|k: int| #![trigger loaded(Seq::empty(), files, n)[k]] 0 <= k < loaded(Seq::empty(), files, n).len()
            ==> exists|j: int| #![trigger files[j]] 0 <= j < n && files[j].filename == loaded(Seq::empty(), files, n)[k].filename,
    decreases n,
{
    if n > 0 {
        lemma_loaded_fresh(files, n - 1);
        let s = loaded(Seq::empty(), files, n - 1);
        let f = files[n - 1];
        assert forall|k: int| 0 <= k < s.len() implies #[trigger] s[k].filename != f.filename by {
            let j = choose|j: int| #![trigger files[j]] 0 <= j < n - 1 && files[j].filename == s[k].filename;
            assert(disk_name()(files[j]) != disk_name()(files[n - 1]));
        }
        assert(record_of(s, f.filename) is None);
        let rec = if n - 1 < IMMEDIATE_RENDER_COUNT {
            fresh_record(f.filename, f.content, f.modified)
        } else {
            RecordView { filename: f.filename, content: f.content, html_render: Seq::empty(), modified: f.modified, is_indexed: false }
        };
        assert(loaded(Seq::empty(), files, n) == upserted(s, rec));
        let t = upserted(s, rec);
        assert(t == s.push(rec));
        assert forall|j: int| 0 <= j < n implies ((#[trigger] record_of(t, files[j].filename)) matches Some(r)
            && r.content == files[j].content && r.modified == files[j].modified) by {
            crate::index::lemma_lookup_upserted(s, rec, files[j].filename);
            if j < n - 1 {
                assert(disk_name()(files[j]) != disk_name()(files[n - 1]));
            }
        }
        crate::index::lemma_lookup_upserted(s, rec, f.filename);
        assert forall|k: int| #![trigger t[k]] 0 <= k < t.len() implies exists|j: int| #![trigger files[j]] 0 <= j < n && files[j].filename == t[k].filename by {
            if k < s.len() {
                let j = choose|j: int| #![trigger files[j]] 0 <= j < n - 1 && files[j].filename == s[k].filename;
                assert(t[k] == s[k]);
                assert(files[j].filename == t[k].filename);
            } else {
                assert(files[n - 1].filename == t[k].filename);
            }
        }
    }
}

/// After the index is rebuilt from a listing of the notes directory, the quick check finds
/// it in step with that listing, provided no path is listed twice and no file carries the
/// time zero (a file at time zero looks unchanged to a fresh index and is not loaded).
pub proof fn law_rebuild_in_sync(listing: Seq<DiskView>)
    requires
        keys_unique(listing, disk_name()),
        forall|i: int| 0 <= i < listing.len() ==> #[trigger] listing[i].modified != 0,
    ensures
        in_sync(load_spec(Seq::empty(), listing), listing),
{
    let vis_pred = |f: DiskView| !is_hidden(f.filename);
    let vis = listing.filter(vis_pred);
    let files = load_order(listing);
    lemma_filter_keys_unique(listing, vis_pred, disk_name());
    lemma_sorted_keys_unique(vis, newer_file(), disk_name());
    assert forall|i: int| 0 <= i < files.len() implies #[trigger] files[i].modified != 0 by {
        assert(files.contains(files[i]));
        lemma_sorted_members(vis, newer_file(), files[i]);
        let m = choose|m: int| 0 <= m < vis.len() && vis[m] == files[i];
        assert(vis.contains(vis[m]));
        listing.lemma_filter_contains_rev(vis_pred, vis[m]);
    }
    assert(Seq::<RecordView>::empty().filter(named_in(files.map_values(|f: DiskView| f.filename))) =~= Seq::<RecordView>::empty()) by {
        reveal(Seq::filter);
    }
    lemma_loaded_fresh(files, files.len() as int);
    let idx = load_spec(Seq::empty(), listing);
    assert(idx == loaded(Seq::empty(), files, files.len() as int));
    let md_pred = |f: DiskView| !is_hidden(f.filename) && is_md_path(f.filename);
    let md = listing.filter(md_pred);
    let checked = check_order(listing);
    assert forall|i: int| 0 <= i < checked.len() implies agrees(idx, #[trigger] checked[i]) by {
        let e = checked[i];
        let sorted_md = sorted_stable(md, newer_exact());
        assert(e == sorted_md[i]);
        assert(sorted_md.contains(e));
        lemma_sorted_members(md, newer_exact(), e);
        listing.lemma_filter_contains_rev(md_pred, e);
        let m = choose|m: int| 0 <= m < listing.len() && listing[m] == e;
        let k = choose|k: int| 0 <= k < md.len() && md[k] == e;
        listing.lemma_filter_pred(md_pred, k);
        listing.lemma_filter_contains(vis_pred, m);
        lemma_sorted_members(vis, newer_file(), e);
        let j = choose|j: int| 0 <= j < files.len() && files[j] == e;
        assert(record_of(idx, files[j].filename) matches Some(r) && r.content == files[j].content && r.modified == files[j].modified);
    }
}

/// Where no listed file differs from its record, the mismatch lines are empty.
proof fn lemma_no_mismatches(index: Seq<RecordView>, listing: Seq<DiskView>)
    requires
        forall|i: int| 0 <= i < listing.len() ==> file_mismatches(index, #[trigger] listing[i]) == Seq::<Seq<char>>::empty(),
    ensures
        mismatch_report(index, listing) == Seq::<Seq<char>>::empty(),
    decreases listing.len(),
{
    if listing.len() > 0 {
        let init = listing.drop_last();
        assert forall|i: int| 0 <= i < init.len() implies file_mismatches(index, #[trigger] init[i]) == Seq::<Seq<char>>::empty() by {
            assert(init[i] == listing[i]);
        }
        lemma_no_mismatches(index, init);
        assert(listing.last() == listing[listing.len() - 1]);
        assert(mismatch_report(index, listing) =~= Seq::<Seq<char>>::empty());
    }
}

/// After the index is rebuilt from a listing of visible files, comparing the two reports
/// nothing, provided no path is listed twice and no file carries the time zero.
pub proof fn law_rebuild_reports_nothing(listing: Seq<DiskView>)
    requires
        keys_unique(listing, disk_name()),
        forall|i: int| 0 <= i < listing.len() ==> #[trigger] listing[i].modified != 0,
        forall|i: int| 0 <= i < listing.len() ==> !is_hidden(#[trigger] listing[i].filename),
    ensures
        sync_report(load_spec(Seq::empty(), listing), listing) == Seq::<Seq<char>>::empty(),
{
    let vis_pred = |f: DiskView| !is_hidden(f.filename);
    let vis = listing.filter(vis_pred);
    let files = load_order(listing);
    lemma_filter_keys_unique(listing, vis_pred, disk_name());
    lemma_sorted_keys_unique(vis, newer_file(), disk_name());
    assert forall|i: int| 0 <= i < files.len() implies #[trigger] files[i].modified != 0 by {
        assert(files.contains(files[i]));
        lemma_sorted_members(vis, newer_file(), files[i]);
        let m = choose|m: int| 0 <= m < vis.len() && vis[m] == files[i];
        assert(vis.contains(vis[m]));
        listing.lemma_filter_contains_rev(vis_pred, vis[m]);
    }
    assert(Seq::<RecordView>::empty().filter(named_in(files.map_values(|f: DiskView| f.filename))) =~= Seq::<RecordView>::empty()) by {
        reveal(Seq::filter);
    }
    lemma_loaded_fresh(files, files.len() as int);
    let idx = load_spec(Seq::empty(), listing);
    assert(idx == loaded(Seq::empty(), files, files.len() as int));
    assert forall|i: int| #![trigger listing[i]] 0 <= i < listing.len() implies exists|j: int| 0 <= j < files.len() && #[trigger] files[j] == listing[i] by {
        listing.lemma_filter_contains(vis_pred, i);
        let m = choose|m: int| 0 <= m < vis.len() && vis[m] == listing[i];
        assert(vis.contains(vis[m]));
        lemma_sorted_members(vis, newer_file(), listing[i]);
    }
    assert forall|k: int| 0 <= k < idx.len() implies !(#[trigger] db_only_pred(listing)(idx[k])) by {
        let j = choose|j: int| #![trigger files[j]] 0 <= j < files.len() && files[j].filename == idx[k].filename;
        assert(files.contains(files[j]));
        lemma_sorted_members(vis, newer_file(), files[j]);
        let m = choose|m: int| 0 <= m < vis.len() && vis[m] == files[j];
        assert(vis.contains(vis[m]));
        listing.lemma_filter_contains_rev(vis_pred, vis[m]);
        let n = choose|n: int| 0 <= n < listing.len() && listing[n] == vis[m];
        assert(listing[n].filename == idx[k].filename);
    }
    idx.lemma_all_neg_filter_empty(db_only_pred(listing));
    assert forall|i: int| 0 <= i < listing.len() implies !(#[trigger] fs_only_pred(idx)(listing[i])) && file_mismatches(idx, listing[i]) == Seq::<Seq<char>>::empty() by {
        let j = choose|j: int| 0 <= j < files.len() && #[trigger] files[j] == listing[i];
        assert(record_of(idx, files[j].filename) matches Some(r) && r.content == files[j].content && r.modified == files[j].modified);
        assert(file_mismatches(idx, listing[i]) =~= Seq::<Seq<char>>::empty());
    }
    listing.lemma_all_neg_filter_empty(fs_only_pred(idx));
    lemma_no_mismatches(idx, listing);
    assert(sync_report(idx, listing) =~= Seq::<Seq<char>>::empty());
}

} // verus!
