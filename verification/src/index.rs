//! The notes index: one record per note file, with its content, its rendered HTML, its
//! modification time and whether the HTML is current. It answers the lookups that the
//! commands and the search make.
use vstd::prelude::*;
use crate::text::{chars_equal, chars_of};

verus! {

/// What the index holds about one note.
#[derive(Debug, Clone)]
pub struct NoteRecord {
    pub filename: String,
    pub content: String,
    pub html_render: String,
    pub modified: i64,
    pub is_indexed: bool,
}

/// The mathematical value of a [`NoteRecord`].
pub struct RecordView {
    pub filename: Seq<char>,
    pub content: Seq<char>,
    pub html_render: Seq<char>,
    pub modified: i64,
    pub is_indexed: bool,
}

impl View for NoteRecord {
    type V = RecordView;

    open spec fn view(&self) -> RecordView {
        RecordView {
            filename: self.filename@,
            content: self.content@,
            html_render: self.html_render@,
            modified: self.modified,
            is_indexed: self.is_indexed,
        }
    }
}

/// No two records share a file name.
pub open spec fn distinct_names(s: Seq<RecordView>) -> bool {
    forall|i: int, j: int| 0 <= i < s.len() && 0 <= j < s.len() && i != j ==> #[trigger] s[i].filename
        != #[trigger] s[j].filename
}

/// Where the record of a file lies, if the index holds one.
pub open spec fn position_of(s: Seq<RecordView>, name: Seq<char>) -> Option<int> {
    if exists|i: int| 0 <= i < s.len() && #[trigger] s[i].filename == name {
        Some(choose|i: int| 0 <= i < s.len() && #[trigger] s[i].filename == name)
    } else {
        None
    }
}

/// The index holds a record for the file.
pub open spec fn has_name(s: Seq<RecordView>, name: Seq<char>) -> bool {
    exists|i: int| 0 <= i < s.len() && #[trigger] s[i].filename == name
}

/// The record of a file, where there is one.
pub open spec fn record_of(s: Seq<RecordView>, name: Seq<char>) -> Option<RecordView> {
    match position_of(s, name) {
        Some(i) => Some(s[i]),
        None => None,
    }
}

/// The records with the one for `name` left out.
pub open spec fn without_name(s: Seq<RecordView>, name: Seq<char>) -> Seq<RecordView> {
    s.filter(|r: RecordView| r.filename != name)
}

/// The records after storing `rec`: it replaces the record of the same file in place, or is
/// added at the end.
pub open spec fn upserted(s: Seq<RecordView>, rec: RecordView) -> Seq<RecordView> {
    match position_of(s, rec.filename) {
        Some(i) => s.update(i, rec),
        None => s.push(rec),
    }
}

/// All the notes that the index knows.
pub struct NotesIndex {
    records: Vec<NoteRecord>,
}

impl View for NotesIndex {
    type V = Seq<RecordView>;

    closed spec fn view(&self) -> Seq<RecordView> {
        self.records@.map_values(|r: NoteRecord| r@)
    }
}

/// In a sequence without repeated names, a position holding a name is the position of it.
pub proof fn lemma_position_unique(s: Seq<RecordView>, i: int)
    requires
        distinct_names(s),
        0 <= i < s.len(),
    ensures
        position_of(s, s[i].filename) == Some(i),
        record_of(s, s[i].filename) == Some(s[i]),
        has_name(s, s[i].filename),
{
}

/// The record found for a name carries that name.
pub proof fn lemma_record_of_name(s: Seq<RecordView>, name: Seq<char>)
    ensures
        record_of(s, name) matches Some(r) ==> r.filename == name,
{
}

impl NotesIndex {
    #[verifier::type_invariant]
    spec fn names_distinct(self) -> bool {
        distinct_names(self.records@.map_values(|r: NoteRecord| r@))
    }

    /// An empty index.
    pub fn new() -> (r: NotesIndex)
        ensures
            r@ == Seq::<RecordView>::empty(),
            distinct_names(r@),
    {
        let r = NotesIndex { records: Vec::new() };
        assert(r@ =~= Seq::<RecordView>::empty());
        r
    }

    /// The number of records.
    pub fn len(&self) -> (r: usize)
        ensures
            r == self@.len(),
    {
        self.records.len()
    }

    /// The record at a position.
    pub fn get(&self, i: usize) -> (r: &NoteRecord)
        requires
            i < self@.len(),
        ensures
            r@ == self@[i as int],
    {
        &self.records[i]
    }

    /// Where the record of a file lies.
    pub fn find(&self, name: &str) -> (r: Option<usize>)
        ensures
            r matches Some(i) ==> position_of(self@, name@) == Some(i as int) && i < self@.len(),
            r is None ==> position_of(self@, name@) is None && !has_name(self@, name@),
            distinct_names(self@),
    {
        proof {
            use_type_invariant(self);
        }
        let target = chars_of(name);
        let mut i: usize = 0;
        while i < self.records.len()
            invariant
                i <= self.records@.len(),
                target@ == name@,
                distinct_names(self@),
                forall|j: int| 0 <= j < i ==> self@[j].filename != name@,
            decreases self.records.len() - i,
        {
            let f = chars_of(self.records[i].filename.as_str());
            if chars_equal(&f, &target) {
                proof {
                    lemma_position_unique(self@, i as int);
                }
                return Some(i);
            }
            i += 1;
        }
        None
    }

    /// The record of a file, where the index holds one.
    pub fn lookup(&self, name: &str) -> (r: Option<&NoteRecord>)
        ensures
            r matches Some(rec) ==> record_of(self@, name@) == Some(rec@),
            r is None ==> record_of(self@, name@) is None,
            distinct_names(self@),
    {
        match self.find(name) {
            Some(i) => Some(&self.records[i]),
            None => None,
        }
    }

    /// Stores a record, replacing the one of the same file if there is one.
    pub fn upsert(&mut self, rec: NoteRecord)
        ensures
            final(self)@ == upserted(old(self)@, rec@),
            distinct_names(old(self)@),
            distinct_names(final(self)@),
    {
        proof {
            use_type_invariant(&*self);
        }
        let ghost old_view = self@;
        match self.find(rec.filename.as_str()) {
            Some(i) => {
                let ghost idx = i as int;
                let mut records: Vec<NoteRecord> = Vec::new();
                std::mem::swap(&mut records, &mut self.records);
                records.set(i, rec);
                assert(records@.map_values(|r: NoteRecord| r@) =~= old_view.update(idx, rec@));
                assert(distinct_names(records@.map_values(|r: NoteRecord| r@))) by {
                    let s = records@.map_values(|r: NoteRecord| r@);
                    assert forall|a: int, b: int| 0 <= a < s.len() && 0 <= b < s.len() && a != b implies #[trigger] s[a].filename != #[trigger] s[b].filename by {
                        if a == idx {
                            assert(old_view[idx].filename == rec@.filename);
                        } else if b == idx {
                            assert(old_view[idx].filename == rec@.filename);
                        }
                    }
                }
                self.records = records;
            },
            None => {
                let mut records: Vec<NoteRecord> = Vec::new();
                std::mem::swap(&mut records, &mut self.records);
                records.push(rec);
                assert(records@.map_values(|r: NoteRecord| r@) =~= old_view.push(rec@));
                self.records = records;
            },
        }
    }

    /// Removes the record of a file, if there is one.
    pub fn remove(&mut self, name: &str)
        ensures
            final(self)@ == without_name(old(self)@, name@),
            distinct_names(old(self)@),
            distinct_names(final(self)@),
    {
        proof {
            use_type_invariant(&*self);
        }
        let ghost old_view = self@;
        let target = chars_of(name);
        let mut kept: Vec<NoteRecord> = Vec::new();
        let mut records: Vec<NoteRecord> = Vec::new();
        std::mem::swap(&mut records, &mut self.records);
        let mut i: usize = 0;
        while i < records.len()
            invariant
                i <= records@.len(),
                target@ == name@,
                old_view == records@.map_values(|r: NoteRecord| r@),
                kept@.map_values(|r: NoteRecord| r@) == without_name(old_view.take(i as int), name@),
            decreases records.len() - i,
        {
            let f = chars_of(records[i].filename.as_str());
            let same = chars_equal(&f, &target);
            let ghost before = kept@.map_values(|r: NoteRecord| r@);
            if !same {
                kept.push(records[i].clone_record());
                assert(kept@.map_values(|r: NoteRecord| r@) =~= before.push(old_view[i as int]));
            }
            assert(old_view.take(i + 1).drop_last() =~= old_view.take(i as int));
            assert(without_name(old_view.take(i + 1), name@) == if old_view[i as int].filename != name@ {
                without_name(old_view.take(i as int), name@).push(old_view[i as int])
            } else {
                without_name(old_view.take(i as int), name@)
            }) by {
                reveal(Seq::filter);
                assert(old_view.take(i + 1).last() == old_view[i as int]);
            }
            i += 1;
        }
        assert(old_view.take(records@.len() as int) =~= old_view);
        proof {
            let s = kept@.map_values(|r: NoteRecord| r@);
            assert forall|a: int, b: int| 0 <= a < s.len() && 0 <= b < s.len() && a != b implies #[trigger] s[a].filename != #[trigger] s[b].filename by {
                lemma_filter_keeps_distinct(old_view, name@, a, b);
            }
        }
        self.records = kept;
    }

    /// Renames the record of a file. A record that already carries the new name is
    /// dropped first, so the index keeps one record per name.
    pub fn rename(&mut self, old_name: &str, new_name: &str)
        ensures
            final(self)@ == rename_records(old(self)@, old_name@, new_name@),
            distinct_names(old(self)@),
            distinct_names(final(self)@),
    {
        proof {
            use_type_invariant(&*self);
        }
        let target = chars_of(old_name);
        let fresh = chars_of(new_name);
        if chars_equal(&target, &fresh) {
            return;
        }
        match self.find(old_name) {
            None => {},
            Some(i) => {
                let mut rec = self.records[i].clone_record();
                rec.filename = String::from_str(new_name);
                self.remove(old_name);
                self.remove(new_name);
                self.insert_at_end(rec);
            },
        }
    }

    fn insert_at_end(&mut self, rec: NoteRecord)
        requires
            !has_name(old(self)@, rec@.filename),
        ensures
            final(self)@ == old(self)@.push(rec@),
    {
        proof {
            use_type_invariant(&*self);
        }
        let ghost old_view = self@;
        let mut records: Vec<NoteRecord> = Vec::new();
                std::mem::swap(&mut records, &mut self.records);
        records.push(rec);
        assert(records@.map_values(|r: NoteRecord| r@) =~= old_view.push(rec@));
        self.records = records;
    }

    /// The file names, most recently modified first; records modified at the same time keep
    /// their order in the index.
    pub fn names_by_recency(&self) -> (r: Vec<String>)
        ensures
            r@.map_values(|s: String| s@) == names_by_recency_spec(self@),
    {
        let mut keyed: Vec<(i64, String)> = Vec::new();
        let mut i: usize = 0;
        while i < self.records.len()
            invariant
                i <= self.records@.len(),
                keyed@.map_values(|p: (i64, String)| crate::ordering::pair_view(p)) == recency_keys(self@.take(i as int)),
            decreases self.records.len() - i,
        {
            let ghost before = keyed@.map_values(|p: (i64, String)| crate::ordering::pair_view(p));
            proof {
                use_type_invariant(self);
            }
            keyed.push((self.records[i].modified, self.records[i].filename.clone()));
            assert(self@.take(i + 1).drop_last() =~= self@.take(i as int));
            assert(keyed@.map_values(|p: (i64, String)| crate::ordering::pair_view(p)) =~= before.push((self@[i as int].modified, self@[i as int].filename)));
            i += 1;
        }
        assert(self@.take(self.records@.len() as int) =~= self@);
        let sorted = crate::ordering::sort_by_recency(keyed);
        let mut out: Vec<String> = Vec::new();
        let mut k: usize = 0;
        while k < sorted.len()
            invariant
                k <= sorted@.len(),
                out@.map_values(|s: String| s@) == sorted@.map_values(|p: (i64, String)| p.1@).take(k as int),
            decreases sorted.len() - k,
        {
            let name = sorted[k].1.clone();
            let ghost before = out@.map_values(|s: String| s@);
            out.push(name);
            assert(out@.map_values(|s: String| s@) =~= before.push(sorted@[k as int].1@));
            assert(out@.map_values(|s: String| s@) =~= sorted@.map_values(|p: (i64, String)| p.1@).take(k + 1));
            k += 1;
        }
        assert(sorted@.map_values(|p: (i64, String)| p.1@).take(sorted@.len() as int) =~= sorted@.map_values(|p: (i64, String)| p.1@));
        assert(sorted@.map_values(|p: (i64, String)| p.1@) =~= sorted@.map_values(|p: (i64, String)| crate::ordering::pair_view(p)).map_values(|p: (i64, Seq<char>)| p.1));
        out
    }
}

/// Renaming a record: the record of `old` takes the name `new` and moves to the end, and a
/// record that carried `new` before is gone. Nothing changes where there is no record of
/// `old` or the names are the same.
pub open spec fn rename_records(s: Seq<RecordView>, old: Seq<char>, new: Seq<char>) -> Seq<RecordView> {
    if old == new {
        s
    } else {
        match record_of(s, old) {
            None => s,
            Some(r) => without_name(without_name(s, old), new).push(RecordView { filename: new, ..r }),
        }
    }
}

/// The (modification time, file name) pairs of the records, in index order.
pub open spec fn recency_keys(s: Seq<RecordView>) -> Seq<(i64, Seq<char>)> {
    s.map_values(|r: RecordView| (r.modified, r.filename))
}

/// The file names, most recently modified first, ties in index order.
pub open spec fn names_by_recency_spec(s: Seq<RecordView>) -> Seq<Seq<char>> {
    crate::ordering::recency_sorted(recency_keys(s)).map_values(|p: (i64, Seq<char>)| p.1)
}

/// Every name in the listing by recency is the name of a record.
pub proof fn lemma_listed_names(s: Seq<RecordView>, name: Seq<char>)
    requires
        names_by_recency_spec(s).contains(name),
    ensures
        exists|i: int| 0 <= i < s.len() && #[trigger] s[i].filename == name,
{
    let keys = recency_keys(s);
    let sorted = crate::ordering::recency_sorted(keys);
    let names = names_by_recency_spec(s);
    let j = choose|j: int| 0 <= j < names.len() && names[j] == name;
    assert(sorted.contains(sorted[j]));
    crate::ordering::lemma_sorted_members(keys, crate::ordering::newer_first(), sorted[j]);
    let i = choose|i: int| 0 <= i < keys.len() && keys[i] == sorted[j];
    assert(s[i].filename == name);
}

/// Leaving out one name keeps the rest free of repeats.
pub proof fn lemma_filter_keeps_distinct(s: Seq<RecordView>, name: Seq<char>, a: int, b: int)
    requires
        distinct_names(s),
        0 <= a < without_name(s, name).len(),
        0 <= b < without_name(s, name).len(),
        a != b,
    ensures
        without_name(s, name)[a].filename != without_name(s, name)[b].filename,
    decreases s.len(),
{
    reveal(Seq::filter);
    let f = without_name(s, name);
    if s.len() == 0 {
    } else {
        let init = s.drop_last();
        assert(distinct_names(init)) by {
            assert forall|i: int, j: int| 0 <= i < init.len() && 0 <= j < init.len() && i != j implies #[trigger] init[i].filename != #[trigger] init[j].filename by {
                assert(init[i] == s[i] && init[j] == s[j]);
            }
        }
        let fi = without_name(init, name);
        if s.last().filename != name {
            assert(f == fi.push(s.last()));
            if a < fi.len() && b < fi.len() {
                lemma_filter_keeps_distinct(init, name, a, b);
            } else {
                let other = if a < fi.len() { a } else { b };
                assert(fi.contains(fi[other]));
                lemma_filter_member(init, name, other);
                let k = choose|k: int| 0 <= k < init.len() && init[k] == fi[other];
                assert(s[k] == init[k]);
                assert(s[s.len() - 1] == s.last());
            }
        } else {
            assert(f == fi);
            lemma_filter_keeps_distinct(init, name, a, b);
        }
    }
}

/// Each record left after leaving out a name was in the index.
pub proof fn lemma_filter_member(s: Seq<RecordView>, name: Seq<char>, i: int)
    requires
        0 <= i < without_name(s, name).len(),
    ensures
        exists|k: int| 0 <= k < s.len() && s[k] == without_name(s, name)[i],
{
    let f = without_name(s, name);
    assert(f.contains(f[i]));
    s.lemma_filter_contains_rev(|r: RecordView| r.filename != name, f[i]);
}

impl NoteRecord {
    /// A copy of the record.
    pub fn clone_record(&self) -> (r: NoteRecord)
        ensures
            r@ == self@,
    {
        NoteRecord {
            filename: self.filename.clone(),
            content: self.content.clone(),
            html_render: self.html_render.clone(),
            modified: self.modified,
            is_indexed: self.is_indexed,
        }
    }
}

/// Keeps the records whose file name is among `names`.
pub open spec fn named_in(names: Seq<Seq<char>>) -> spec_fn(RecordView) -> bool {
    |r: RecordView| names.contains(r.filename)
}

/// Leaving records out keeps the names free of repeats.
pub proof fn lemma_filter_distinct_names(s: Seq<RecordView>, pred: spec_fn(RecordView) -> bool)
    requires
        distinct_names(s),
    ensures
        distinct_names(s.filter(pred)),
    decreases s.len(),
{
    reveal(Seq::filter);
    if s.len() > 0 {
        let init = s.drop_last();
        assert(distinct_names(init)) by {
            assert forall|i: int, j: int| 0 <= i < init.len() && 0 <= j < init.len() && i != j implies #[trigger] init[i].filename != #[trigger] init[j].filename by {
                assert(init[i] == s[i] && init[j] == s[j]);
            }
        }
        lemma_filter_distinct_names(init, pred);
        let fi = init.filter(pred);
        if pred(s.last()) {
            let f = fi.push(s.last());
            assert(s.filter(pred) == f);
            assert forall|a: int, b: int| 0 <= a < f.len() && 0 <= b < f.len() && a != b implies #[trigger] f[a].filename != #[trigger] f[b].filename by {
                if a == fi.len() || b == fi.len() {
                    let other = if a == fi.len() { b } else { a };
                    assert(fi.contains(fi[other]));
                    init.lemma_filter_contains_rev(pred, fi[other]);
                    let k = choose|k: int| 0 <= k < init.len() && init[k] == fi[other];
                    assert(s[k] == init[k]);
                    assert(s[s.len() - 1] == s.last());
                }
            }
        }
    }
}

impl NotesIndex {
    /// Keeps only the records whose file name is among `names`.
    pub fn retain_names(&mut self, names: &Vec<String>)
        ensures
            final(self)@ == old(self)@.filter(named_in(names@.map_values(|x: String| x@))),
            distinct_names(final(self)@),
    {
        proof {
            use_type_invariant(&*self);
        }
        let ghost old_view = self@;
        let ghost nv = names@.map_values(|x: String| x@);
        let ghost pred = named_in(nv);
        let mut records: Vec<NoteRecord> = Vec::new();
        std::mem::swap(&mut records, &mut self.records);
        let mut kept: Vec<NoteRecord> = Vec::new();
        let mut i: usize = 0;
        assert(old_view.take(0).filter(pred) =~= Seq::<RecordView>::empty()) by {
            reveal(Seq::filter);
        }
        while i < records.len()
            invariant
                i <= records@.len(),
                old_view == records@.map_values(|r: NoteRecord| r@),
                nv == names@.map_values(|x: String| x@),
                pred == named_in(nv),
                kept@.map_values(|r: NoteRecord| r@) == old_view.take(i as int).filter(pred),
            decreases records.len() - i,
        {
            let ghost before = kept@.map_values(|r: NoteRecord| r@);
            proof {
                assert(old_view.take(i + 1) =~= old_view.take(i as int).push(old_view[i as int]));
                old_view.take(i as int).lemma_filter_push(old_view[i as int], pred);
            }
            let mut found = false;
            let mut k: usize = 0;
            while k < names.len()
                invariant
                    k <= names@.len(),
                    nv == names@.map_values(|x: String| x@),
                    found == exists|j: int| 0 <= j < k && nv[j] == records@[i as int].filename@,
                    i < records@.len(),
                decreases names.len() - k,
            {
                assert(nv[k as int] == names@[k as int]@);
                let ghost was = found;
                if names[k] == records[i].filename {
                    found = true;
                }
                assert(found == (was || nv[k as int] == records@[i as int].filename@));
                k += 1;
            }
            assert(found == nv.contains(old_view[i as int].filename));
            if found {
                kept.push(records[i].clone_record());
                assert(kept@.map_values(|r: NoteRecord| r@) =~= before.push(old_view[i as int]));
            }
            i += 1;
        }
        assert(old_view.take(old_view.len() as int) =~= old_view);
        proof {
            lemma_filter_distinct_names(old_view, pred);
        }
        self.records = kept;
    }
}

/// Storing a record and looking up its file gives the record back; other files keep their
/// records.
pub proof fn lemma_lookup_upserted(s: Seq<RecordView>, rec: RecordView, other: Seq<char>)
    requires
        distinct_names(s),
    ensures
        distinct_names(upserted(s, rec)),
        record_of(upserted(s, rec), rec.filename) == Some(rec),
        other != rec.filename ==> record_of(upserted(s, rec), other) == record_of(s, other),
{
    let t = upserted(s, rec);
    match position_of(s, rec.filename) {
        Some(i) => {
            assert forall|a: int, b: int| 0 <= a < t.len() && 0 <= b < t.len() && a != b implies #[trigger] t[a].filename != #[trigger] t[b].filename by {
                assert(s[i].filename == rec.filename);
            }
            lemma_position_unique(t, i);
            if other != rec.filename {
                if exists|j: int| 0 <= j < s.len() && #[trigger] s[j].filename == other {
                    let j = choose|j: int| 0 <= j < s.len() && #[trigger] s[j].filename == other;
                    lemma_position_unique(s, j);
                    assert(t[j] == s[j]);
                    lemma_position_unique(t, j);
                } else {
                    assert forall|j: int| 0 <= j < t.len() implies #[trigger] t[j].filename != other by {
                        if j != i {
                            assert(t[j] == s[j]);
                        }
                    }
                }
            }
        },
        None => {
            assert forall|a: int, b: int| 0 <= a < t.len() && 0 <= b < t.len() && a != b implies #[trigger] t[a].filename != #[trigger] t[b].filename by {
                if a == s.len() as int {
                    assert(s[b].filename != rec.filename);
                } else if b == s.len() as int {
                    assert(s[a].filename != rec.filename);
                }
            }
            lemma_position_unique(t, s.len() as int);
            if other != rec.filename {
                if exists|j: int| 0 <= j < s.len() && #[trigger] s[j].filename == other {
                    let j = choose|j: int| 0 <= j < s.len() && #[trigger] s[j].filename == other;
                    lemma_position_unique(s, j);
                    assert(t[j] == s[j]);
                    lemma_position_unique(t, j);
                } else {
                    assert forall|j: int| 0 <= j < t.len() implies #[trigger] t[j].filename != other by {
                        if j < s.len() {
                            assert(t[j] == s[j]);
                        }
                    }
                }
            }
        },
    }
}

/// Removing a file's record leaves none for it; other files keep their records.
pub proof fn lemma_lookup_without(s: Seq<RecordView>, name: Seq<char>, other: Seq<char>)
    requires
        distinct_names(s),
    ensures
        distinct_names(without_name(s, name)),
        record_of(without_name(s, name), name) is None,
        other != name ==> record_of(without_name(s, name), other) == record_of(s, other),
{
    let pred = |r: RecordView| r.filename != name;
    let f = s.filter(pred);
    lemma_filter_distinct_names(s, pred);
    assert forall|j: int| 0 <= j < f.len() implies #[trigger] f[j].filename != name by {
        s.lemma_filter_pred(pred, j);
    }
    if other != name {
        if exists|j: int| 0 <= j < s.len() && #[trigger] s[j].filename == other {
            let j = choose|j: int| 0 <= j < s.len() && #[trigger] s[j].filename == other;
            lemma_position_unique(s, j);
            s.lemma_filter_contains(pred, j);
            let k = choose|k: int| 0 <= k < f.len() && f[k] == s[j];
            lemma_position_unique(f, k);
        } else {
            assert forall|k: int| 0 <= k < f.len() implies #[trigger] f[k].filename != other by {
                assert(f.contains(f[k]));
                s.lemma_filter_contains_rev(pred, f[k]);
            }
        }
    }
}

/// Renaming a record: the new name finds the record, now carrying the new name, and the old
/// name finds nothing.
pub proof fn lemma_lookup_renamed(s: Seq<RecordView>, old: Seq<char>, new: Seq<char>)
    requires
        distinct_names(s),
        old != new,
        record_of(s, old) is Some,
    ensures
        distinct_names(rename_records(s, old, new)),
        record_of(rename_records(s, old, new), new) == Some(RecordView { filename: new, ..record_of(s, old)->0 }),
        record_of(rename_records(s, old, new), old) is None,
{
    let r = record_of(s, old)->0;
    let s1 = without_name(s, old);
    lemma_lookup_without(s, old, new);
    let s2 = without_name(s1, new);
    lemma_lookup_without(s1, new, old);
    let moved = RecordView { filename: new, ..r };
    assert(position_of(s2, new) is None);
    lemma_lookup_upserted(s2, moved, old);
    assert(upserted(s2, moved) == s2.push(moved));
}

} // verus!
