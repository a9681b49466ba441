//! A directory of text files held in memory: each entry is a relative path and the file's
//! text, and no path occurs twice. The notes directory and the backup directory are kept
//! this way.
use vstd::prelude::*;

verus! {

/// An entry: a relative path and the text of the file.
pub type EntryView = (Seq<char>, Seq<char>);

/// No two entries share a path.
pub open spec fn keys_distinct(s: Seq<EntryView>) -> bool {
    forall|i: int, j: int| 0 <= i < s.len() && 0 <= j < s.len() && i != j ==> #[trigger] s[i].0
        != #[trigger] s[j].0
}

/// Where the entry of a path lies, if there is one.
pub open spec fn key_index(s: Seq<EntryView>, k: Seq<char>) -> Option<int> {
    if exists|i: int| 0 <= i < s.len() && #[trigger] s[i].0 == k {
        Some(choose|i: int| 0 <= i < s.len() && #[trigger] s[i].0 == k)
    } else {
        None
    }
}

/// The text stored at a path, if any.
pub open spec fn lookup(s: Seq<EntryView>, k: Seq<char>) -> Option<Seq<char>> {
    match key_index(s, k) {
        Some(i) => Some(s[i].1),
        None => None,
    }
}

/// The entries after writing `v` at `k`: an existing entry is replaced in place, a new one is
/// added at the end.
pub open spec fn stored(s: Seq<EntryView>, k: Seq<char>, v: Seq<char>) -> Seq<EntryView> {
    match key_index(s, k) {
        Some(i) => s.update(i, (k, v)),
        None => s.push((k, v)),
    }
}

/// The entries after removing the one at `k`, if there is one.
pub open spec fn removed(s: Seq<EntryView>, k: Seq<char>) -> Seq<EntryView> {
    match key_index(s, k) {
        Some(i) => s.remove(i),
        None => s,
    }
}

/// In entries without repeated paths, the entry holding a path is the one found for it.
pub proof fn lemma_key_index_unique(s: Seq<EntryView>, i: int)
    requires
        keys_distinct(s),
        0 <= i < s.len(),
    ensures
        key_index(s, s[i].0) == Some(i),
        lookup(s, s[i].0) == Some(s[i].1),
{
}

/// Writing a text at a path and reading it back gives the text; other paths keep theirs.
pub proof fn lemma_lookup_stored(s: Seq<EntryView>, k: Seq<char>, v: Seq<char>, other: Seq<char>)
    requires
        keys_distinct(s),
    ensures
        keys_distinct(stored(s, k, v)),
        lookup(stored(s, k, v), k) == Some(v),
        other != k ==> lookup(stored(s, k, v), other) == lookup(s, other),
{
    let t = stored(s, k, v);
    match key_index(s, k) {
        Some(i) => {
            assert forall|a: int, b: int| 0 <= a < t.len() && 0 <= b < t.len() && a != b implies #[trigger] t[a].0 != #[trigger] t[b].0 by {
                assert(s[i].0 == k);
            }
            lemma_key_index_unique(t, i);
            if other != k {
                if exists|j: int| 0 <= j < s.len() && #[trigger] s[j].0 == other {
                    let j = choose|j: int| 0 <= j < s.len() && #[trigger] s[j].0 == other;
                    lemma_key_index_unique(s, j);
                    assert(t[j] == s[j]);
                    lemma_key_index_unique(t, j);
                } else {
                    assert forall|j: int| 0 <= j < t.len() implies #[trigger] t[j].0 != other by {
                        if j != i {
                            assert(t[j] == s[j]);
                        }
                    }
                }
            }
        },
        None => {
            assert forall|a: int, b: int| 0 <= a < t.len() && 0 <= b < t.len() && a != b implies #[trigger] t[a].0 != #[trigger] t[b].0 by {
                if a == s.len() as int {
                    assert(s[b].0 != k);
                } else if b == s.len() as int {
                    assert(s[a].0 != k);
                }
            }
            lemma_key_index_unique(t, s.len() as int);
            if other != k {
                if exists|j: int| 0 <= j < s.len() && #[trigger] s[j].0 == other {
                    let j = choose|j: int| 0 <= j < s.len() && #[trigger] s[j].0 == other;
                    lemma_key_index_unique(s, j);
                    assert(t[j] == s[j]);
                    lemma_key_index_unique(t, j);
                } else {
                    assert forall|j: int| 0 <= j < t.len() implies #[trigger] t[j].0 != other by {
                        if j < s.len() {
                            assert(t[j] == s[j]);
                        }
                    }
                }
            }
        },
    }
}

/// Removing a path leaves nothing at it; other paths keep their texts.
pub proof fn lemma_lookup_removed(s: Seq<EntryView>, k: Seq<char>, other: Seq<char>)
    requires
        keys_distinct(s),
    ensures
        keys_distinct(removed(s, k)),
        lookup(removed(s, k), k) is None,
        other != k ==> lookup(removed(s, k), other) == lookup(s, other),
{
    let t = removed(s, k);
    match key_index(s, k) {
        Some(i) => {
            assert forall|a: int, b: int| 0 <= a < t.len() && 0 <= b < t.len() && a != b implies #[trigger] t[a].0 != #[trigger] t[b].0 by {
                let sa = if a < i { a } else { a + 1 };
                let sb = if b < i { b } else { b + 1 };
                assert(t[a] == s[sa] && t[b] == s[sb]);
            }
            assert forall|j: int| 0 <= j < t.len() implies #[trigger] t[j].0 != k by {
                let sj = if j < i { j } else { j + 1 };
                assert(t[j] == s[sj]);
            }
            if other != k {
                if exists|j: int| 0 <= j < s.len() && #[trigger] s[j].0 == other {
                    let j = choose|j: int| 0 <= j < s.len() && #[trigger] s[j].0 == other;
                    lemma_key_index_unique(s, j);
                    let tj = if j < i { j } else { j - 1 };
                    assert(t[tj] == s[j]);
                    lemma_key_index_unique(t, tj);
                } else {
                    assert forall|j: int| 0 <= j < t.len() implies #[trigger] t[j].0 != other by {
                        let sj = if j < i { j } else { j + 1 };
                        assert(t[j] == s[sj]);
                    }
                }
            }
        },
        None => {},
    }
}

/// Keeps the entries whose path is not among `paths`.
pub open spec fn keep_pred(paths: Seq<Seq<char>>) -> spec_fn(EntryView) -> bool {
    |e: EntryView| !paths.contains(e.0)
}

/// The entries whose path is not among `paths`, in their order.
pub open spec fn without_paths(s: Seq<EntryView>, paths: Seq<Seq<char>>) -> Seq<EntryView> {
    s.filter(keep_pred(paths))
}

/// Leaving entries out keeps the paths free of repeats.
pub proof fn lemma_filter_keys_distinct(s: Seq<EntryView>, pred: spec_fn(EntryView) -> bool)
    requires
        keys_distinct(s),
    ensures
        keys_distinct(s.filter(pred)),
    decreases s.len(),
{
    reveal(Seq::filter);
    if s.len() > 0 {
        let init = s.drop_last();
        assert(keys_distinct(init)) by {
            assert forall|i: int, j: int| 0 <= i < init.len() && 0 <= j < init.len() && i != j implies #[trigger] init[i].0 != #[trigger] init[j].0 by {
                assert(init[i] == s[i] && init[j] == s[j]);
            }
        }
        lemma_filter_keys_distinct(init, pred);
        let fi = init.filter(pred);
        if pred(s.last()) {
            let f = fi.push(s.last());
            assert(s.filter(pred) == f);
            assert forall|a: int, b: int| 0 <= a < f.len() && 0 <= b < f.len() && a != b implies #[trigger] f[a].0 != #[trigger] f[b].0 by {
                if a == fi.len() || b == fi.len() {
                    let other = if a == fi.len() { b } else { a };
                    assert(fi.contains(fi[other]));
                    init.lemma_filter_contains_rev(pred, fi[other]);
                    let k = choose|k: int| 0 <= k < init.len() && init[k] == fi[other];
                    assert(s[k] == init[k]);
                    assert(s[s.len() - 1] == s.last());
                }
            }
        }
    }
}

/// Leaving out the entries at some paths keeps the text at every other path.
pub proof fn lemma_lookup_without_paths(s: Seq<EntryView>, paths: Seq<Seq<char>>, k: Seq<char>)
    requires
        keys_distinct(s),
        !paths.contains(k),
    ensures
        keys_distinct(without_paths(s, paths)),
        lookup(without_paths(s, paths), k) == lookup(s, k),
{
    let pred = keep_pred(paths);
    let f = s.filter(pred);
    lemma_filter_keys_distinct(s, pred);
    if exists|j: int| 0 <= j < s.len() && #[trigger] s[j].0 == k {
        let j = choose|j: int| 0 <= j < s.len() && #[trigger] s[j].0 == k;
        lemma_key_index_unique(s, j);
        s.lemma_filter_contains(pred, j);
        let m = choose|m: int| 0 <= m < f.len() && f[m] == s[j];
        lemma_key_index_unique(f, m);
    } else {
        assert forall|m: int| 0 <= m < f.len() implies #[trigger] f[m].0 != k by {
            assert(f.contains(f[m]));
            s.lemma_filter_contains_rev(pred, f[m]);
        }
    }
}

/// The files of a directory, each at its own relative path.
pub struct FileMap {
    entries: Vec<(String, String)>,
}

/// The value of an entry.
pub open spec fn entry_view(e: (String, String)) -> EntryView {
    (e.0@, e.1@)
}

impl View for FileMap {
    type V = Seq<EntryView>;

    closed spec fn view(&self) -> Seq<EntryView> {
        self.entries@.map_values(|e: (String, String)| entry_view(e))
    }
}

impl FileMap {
    #[verifier::type_invariant]
    spec fn paths_distinct(self) -> bool {
        keys_distinct(self.entries@.map_values(|e: (String, String)| entry_view(e)))
    }

    /// An empty directory.
    pub fn new() -> (r: FileMap)
        ensures
            r@ == Seq::<EntryView>::empty(),
    {
        let r = FileMap { entries: Vec::new() };
        assert(r@ =~= Seq::<EntryView>::empty());
        r
    }

    /// The number of files.
    pub fn len(&self) -> (r: usize)
        ensures
            r == self@.len(),
            keys_distinct(self@),
    {
        proof {
            use_type_invariant(self);
        }
        self.entries.len()
    }

    /// The path of the file at a position.
    pub fn path_at(&self, i: usize) -> (r: &String)
        requires
            i < self@.len(),
        ensures
            r@ == self@[i as int].0,
    {
        &self.entries[i].0
    }

    /// The text of the file at a position.
    pub fn text_at(&self, i: usize) -> (r: &String)
        requires
            i < self@.len(),
        ensures
            r@ == self@[i as int].1,
    {
        &self.entries[i].1
    }

    /// Where the file at a path lies.
    pub fn find(&self, path: &str) -> (r: Option<usize>)
        ensures
            r matches Some(i) ==> key_index(self@, path@) == Some(i as int) && i < self@.len(),
            r is None ==> key_index(self@, path@) is None,
            keys_distinct(self@),
    {
        proof {
            use_type_invariant(self);
        }
        let key = String::from_str(path);
        let mut i: usize = 0;
        while i < self.entries.len()
            invariant
                i <= self@.len(),
                key@ == path@,
                keys_distinct(self@),
                forall|j: int| 0 <= j < i ==> self@[j].0 != path@,
            decreases self.entries.len() - i,
        {
            if self.entries[i].0 == key {
                proof {
                    lemma_key_index_unique(self@, i as int);
                }
                return Some(i);
            }
            i += 1;
        }
        None
    }

    /// The text of the file at a path, if there is one.
    pub fn get(&self, path: &str) -> (r: Option<&String>)
        ensures
            r matches Some(t) ==> lookup(self@, path@) == Some(t@),
            r is None ==> lookup(self@, path@) is None,
            keys_distinct(self@),
    {
        match self.find(path) {
            Some(i) => {
                assert(self@[i as int] == entry_view(self.entries@[i as int]));
                Some(&self.entries[i].1)
            },
            None => None,
        }
    }

    /// Whether there is a file at a path.
    pub fn contains(&self, path: &str) -> (r: bool)
        ensures
            r == (lookup(self@, path@) is Some),
            keys_distinct(self@),
    {
        self.find(path).is_some()
    }

    /// Writes a file, replacing the text at the path if there is one.
    pub fn store(&mut self, path: &str, text: &str)
        ensures
            final(self)@ == stored(old(self)@, path@, text@),
            keys_distinct(old(self)@),
            keys_distinct(final(self)@),
    {
        proof {
            use_type_invariant(&*self);
        }
        let ghost old_view = self@;
        let found = self.find(path);
        let mut entries: Vec<(String, String)> = Vec::new();
        std::mem::swap(&mut entries, &mut self.entries);
        match found {
            Some(i) => {
                entries.set(i, (String::from_str(path), String::from_str(text)));
                assert(entries@.map_values(|e: (String, String)| entry_view(e)) =~= old_view.update(i as int, (path@, text@)));
            },
            None => {
                entries.push((String::from_str(path), String::from_str(text)));
                assert(entries@.map_values(|e: (String, String)| entry_view(e)) =~= old_view.push((path@, text@)));
            },
        }
        proof {
            lemma_lookup_stored(old_view, path@, text@, path@);
        }
        self.entries = entries;
    }

    /// Removes the file at a path, if there is one.
    pub fn remove(&mut self, path: &str)
        ensures
            final(self)@ == removed(old(self)@, path@),
            keys_distinct(old(self)@),
            keys_distinct(final(self)@),
    {
        proof {
            use_type_invariant(&*self);
        }
        let ghost old_view = self@;
        let found = self.find(path);
        match found {
            Some(i) => {
                let mut entries: Vec<(String, String)> = Vec::new();
                std::mem::swap(&mut entries, &mut self.entries);
                entries.remove(i);
                assert(entries@.map_values(|e: (String, String)| entry_view(e)) =~= old_view.remove(i as int));
                proof {
                    lemma_lookup_removed(old_view, path@, path@);
                }
                self.entries = entries;
            },
            None => {},
        }
    }
}

impl FileMap {
    /// Removes the files at the given paths.
    pub fn remove_all(&mut self, paths: &Vec<String>)
        ensures
            final(self)@ == without_paths(old(self)@, paths@.map_values(|x: String| x@)),
            keys_distinct(final(self)@),
    {
        proof {
            use_type_invariant(&*self);
        }
        let ghost old_view = self@;
        let ghost pv = paths@.map_values(|x: String| x@);
        let ghost pred = keep_pred(pv);
        let mut entries: Vec<(String, String)> = Vec::new();
        std::mem::swap(&mut entries, &mut self.entries);
        let mut kept: Vec<(String, String)> = Vec::new();
        let mut i: usize = 0;
        assert(old_view.take(0).filter(pred) =~= Seq::<EntryView>::empty()) by {
            reveal(Seq::filter);
        }
        while i < entries.len()
            invariant
                i <= entries@.len(),
                old_view == entries@.map_values(|e: (String, String)| entry_view(e)),
                pv == paths@.map_values(|x: String| x@),
                pred == keep_pred(pv),
                kept@.map_values(|e: (String, String)| entry_view(e)) == old_view.take(i as int).filter(pred),
            decreases entries.len() - i,
        {
            let ghost before = kept@.map_values(|e: (String, String)| entry_view(e));
            proof {
                assert(old_view.take(i + 1) =~= old_view.take(i as int).push(old_view[i as int]));
                old_view.take(i as int).lemma_filter_push(old_view[i as int], pred);
            }
            let mut found = false;
            let mut k: usize = 0;
            while k < paths.len()
                invariant
                    k <= paths@.len(),
                    pv == paths@.map_values(|x: String| x@),
                    found == exists|j: int| 0 <= j < k && pv[j] == entries@[i as int].0@,
                    i < entries@.len(),
                decreases paths.len() - k,
            {
                assert(pv[k as int] == paths@[k as int]@);
                let ghost was = found;
                if paths[k] == entries[i].0 {
                    found = true;
                }
                assert(found == (was || pv[k as int] == entries@[i as int].0@));
                k += 1;
            }
            assert(found == pv.contains(old_view[i as int].0));
            if !found {
                kept.push((entries[i].0.clone(), entries[i].1.clone()));
                assert(kept@.map_values(|e: (String, String)| entry_view(e)) =~= before.push(old_view[i as int]));
            }
            i += 1;
        }
        assert(old_view.take(old_view.len() as int) =~= old_view);
        proof {
            lemma_filter_keys_distinct(old_view, pred);
        }
        self.entries = kept;
    }
}

} // verus!
