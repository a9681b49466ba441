//! The decisions of the notes-directory watcher: which file events concern notes, and the
//! debouncing that lets one event per path through within the debounce period. Times are
//! milliseconds on a monotonic clock that the caller reads.
use vstd::prelude::*;
use crate::text::{chars_of, chars_equal, string_of_range};
use crate::paths::{file_name, file_name_of};
use crate::backups::last_dot_before;

verus! {

/// The extension of a file name, as `Path::extension` gives it: the text after its last
/// `.`, where that `.` is not the first character; `..` has none.
pub open spec fn extension_of(name: Seq<char>) -> Option<Seq<char>> {
    let d = last_dot_before(name, name.len() as int);
    if name == seq!['.', '.'] || d <= 0 {
        None
    } else {
        Some(name.skip(d + 1))
    }
}

/// The path names a note file: its extension is `md`, `txt` or `markdown`.
pub open spec fn is_note_path(path: Seq<char>) -> bool {
    match file_name_of(path) {
        Some(name) => match extension_of(name) {
            Some(e) => e == "md"@ || e == "txt"@ || e == "markdown"@,
            None => false,
        },
        None => false,
    }
}

proof fn lemma_last_dot(f: Seq<char>, end: int)
    requires
        0 <= end <= f.len(),
    ensures
        last_dot_before(f, end) < end,
        last_dot_before(f, end) >= -1,
        forall|i: int| last_dot_before(f, end) < i < end ==> f[i] != '.',
    decreases end,
{
    if end > 0 && f[end - 1] != '.' {
        lemma_last_dot(f, end - 1);
    }
}

/// The extension of a path, as `Path::extension` gives it.
pub open spec fn path_extension(path: Seq<char>) -> Option<Seq<char>> {
    match file_name_of(path) {
        Some(name) => extension_of(name),
        None => None,
    }
}

/// The extension of a path, as `Path::extension` gives it.
pub fn extension(path: &str) -> (r: Option<String>)
    ensures
        r matches Some(e) ==> path_extension(path@) == Some(e@),
        r is None ==> path_extension(path@) is None,
{
    let name = match file_name(path) {
        Some(n) => n,
        None => return None,
    };
    let v = chars_of(name.as_str());
    let mut end = v.len();
    while end > 0 && v[end - 1] != '.'
        invariant
            end <= v@.len(),
            v@ == name@,
            last_dot_before(name@, name@.len() as int) == last_dot_before(name@, end as int),
        decreases end,
    {
        end -= 1;
    }
    proof {
        lemma_last_dot(name@, name@.len() as int);
    }
    let is_dotdot = v.len() == 2 && v[0] == '.' && v[1] == '.';
    assert(is_dotdot == (name@ == seq!['.', '.'])) by {
        if v.len() == 2 && v[0] == '.' && v[1] == '.' {
            assert(name@ =~= seq!['.', '.']);
        }
    }
    if is_dotdot || end <= 1 {
        return None;
    }
    assert(name@.skip(end as int) =~= v@.subrange(end as int, v@.len() as int));
    Some(string_of_range(&v, end, v.len()))
}

/// Tests whether a path names a note file (`.md`, `.txt` or `.markdown`).
pub fn is_note_file(path: &str) -> (r: bool)
    ensures
        r == is_note_path(path@),
{
    match extension(path) {
        None => false,
        Some(e) => {
            let ext = chars_of(e.as_str());
            let md = chars_of("md");
            let txt = chars_of("txt");
            let markdown = chars_of("markdown");
            proof {
                reveal_strlit("md");
                reveal_strlit("txt");
                reveal_strlit("markdown");
            }
            chars_equal(&ext, &md) || chars_equal(&ext, &txt) || chars_equal(&ext, &markdown)
        },
    }
}

/// Some path of the event names a note file.
pub open spec fn involves_notes_spec(paths: Seq<Seq<char>>) -> bool {
    exists|i: int| 0 <= i < paths.len() && is_note_path(#[trigger] paths[i])
}

/// Tests whether some path of a file event names a note file.
pub fn involves_notes(paths: &Vec<String>) -> (r: bool)
    ensures
        r == involves_notes_spec(paths@.map_values(|p: String| p@)),
{
    let ghost pv = paths@.map_values(|p: String| p@);
    let mut i: usize = 0;
    while i < paths.len()
        invariant
            i <= paths@.len(),
            pv == paths@.map_values(|p: String| p@),
            forall|j: int| 0 <= j < i ==> !is_note_path(#[trigger] pv[j]),
        decreases paths.len() - i,
    {
        assert(pv[i as int] == paths@[i as int]@);
        if is_note_file(paths[i].as_str()) {
            return true;
        }
        i += 1;
    }
    false
}

/// The time since `last`, or zero where the clock reads earlier.
pub open spec fn elapsed(now: u64, last: u64) -> int {
    if now >= last { now - last } else { 0 }
}

/// Where the first entry for a path lies.
pub open spec fn first_entry(s: Seq<(Seq<char>, u64)>, p: Seq<char>, from: int) -> Option<int>
    decreases s.len() - from,
{
    if from < 0 || from >= s.len() {
        None
    } else if s[from].0 == p {
        Some(from)
    } else {
        first_entry(s, p, from + 1)
    }
}

/// What a debounced event for a path does: within the period of the last event for it, it
/// is dropped; otherwise it passes and its time is noted.
pub open spec fn debounce_step(s: Seq<(Seq<char>, u64)>, period: u64, p: Seq<char>, now: u64) -> (Seq<(Seq<char>, u64)>, bool) {
    match first_entry(s, p, 0) {
        Some(i) => if elapsed(now, s[i].1) < period {
            (s, false)
        } else {
            (s.update(i, (p, now)), true)
        },
        None => (s.push((p, now)), true),
    }
}

/// The paths of an event are tried in turn until one passes.
pub open spec fn debounce_any(s: Seq<(Seq<char>, u64)>, period: u64, paths: Seq<Seq<char>>, now: u64) -> (Seq<(Seq<char>, u64)>, bool)
    decreases paths.len(),
{
    if paths.len() == 0 {
        (s, false)
    } else {
        let (s2, passed) = debounce_step(s, period, paths[0], now);
        if passed {
            (s2, true)
        } else {
            debounce_any(s2, period, paths.drop_first(), now)
        }
    }
}

/// Events are remembered for ten debounce periods.
pub open spec fn keep_recent(period: u64, now: u64) -> spec_fn((Seq<char>, u64)) -> bool {
    |e: (Seq<char>, u64)| elapsed(now, e.1) < 10 * period
}

/// Lets one file event per path through within a debounce period.
pub struct Debouncer {
    pub pending: Vec<(String, u64)>,
    pub debounce_ms: u64,
    pub counter: u32,
}

/// The value of a pending entry.
pub open spec fn pending_view(e: (String, u64)) -> (Seq<char>, u64) {
    (e.0@, e.1)
}

impl Debouncer {
    /// The times noted for paths.
    pub open spec fn entries(&self) -> Seq<(Seq<char>, u64)> {
        self.pending@.map_values(|e: (String, u64)| pending_view(e))
    }

    /// A debouncer with the given period and nothing noted.
    pub fn new(debounce_ms: u64) -> (r: Debouncer)
        ensures
            r.entries() == Seq::<(Seq<char>, u64)>::empty(),
            r.debounce_ms == debounce_ms,
            r.counter == 0,
    {
        let r = Debouncer { pending: Vec::new(), debounce_ms, counter: 0 };
        assert(r.entries() =~= Seq::<(Seq<char>, u64)>::empty());
        r
    }

    /// Decides whether an event for a path passes, noting its time when it does.
    pub fn should_process_event(&mut self, path: &str, now: u64) -> (r: bool)
        ensures
            (final(self).entries(), r) == debounce_step(old(self).entries(), old(self).debounce_ms, path@, now),
            final(self).debounce_ms == old(self).debounce_ms,
            final(self).counter == old(self).counter,
    {
        let ghost s = self.entries();
        let key = String::from_str(path);
        let mut i: usize = 0;
        while i < self.pending.len()
            invariant
                i <= self.pending@.len(),
                s == self.entries(),
                key@ == path@,
                self.debounce_ms == old(self).debounce_ms,
                self.counter == old(self).counter,
                s == old(self).entries(),
                first_entry(s, path@, 0) == first_entry(s, path@, i as int),
            decreases self.pending.len() - i,
        {
            assert(s[i as int] == pending_view(self.pending@[i as int]));
            if self.pending[i].0 == key {
                assert(first_entry(s, path@, i as int) == Some(i as int));
                let last = self.pending[i].1;
                let age: u64 = if now >= last { now - last } else { 0 };
                if age < self.debounce_ms {
                    return false;
                }
                self.pending.set(i, (key, now));
                assert(self.entries() =~= s.update(i as int, (path@, now)));
                return true;
            }
            i += 1;
        }
        assert(first_entry(s, path@, i as int) is None);
        self.pending.push((key, now));
        assert(self.entries() =~= s.push((path@, now)));
        true
    }

    /// Tries the paths of an event in turn until one passes; tells whether one did.
    pub fn should_process_any(&mut self, paths: &Vec<String>, now: u64) -> (r: bool)
        ensures
            (final(self).entries(), r) == debounce_any(
                old(self).entries(),
                old(self).debounce_ms,
                paths@.map_values(|p: String| p@),
                now,
            ),
            final(self).debounce_ms == old(self).debounce_ms,
            final(self).counter == old(self).counter,
    {
        let ghost pv = paths@.map_values(|p: String| p@);
        let ghost goal = debounce_any(self.entries(), self.debounce_ms, pv, now);
        let mut i: usize = 0;
        assert(pv.skip(0) =~= pv);
        while i < paths.len()
            invariant
                i <= paths@.len(),
                pv == paths@.map_values(|p: String| p@),
                goal == debounce_any(self.entries(), self.debounce_ms, pv.skip(i as int), now),
                goal == debounce_any(old(self).entries(), old(self).debounce_ms, pv, now),
                self.debounce_ms == old(self).debounce_ms,
                self.counter == old(self).counter,
            decreases paths.len() - i,
        {
            assert(pv.skip(i as int)[0] == paths@[i as int]@);
            assert(pv.skip(i as int).drop_first() =~= pv.skip(i + 1));
            if self.should_process_event(paths[i].as_str(), now) {
                return true;
            }
            i += 1;
        }
        assert(pv.skip(i as int) =~= Seq::<Seq<char>>::empty());
        false
    }

    /// Forgets the events older than ten debounce periods.
    pub fn cleanup_old_events(&mut self, now: u64)
        ensures
            final(self).entries() == old(self).entries().filter(keep_recent(old(self).debounce_ms, now)),
            final(self).debounce_ms == old(self).debounce_ms,
            final(self).counter == old(self).counter,
    {
        let ghost s = self.entries();
        let ghost pred = keep_recent(self.debounce_ms, now);
        let mut kept: Vec<(String, u64)> = Vec::new();
        let limit: u128 = 10 * (self.debounce_ms as u128);
        let mut i: usize = 0;
        assert(s.take(0).filter(pred) =~= Seq::<(Seq<char>, u64)>::empty()) by {
            reveal(Seq::filter);
        }
        while i < self.pending.len()
            invariant
                i <= self.pending@.len(),
                s == self.entries(),
                pred == keep_recent(self.debounce_ms, now),
                limit == 10 * self.debounce_ms,
                kept@.map_values(|e: (String, u64)| pending_view(e)) == s.take(i as int).filter(pred),
            decreases self.pending.len() - i,
        {
            let ghost before = kept@.map_values(|e: (String, u64)| pending_view(e));
            proof {
                assert(s.take(i + 1) =~= s.take(i as int).push(s[i as int]));
                s.take(i as int).lemma_filter_push(s[i as int], pred);
            }
            assert(s[i as int] == pending_view(self.pending@[i as int]));
            let last = self.pending[i].1;
            let age: u64 = if now >= last { now - last } else { 0 };
            if (age as u128) < limit {
                kept.push((self.pending[i].0.clone(), last));
                assert(kept@.map_values(|e: (String, u64)| pending_view(e)) =~= before.push(s[i as int]));
            }
            i += 1;
        }
        assert(s.take(s.len() as int) =~= s);
        self.pending = kept;
    }

    /// Counts an event; every hundred-and-first one forgets old events and starts the count
    /// again.
    pub fn note_event(&mut self, now: u64)
        ensures
            old(self).counter >= 100 ==> final(self).counter == 0 && final(self).entries()
                == old(self).entries().filter(keep_recent(old(self).debounce_ms, now)),
            old(self).counter < 100 ==> final(self).counter == old(self).counter + 1
                && final(self).entries() == old(self).entries(),
            final(self).debounce_ms == old(self).debounce_ms,
    {
        if self.counter >= 100 {
            self.cleanup_old_events(now);
            self.counter = 0;
        } else {
            self.counter = self.counter + 1;
        }
    }
}

proof fn lemma_first_entry_update(s: Seq<(Seq<char>, u64)>, p: Seq<char>, from: int, i: int, t: u64)
    requires
        0 <= from <= i < s.len(),
        first_entry(s, p, from) == Some(i),
    ensures
        first_entry(s.update(i, (p, t)), p, from) == Some(i),
    decreases i - from,
{
    if from < i {
        lemma_first_entry_update(s, p, from + 1, i, t);
    }
}

proof fn lemma_first_entry_push(s: Seq<(Seq<char>, u64)>, p: Seq<char>, from: int, t: u64)
    requires
        0 <= from <= s.len(),
        first_entry(s, p, from) is None,
    ensures
        first_entry(s.push((p, t)), p, from) == Some(s.len() as int),
    decreases s.len() - from,
{
    if from < s.len() {
        lemma_first_entry_push(s, p, from + 1, t);
    }
}

proof fn lemma_first_entry_bound(s: Seq<(Seq<char>, u64)>, p: Seq<char>, from: int)
    ensures
        first_entry(s, p, from) matches Some(i) ==> from <= i < s.len() && s[i].0 == p,
    decreases s.len() - from,
{
    if 0 <= from < s.len() && s[from].0 != p {
        lemma_first_entry_bound(s, p, from + 1);
    }
}

/// Once an event for a path has passed, another event for the same path within the
/// debounce period is dropped.
pub proof fn law_debounce_drops_repeat(s: Seq<(Seq<char>, u64)>, period: u64, p: Seq<char>, now: u64, later: u64)
    requires
        debounce_step(s, period, p, now).1,
        now <= later,
        later - now < period,
    ensures
        !debounce_step(debounce_step(s, period, p, now).0, period, p, later).1,
{
    lemma_first_entry_bound(s, p, 0);
    match first_entry(s, p, 0) {
        Some(i) => {
            lemma_first_entry_update(s, p, 0, i, now);
        },
        None => {
            lemma_first_entry_push(s, p, 0, now);
        },
    }
}

} // verus!
