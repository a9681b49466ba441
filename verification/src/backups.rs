//! Backups of notes: their names (`{stem}.{kind}.{timestamp}.md`), where a rollback backup
//! lies under the backup directory, and which old backups are pruned so that at most
//! [`MAX_BACKUPS`] of one kind of one note remain.
use vstd::prelude::*;
use crate::text::{
    chars_of, concat2, concat3, ends_with_chars, owned, seq_ends_with, seq_starts_with,
    starts_with_chars, string_of_range, u64_to_decimal, decimal,
};
use crate::paths::{join_path, lemma_segment_start_bounds, path_join, segment_start};
use crate::search::{lemma_title_less_total, lemma_title_less_transitive, title_less, title_precedes};
use crate::filemap::{EntryView, FileMap, keep_pred, keys_distinct, lemma_filter_keys_distinct, without_paths};
use crate::errors::{AppError, AppErrorView};

verus! {

/// How many backups of one kind of one note are kept.
pub const MAX_BACKUPS: usize = 20;

/// Why a backup was made.
#[derive(Debug, Clone, Copy, PartialEq, Eq, Structural)]
pub enum BackupType {
    Rollback,
    SaveFailure,
    Rename,
    Delete,
    ExternalChange,
}

/// The word in the name of a backup that tells its kind.
pub open spec fn backup_suffix(t: BackupType) -> Seq<char> {
    match t {
        BackupType::Rollback => "rollback"@,
        BackupType::SaveFailure => "save_failure"@,
        BackupType::Rename => "rename_backup"@,
        BackupType::Delete => "delete_backup"@,
        BackupType::ExternalChange => "external_change"@,
    }
}

impl BackupType {
    /// The word in the name of a backup that tells its kind.
    pub fn suffix(&self) -> (r: &'static str)
        ensures
            r@ == backup_suffix(*self),
    {
        proof {
            reveal_strlit("rollback");
            reveal_strlit("save_failure");
            reveal_strlit("rename_backup");
            reveal_strlit("delete_backup");
            reveal_strlit("external_change");
        }
        match self {
            BackupType::Rollback => "rollback",
            BackupType::SaveFailure => "save_failure",
            BackupType::Rename => "rename_backup",
            BackupType::Delete => "delete_backup",
            BackupType::ExternalChange => "external_change",
        }
    }
}

/// The position of the last `.` in `f` before `end`, or -1 where there is none.
pub open spec fn last_dot_before(f: Seq<char>, end: int) -> int
    decreases end,
{
    if end <= 0 {
        -1
    } else if f[end - 1] == '.' {
        end - 1
    } else {
        last_dot_before(f, end - 1)
    }
}

/// The stem of a file name, as `Path::file_stem` gives it: the name without its last
/// extension; a name whose only `.` leads it, and `..`, are their own stem.
pub open spec fn file_stem(f: Seq<char>) -> Seq<char> {
    let d = last_dot_before(f, f.len() as int);
    if f == seq!['.', '.'] || d <= 0 {
        f
    } else {
        f.take(d)
    }
}

proof fn lemma_last_dot_bounds(f: Seq<char>, end: int)
    requires
        end <= f.len(),
    ensures
        -1 <= last_dot_before(f, end) < end || (end <= 0 && last_dot_before(f, end) == -1),
        last_dot_before(f, end) >= 0 ==> f[last_dot_before(f, end)] == '.',
    decreases end,
{
    if end > 0 && f[end - 1] != '.' {
        lemma_last_dot_bounds(f, end - 1);
    }
}

/// The stem of a file name, as `Path::file_stem` gives it.
pub fn stem_of(f: &str) -> (r: String)
    ensures
        r@ == file_stem(f@),
{
    let v = chars_of(f);
    let mut end = v.len();
    while end > 0 && v[end - 1] != '.'
        invariant
            end <= v@.len(),
            last_dot_before(f@, f@.len() as int) == last_dot_before(f@, end as int),
            v@ == f@,
        decreases end,
    {
        end -= 1;
    }
    proof {
        lemma_last_dot_bounds(f@, f@.len() as int);
    }
    let is_dotdot = v.len() == 2 && v[0] == '.' && v[1] == '.';
    assert(is_dotdot == (f@ == seq!['.', '.'])) by {
        if v.len() == 2 && v[0] == '.' && v[1] == '.' {
            assert(f@ =~= seq!['.', '.']);
        }
    }
    if is_dotdot || end <= 1 {
        owned(f)
    } else {
        assert(f@.take(end - 1) =~= v@.subrange(0, end - 1));
        string_of_range(&v, 0, end - 1)
    }
}

/// The name of a backup: `{stem}.{kind}.{timestamp}.md`.
pub open spec fn backup_file_name(note_file: Seq<char>, t: BackupType, timestamp: u64) -> Seq<char> {
    file_stem(note_file) + "."@ + backup_suffix(t) + "."@ + decimal(timestamp as nat) + ".md"@
}

/// Names a backup of a note file: `{stem}.{kind}.{timestamp}.md`.
pub fn generate_backup_filename(note_filename: &str, backup_type: &BackupType, timestamp: u64) -> (r: String)
    ensures
        r@ == backup_file_name(note_filename@, *backup_type, timestamp),
{
    let stem = stem_of(note_filename);
    let a = concat3(stem.as_str(), ".", backup_type.suffix());
    let ts = u64_to_decimal(timestamp);
    let b = concat3(a.as_str(), ".", ts.as_str());
    let r = concat2(b.as_str(), ".md");
    proof {
        reveal_strlit(".");
        reveal_strlit(".md");
    }
    r
}

/// The position of the `n`-th `.` of `f` (counting from 0), if it has that many.
pub open spec fn nth_dot(f: Seq<char>, from: int, n: nat) -> Option<int>
    decreases f.len() - from, n,
{
    if from < 0 || from >= f.len() {
        None
    } else if f[from] == '.' {
        if n == 0 {
            Some(from)
        } else {
            nth_dot(f, from + 1, (n - 1) as nat)
        }
    } else {
        nth_dot(f, from + 1, n)
    }
}

/// What the backups that are pruned with a backup have in common: the text of its name up
/// to its second `.`, where the name has at least three.
pub open spec fn prune_prefix(name: Seq<char>) -> Option<Seq<char>> {
    match (nth_dot(name, 0, 1), nth_dot(name, 0, 2)) {
        (Some(d), Some(_)) => Some(name.take(d)),
        _ => None,
    }
}

/// The directory part of a relative path: the text up to and with its last `/`.
pub open spec fn dir_part(p: Seq<char>) -> Seq<char> {
    p.take(segment_start(p))
}

/// The file-name part of a relative path: the text after its last `/`.
pub open spec fn name_part(p: Seq<char>) -> Seq<char> {
    p.skip(segment_start(p))
}

/// A backup is pruned along with the backup at `latest` when it lies in the same
/// directory, its name starts with the common prefix and ends in `.md`, and at least
/// [`MAX_BACKUPS`] such backups have a name that sorts after its own.
pub open spec fn prunable(dir: Seq<char>, prefix: Seq<char>, p: Seq<char>) -> bool {
    dir_part(p) == dir && seq_starts_with(name_part(p), prefix) && seq_ends_with(name_part(p), ".md"@)
}

/// The number of backups like `p` whose name sorts after its own.
pub open spec fn later_count(s: Seq<EntryView>, dir: Seq<char>, prefix: Seq<char>, p: Seq<char>) -> nat {
    s.filter(|e: EntryView| prunable(dir, prefix, e.0) && title_less(name_part(p), name_part(e.0))).len()
}

/// The backup at `p` is removed when the backup at `latest` is pruned.
pub open spec fn pruned_by(s: Seq<EntryView>, latest: Seq<char>, p: Seq<char>) -> bool {
    match prune_prefix(name_part(latest)) {
        Some(prefix) => prunable(dir_part(latest), prefix, p) && later_count(s, dir_part(latest), prefix, p) >= MAX_BACKUPS,
        None => false,
    }
}

/// The paths of the backups that pruning after writing `latest` removes, in directory
/// order.
pub open spec fn pruned_paths(s: Seq<EntryView>, latest: Seq<char>) -> Seq<Seq<char>> {
    s.filter(|e: EntryView| pruned_by(s, latest, e.0)).map_values(|e: EntryView| e.0)
}

/// Splits a relative path into its directory part (up to and with the last `/`) and its
/// file-name part.
pub fn split_dir(p: &str) -> (r: (String, String))
    ensures
        r.0@ == dir_part(p@),
        r.1@ == name_part(p@),
{
    let v = chars_of(p);
    let mut i = v.len();
    assert(v@.take(i as int) =~= v@);
    while i > 0 && v[i - 1] != '/'
        invariant
            i <= v@.len(),
            v@ == p@,
            segment_start(p@) == segment_start(v@.take(i as int)),
        decreases i,
    {
        assert(v@.take(i as int).drop_last() =~= v@.take(i - 1));
        i -= 1;
    }
    proof {
        if i > 0 {
            assert(v@.take(i as int).last() == '/');
        }
    }
    assert(p@.take(i as int) =~= v@.subrange(0, i as int));
    assert(p@.skip(i as int) =~= v@.subrange(i as int, v@.len() as int));
    (string_of_range(&v, 0, i), string_of_range(&v, i, v.len()))
}

pub(crate) fn nth_dot_from(v: &Vec<char>, from: usize, n: u8) -> (r: Option<usize>)
    requires
        from <= v@.len(),
    ensures
        r matches Some(i) ==> nth_dot(v@, from as int, n as nat) == Some(i as int),
        r is None ==> nth_dot(v@, from as int, n as nat) is None,
    decreases v@.len() - from, n,
{
    if from >= v.len() {
        return None;
    }
    if v[from] == '.' {
        if n == 0 {
            Some(from)
        } else {
            nth_dot_from(v, from + 1, n - 1)
        }
    } else {
        nth_dot_from(v, from + 1, n)
    }
}

/// The common prefix of the backups that are pruned together with a backup of this name.
pub fn prune_prefix_of(name: &str) -> (r: Option<String>)
    ensures
        r matches Some(x) ==> prune_prefix(name@) == Some(x@),
        r is None ==> prune_prefix(name@) is None,
{
    let v = chars_of(name);
    match (nth_dot_from(&v, 0, 1), nth_dot_from(&v, 0, 2)) {
        (Some(d), Some(_)) => {
            proof {
                lemma_nth_dot_bound(v@, 0, 1);
            }
            assert(name@.take(d as int) =~= v@.subrange(0, d as int));
            Some(string_of_range(&v, 0, d))
        },
        _ => None,
    }
}

pub(crate) proof fn lemma_nth_dot_bound(f: Seq<char>, from: int, n: nat)
    ensures
        nth_dot(f, from, n) matches Some(i) ==> from <= i < f.len(),
    decreases f.len() - from, n,
{
    if from >= 0 && from < f.len() {
        if f[from] == '.' {
            if n > 0 {
                lemma_nth_dot_bound(f, from + 1, (n - 1) as nat);
            }
        } else {
            lemma_nth_dot_bound(f, from + 1, n);
        }
    }
}

fn is_prunable(dir: &String, prefix: &Vec<char>, p: &str) -> (r: bool)
    ensures
        r == prunable(dir@, prefix@, p@),
{
    let (d, n) = split_dir(p);
    let nv = chars_of(n.as_str());
    let md = chars_of(".md");
    proof {
        reveal_strlit(".md");
    }
    d == *dir && starts_with_chars(&nv, prefix) && ends_with_chars(&nv, &md)
}

/// The backups that are counted as sorting after the backup at `p`.
pub open spec fn later_pred(dir: Seq<char>, prefix: Seq<char>, p: Seq<char>) -> spec_fn(EntryView) -> bool {
    |e: EntryView| prunable(dir, prefix, e.0) && title_less(name_part(p), name_part(e.0))
}

/// The backups that pruning after writing `latest` removes.
pub open spec fn pruned_pred(s: Seq<EntryView>, latest: Seq<char>) -> spec_fn(EntryView) -> bool {
    |e: EntryView| pruned_by(s, latest, e.0)
}

/// Lists the backups that pruning after writing the backup at `latest` removes: those in
/// its directory with its name prefix and the `.md` ending of which at least
/// [`MAX_BACKUPS`] sort after them.
pub fn backups_to_prune(backups: &FileMap, latest: &str) -> (r: Vec<String>)
    ensures
        r@.map_values(|x: String| x@) == pruned_paths(backups@, latest@),
{
    let ghost s = backups@;
    let (dir, name) = split_dir(latest);
    let prefix = prune_prefix_of(name.as_str());
    let mut out: Vec<String> = Vec::new();
    let ghost pred = pruned_pred(s, latest@);
    assert(pruned_paths(s, latest@) == s.filter(pred).map_values(|e: EntryView| e.0));
    let mut i: usize = 0;
    assert(s.take(0) =~= Seq::<EntryView>::empty());
    assert(s.take(0).filter(pred) =~= Seq::<EntryView>::empty()) by {
        reveal(Seq::filter);
    }
    while i < backups.len()
        invariant
            i <= s.len(),
            s == backups@,
            dir@ == dir_part(latest@),
            name@ == name_part(latest@),
            prefix matches Some(x) ==> prune_prefix(name_part(latest@)) == Some(x@),
            prefix is None ==> prune_prefix(name_part(latest@)) is None,
            pred == pruned_pred(s, latest@),
            out@.map_values(|x: String| x@) == s.take(i as int).filter(pred).map_values(|e: EntryView| e.0),
        decreases s.len() - i,
    {
        let p = backups.path_at(i);
        let ghost before = out@.map_values(|x: String| x@);
        proof {
            assert(s.take(i + 1) =~= s.take(i as int).push(s[i as int]));
            s.take(i as int).lemma_filter_push(s[i as int], pred);
        }
        let remove = match &prefix {
            Some(px) => {
                let pv = chars_of(px.as_str());
                if is_prunable(&dir, &pv, p.as_str()) {
                    let (_, pname) = split_dir(p.as_str());
                    let ghost lp = later_pred(dir@, px@, p@);
                    let mut count: usize = 0;
                    let mut j: usize = 0;
                    assert(s.take(0).filter(lp) =~= Seq::<EntryView>::empty()) by {
                        reveal(Seq::filter);
                    }
                    while j < backups.len()
                        invariant
                            j <= s.len(),
                            s == backups@,
                            pname@ == name_part(p@),
                            pv@ == px@,
                            lp == later_pred(dir@, px@, p@),
                            count == s.take(j as int).filter(lp).len(),
                            count <= j,
                        decreases s.len() - j,
                    {
                        let q = backups.path_at(j);
                        proof {
                            assert(s.take(j + 1) =~= s.take(j as int).push(s[j as int]));
                            s.take(j as int).lemma_filter_push(s[j as int], lp);
                        }
                        if is_prunable(&dir, &pv, q.as_str()) {
                            let (_, qname) = split_dir(q.as_str());
                            if title_precedes(pname.as_str(), qname.as_str()) {
                                count += 1;
                            }
                        }
                        j += 1;
                    }
                    assert(s.take(s.len() as int) =~= s);
                    count >= MAX_BACKUPS
                } else {
                    false
                }
            },
            None => false,
        };
        assert(remove == pred(s[i as int]));
        if remove {
            out.push(p.clone());
            assert(out@.map_values(|x: String| x@) =~= before.push(s[i as int].0));
        }
        i += 1;
    }
    assert(s.take(s.len() as int) =~= s);
    out
}

/// The backups of one group: in the directory `dir`, with a name that starts with `prefix`
/// and ends in `.md`.
pub open spec fn group_pred(dir: Seq<char>, prefix: Seq<char>) -> spec_fn(EntryView) -> bool {
    |e: EntryView| prunable(dir, prefix, e.0)
}

/// The entries that pass both tests.
pub open spec fn both_pred(p: spec_fn(EntryView) -> bool, q: spec_fn(EntryView) -> bool) -> spec_fn(EntryView) -> bool {
    |e: EntryView| p(e) && q(e)
}

/// The entries that pass a test, save the one at the path `k`.
pub open spec fn minus_key(p: spec_fn(EntryView) -> bool, k: Seq<char>) -> spec_fn(EntryView) -> bool {
    |e: EntryView| p(e) && e.0 != k
}

/// A relative path is its directory part followed by its file-name part.
proof fn lemma_path_parts(p: Seq<char>)
    ensures
        dir_part(p) + name_part(p) == p,
{
    lemma_segment_start_bounds(p);
    assert(p.take(segment_start(p)) + p.skip(segment_start(p)) =~= p);
}

/// A weaker test lets at least as many entries through.
proof fn lemma_filter_len_mono(s: Seq<EntryView>, p: spec_fn(EntryView) -> bool, q: spec_fn(EntryView) -> bool)
    requires
        forall|i: int| 0 <= i < s.len() && #[trigger] p(s[i]) ==> q(s[i]),
    ensures
        s.filter(p).len() <= s.filter(q).len(),
    decreases s.len(),
{
    reveal(Seq::filter);
    if s.len() > 0 {
        let init = s.drop_last();
        assert forall|i: int| 0 <= i < init.len() && #[trigger] p(init[i]) implies q(init[i]) by {
            assert(init[i] == s[i]);
        }
        lemma_filter_len_mono(init, p, q);
    }
}

/// Filtering twice is filtering once by both tests.
proof fn lemma_filter_filter(s: Seq<EntryView>, p: spec_fn(EntryView) -> bool, q: spec_fn(EntryView) -> bool)
    ensures
        s.filter(p).filter(q) == s.filter(both_pred(p, q)),
    decreases s.len(),
{
    reveal(Seq::filter);
    if s.len() > 0 {
        let init = s.drop_last();
        lemma_filter_filter(init, p, q);
        if p(s.last()) {
            init.filter(p).lemma_filter_push(s.last(), q);
        }
    }
}

/// Where the entry at `k` passes a test, leaving that path out lets exactly one entry fewer
/// through.
proof fn lemma_filter_minus_key(s: Seq<EntryView>, p: spec_fn(EntryView) -> bool, k: Seq<char>, i: int)
    requires
        keys_distinct(s),
        0 <= i < s.len(),
        s[i].0 == k,
        p(s[i]),
    ensures
        s.filter(p).len() == s.filter(minus_key(p, k)).len() + 1,
    decreases s.len(),
{
    reveal(Seq::filter);
    let q = minus_key(p, k);
    let init = s.drop_last();
    assert(keys_distinct(init)) by {
        assert forall|a: int, b: int| 0 <= a < init.len() && 0 <= b < init.len() && a != b implies #[trigger] init[a].0 != #[trigger] init[b].0 by {
            assert(init[a] == s[a] && init[b] == s[b]);
        }
    }
    if i == s.len() - 1 {
        assert forall|j: int| 0 <= j < init.len() && #[trigger] p(init[j]) implies q(init[j]) by {
            assert(init[j] == s[j]);
        }
        assert forall|j: int| 0 <= j < init.len() && #[trigger] q(init[j]) implies p(init[j]) by {}
        lemma_filter_len_mono(init, p, q);
        lemma_filter_len_mono(init, q, p);
    } else {
        assert(init[i] == s[i]);
        lemma_filter_minus_key(init, p, k, i);
        assert(s.last() == s[s.len() - 1]);
    }
}

/// Among entries whose names differ, one has the name that comes first.
proof fn lemma_least_name(t: Seq<EntryView>) -> (m: int)
    requires
        t.len() > 0,
        forall|i: int, j: int| 0 <= i < t.len() && 0 <= j < t.len() && i != j ==> name_part(#[trigger] t[i].0) != name_part(#[trigger] t[j].0),
    ensures
        0 <= m < t.len(),
        forall|j: int| 0 <= j < t.len() && j != m ==> title_less(name_part(t[m].0), name_part(#[trigger] t[j].0)),
    decreases t.len(),
{
    if t.len() == 1 {
        0
    } else {
        let init = t.drop_last();
        assert forall|i: int, j: int| 0 <= i < init.len() && 0 <= j < init.len() && i != j implies name_part(#[trigger] init[i].0) != name_part(#[trigger] init[j].0) by {
            assert(init[i] == t[i] && init[j] == t[j]);
        }
        let k = lemma_least_name(init);
        let last = t.len() - 1;
        assert(init[k] == t[k]);
        lemma_title_less_total(name_part(t[k].0), name_part(t[last].0));
        if title_less(name_part(t[k].0), name_part(t[last].0)) {
            assert forall|j: int| 0 <= j < t.len() && j != k implies title_less(name_part(t[k].0), name_part(#[trigger] t[j].0)) by {
                if j < last {
                    assert(init[j] == t[j]);
                }
            }
            k
        } else {
            assert forall|j: int| 0 <= j < t.len() && j != last implies title_less(name_part(t[last].0), name_part(#[trigger] t[j].0)) by {
                assert(init[j] == t[j]);
                if j != k {
                    lemma_title_less_transitive(name_part(t[last].0), name_part(t[k].0), name_part(t[j].0));
                }
            }
            last
        }
    }
}

/// Pruning after writing a backup leaves at most [`MAX_BACKUPS`] backups of its group (its
/// directory, its name up to the second `.`, the `.md` ending), and removes a backup only
/// where [`MAX_BACKUPS`] backups of the group have a name that sorts after its own.
pub proof fn law_prune_keeps_at_most_max(s: Seq<EntryView>, latest: Seq<char>)
    requires
        keys_distinct(s),
        prune_prefix(name_part(latest)) is Some,
    ensures
        without_paths(s, pruned_paths(s, latest)).filter(
            group_pred(dir_part(latest), prune_prefix(name_part(latest))->0),
        ).len() <= MAX_BACKUPS,
        forall|i: int| 0 <= i < s.len() && pruned_paths(s, latest).contains(#[trigger] s[i].0) ==> {
            &&& prunable(dir_part(latest), prune_prefix(name_part(latest))->0, s[i].0)
            &&& later_count(s, dir_part(latest), prune_prefix(name_part(latest))->0, s[i].0) >= MAX_BACKUPS
        },
{
    let dir = dir_part(latest);
    let prefix = prune_prefix(name_part(latest))->0;
    let gp = group_pred(dir, prefix);
    let pp = pruned_paths(s, latest);
    let kp = keep_pred(pp);
    let both = both_pred(kp, gp);
    let f = s.filter(pruned_pred(s, latest));
    assert(pp == f.map_values(|e: EntryView| e.0));
    assert forall|i: int| 0 <= i < s.len() implies (#[trigger] pp.contains(s[i].0) <==> pruned_by(s, latest, s[i].0)) by {
        if pruned_by(s, latest, s[i].0) {
            s.lemma_filter_contains(pruned_pred(s, latest), i);
            let m = choose|m: int| 0 <= m < f.len() && f[m] == s[i];
            assert(pp[m] == s[i].0);
        }
        if pp.contains(s[i].0) {
            let m = choose|m: int| 0 <= m < pp.len() && pp[m] == s[i].0;
            assert(f.contains(f[m]));
            s.lemma_filter_contains_rev(pruned_pred(s, latest), f[m]);
        }
    }
    lemma_filter_filter(s, kp, gp);
    let t = s.filter(both);
    if t.len() > 0 {
        lemma_filter_keys_distinct(s, both);
        assert forall|i: int, j: int| 0 <= i < t.len() && 0 <= j < t.len() && i != j implies name_part(#[trigger] t[i].0) != name_part(#[trigger] t[j].0) by {
            assert(t.contains(t[i]) && t.contains(t[j]));
            s.lemma_filter_contains_rev(both, t[i]);
            s.lemma_filter_contains_rev(both, t[j]);
            lemma_path_parts(t[i].0);
            lemma_path_parts(t[j].0);
        }
        let m = lemma_least_name(t);
        let least = t[m];
        assert(t.contains(least));
        s.lemma_filter_contains_rev(both, least);
        let i0 = choose|i: int| 0 <= i < s.len() && s[i] == least;
        let lp = later_pred(dir, prefix, least.0);
        assert(later_count(s, dir, prefix, least.0) == s.filter(lp).len()) by {
            assert(lp =~= (|e: EntryView| prunable(dir, prefix, e.0) && title_less(name_part(least.0), name_part(e.0))));
        }
        let q = minus_key(both, least.0);
        assert forall|i: int| 0 <= i < s.len() && #[trigger] q(s[i]) implies lp(s[i]) by {
            s.lemma_filter_contains(both, i);
            let j = choose|j: int| 0 <= j < t.len() && t[j] == s[i];
            assert(j != m);
        }
        lemma_filter_len_mono(s, q, lp);
        lemma_filter_minus_key(s, both, least.0, i0);
    }
}

/// The rule by which a path is matched against the notes directory: the directory's text,
/// without a trailing `/`, followed by the end of the path or a `/`. What follows, without
/// leading slashes, is the note's path within the directory.
pub open spec fn strip_dir_prefix(path: Seq<char>, dir: Seq<char>) -> Option<Seq<char>> {
    let d = if dir.len() > 1 && dir.last() == '/' { dir.drop_last() } else { dir };
    if dir.len() == 0 {
        Some(path)
    } else if path == d {
        Some(Seq::empty())
    } else if seq_starts_with(path, d) && (d.last() == '/' || path[d.len() as int] == '/') {
        Some(trim_leading_slashes(path.skip(d.len() as int)))
    } else {
        None
    }
}

/// The path without its leading slashes.
pub open spec fn trim_leading_slashes(p: Seq<char>) -> Seq<char>
    decreases p.len(),
{
    if p.len() > 0 && p[0] == '/' {
        trim_leading_slashes(p.drop_first())
    } else {
        p
    }
}

/// The message for a note path outside the notes directory.
pub open spec fn outside_message(note_path: Seq<char>, notes_dir: Seq<char>) -> Seq<char> {
    "Note path '"@ + note_path + "' is not within configured notes directory '"@ + notes_dir + "'"@
}

/// Where the backup of a note lies: the note's path within the notes directory, under the
/// backup directory. A note outside the notes directory has none.
pub open spec fn backup_path_spec(note_path: Seq<char>, notes_dir: Seq<char>, backup_dir: Seq<char>) -> Result<Seq<char>, AppErrorView> {
    match strip_dir_prefix(note_path, notes_dir) {
        Some(rel) => Ok(path_join(backup_dir, rel)),
        None => Err(AppErrorView::InvalidPath(outside_message(note_path, notes_dir))),
    }
}

/// The path of `path` within the directory `dir`, where it lies there.
pub fn strip_notes_dir(path: &str, dir: &str) -> (r: Option<String>)
    ensures
        r matches Some(x) ==> strip_dir_prefix(path@, dir@) == Some(x@),
        r is None ==> strip_dir_prefix(path@, dir@) is None,
{
    let p = chars_of(path);
    let dv = chars_of(dir);
    if dv.len() == 0 {
        return Some(owned(path));
    }
    let dlen = if dv.len() > 1 && dv[dv.len() - 1] == '/' { dv.len() - 1 } else { dv.len() };
    let ghost d = if dv@.len() > 1 && dv@.last() == '/' { dv@.drop_last() } else { dv@ };
    assert(d =~= dv@.take(dlen as int));
    let mut k: usize = 0;
    let mut same_prefix = dlen <= p.len();
    while same_prefix && k < dlen
        invariant
            k <= dlen <= dv@.len(),
            same_prefix ==> dlen <= p@.len(),
            same_prefix ==> forall|j: int| 0 <= j < k ==> p@[j] == dv@[j],
            !same_prefix ==> !seq_starts_with(p@, d),
            d == dv@.take(dlen as int),
            p@ == path@,
        decreases dlen - k,
    {
        if p[k] != dv[k] {
            same_prefix = false;
            assert(p@.subrange(0, d.len() as int)[k as int] != d[k as int]);
        }
        k += 1;
    }
    if same_prefix {
        assert(p@.subrange(0, d.len() as int) =~= d);
    }
    if !same_prefix {
        proof {
            if p@ == d {
                assert(seq_starts_with(p@, d)) by {
                    assert(p@.subrange(0, d.len() as int) =~= d);
                }
            }
        }
        return None;
    }
    if p.len() == dlen {
        assert(p@ =~= d);
        return Some(String::new());
    }
    if !(dv[dlen - 1] == '/' || p[dlen] == '/') {
        assert(p@ != d);
        return None;
    }
    let mut start = dlen;
    assert(p@.skip(dlen as int) =~= p@.skip(start as int));
    while start < p.len() && p[start] == '/'
        invariant
            dlen <= start <= p@.len(),
            trim_leading_slashes(p@.skip(dlen as int)) == trim_leading_slashes(p@.skip(start as int)),
        decreases p.len() - start,
    {
        assert(p@.skip(start as int).drop_first() =~= p@.skip(start + 1));
        start += 1;
    }
    assert(p@.skip(start as int) =~= p@.subrange(start as int, p@.len() as int));
    assert(p@ != d);
    Some(string_of_range(&p, start, p.len()))
}

/// Places a note's backup under the backup directory, at the note's path within the notes
/// directory; a note outside the notes directory is refused.
pub fn safe_backup_path(note_path: &str, notes_dir: &str, backup_dir: &str) -> (r: Result<String, AppError>)
    ensures
        r matches Ok(x) ==> backup_path_spec(note_path@, notes_dir@, backup_dir@) == Ok::<Seq<char>, AppErrorView>(x@),
        r matches Err(e) ==> backup_path_spec(note_path@, notes_dir@, backup_dir@) == Err::<Seq<char>, AppErrorView>(e@),
{
    match strip_notes_dir(note_path, notes_dir) {
        Some(rel) => Ok(join_path(backup_dir, rel.as_str())),
        None => {
            let outside = concat3("Note path '", note_path, "' is not within configured notes directory '");
            proof {
                reveal_strlit("Note path '");
                reveal_strlit("' is not within configured notes directory '");
                reveal_strlit("'");
            }
            Err(AppError::InvalidPath(concat3(outside.as_str(), notes_dir, "'")))
        },
    }
}

/// A valid note name, joined to the notes directory, lies within it, at the name itself:
/// validation keeps notes inside the notes directory.
pub proof fn law_valid_name_within_dir(dir: Seq<char>, name: Seq<char>)
    requires
        crate::validation::note_name_check(name) is Ok,
    ensures
        strip_dir_prefix(path_join(dir, name), dir) == Some(name),
{
    assert(name.len() > 0) by {
        if name.len() == 0 {
            assert(crate::text::is_blank(name));
        }
    }
    assert(name[0] != '/');
    assert(trim_leading_slashes(name) == name);
    let p = path_join(dir, name);
    if dir.len() == 0 {
    } else {
        let d = if dir.len() > 1 && dir.last() == '/' { dir.drop_last() } else { dir };
        if dir.last() == '/' {
            assert(p == dir + name);
            if dir.len() > 1 {
                assert(dir == d.push('/'));
                assert(p.skip(d.len() as int) =~= seq!['/'] + name);
                assert(seq_starts_with(p, d)) by {
                    assert(p.subrange(0, d.len() as int) =~= d);
                }
                assert((seq!['/'] + name).drop_first() =~= name);
                assert(p != d);
            } else {
                assert(p.skip(d.len() as int) =~= name);
                assert(seq_starts_with(p, d)) by {
                    assert(p.subrange(0, d.len() as int) =~= d);
                }
                assert(p != d);
            }
        } else {
            reveal_strlit("/");
            assert(p == dir + "/"@ + name);
            assert(p.skip(d.len() as int) =~= seq!['/'] + name);
            assert(seq_starts_with(p, d)) by {
                assert(p.subrange(0, d.len() as int) =~= d);
            }
            assert((seq!['/'] + name).drop_first() =~= name);
            assert(p[d.len() as int] == '/');
            assert(p != d);
        }
    }
}

} // verus!
