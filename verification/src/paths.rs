//! Where the application keeps its files: the data directory, the default notes directory,
//! the configuration file, and the database, backup and temporary directories that belong
//! to a notes directory.
use vstd::prelude::*;
use crate::errors::{AppError, AppErrorView};
use crate::text::{chars_of, concat2, concat3, digit_char, is_alphanumeric_char, owned, push_char, string_of_range, unicode_alphanumeric};

verus! {

/// The operating systems whose conventions decide the data directory.
#[derive(Debug, Clone, Copy, PartialEq, Eq, Structural)]
pub enum Platform {
    MacOs,
    Windows,
    Linux,
    Other,
}

/// The text an optional string slice holds.
pub open spec fn opt_view(o: Option<&str>) -> Option<Seq<char>> {
    match o {
        Some(s) => Some(s@),
        None => None,
    }
}

/// `PathBuf::join` on Unix: an absolute `seg` replaces `base`; otherwise `seg` is appended,
/// with a `/` between them unless `base` is empty or already ends in one.
pub open spec fn path_join(base: Seq<char>, seg: Seq<char>) -> Seq<char> {
    if seg.len() > 0 && seg[0] == '/' {
        seg
    } else if base.len() == 0 || base.last() == '/' {
        base + seg
    } else {
        base + "/"@ + seg
    }
}

/// Joins a path and a segment, as `PathBuf::join` does on Unix.
pub fn join_path(base: &str, seg: &str) -> (r: String)
    ensures
        r@ == path_join(base@, seg@),
{
    let b = chars_of(base);
    let s = chars_of(seg);
    if s.len() > 0 && s[0] == '/' {
        owned(seg)
    } else if b.len() == 0 || b[b.len() - 1] == '/' {
        concat2(base, seg)
    } else {
        concat3(base, "/", seg)
    }
}

/// Where the text of the last component of `p` starts: just after its last `/`.
pub open spec fn segment_start(p: Seq<char>) -> int
    decreases p.len(),
{
    if p.len() == 0 {
        0
    } else if p.last() == '/' {
        p.len() as int
    } else {
        segment_start(p.drop_last())
    }
}

/// The final component of a path when it is a name, as `Path::file_name` gives it on
/// Unix: trailing slashes and `.` components are skipped; a path that ends in `..`, is a
/// root or is empty has none.
pub open spec fn file_name_of(p: Seq<char>) -> Option<Seq<char>>
    decreases p.len(),
{
    if p.len() == 0 {
        None
    } else if p.last() == '/' {
        file_name_of(p.drop_last())
    } else {
        let start = segment_start(p);
        let seg = p.subrange(start, p.len() as int);
        if seg == seq!['.'] {
            if start <= 0 {
                None
            } else {
                proof {
                    lemma_segment_start_bounds(p);
                }
                file_name_of(p.subrange(0, start))
            }
        } else if seg == seq!['.', '.'] {
            None
        } else {
            Some(seg)
        }
    }
}

/// Where the last component of a path starts lies within it, just after a `/`.
pub proof fn lemma_segment_start_bounds(p: Seq<char>)
    ensures
        0 <= segment_start(p) <= p.len(),
        segment_start(p) > 0 ==> p[segment_start(p) - 1] == '/',
        forall|i: int| segment_start(p) <= i < p.len() ==> p[i] != '/',
    decreases p.len(),
{
    if p.len() > 0 && p.last() != '/' {
        lemma_segment_start_bounds(p.drop_last());
        assert forall|i: int| segment_start(p) <= i < p.len() implies p[i] != '/' by {
            if i < p.len() - 1 {
                assert(p.drop_last()[i] == p[i]);
            }
        }
    }
}

fn find_segment_start(v: &Vec<char>, end: usize) -> (r: usize)
    requires
        end <= v.len(),
    ensures
        r as int == segment_start(v@.take(end as int)),
        r <= end,
{
    let mut i = end;
    while i > 0 && v[i - 1] != '/'
        invariant
            i <= end <= v.len(),
            segment_start(v@.take(end as int)) == segment_start(v@.take(i as int)),
        decreases i,
    {
        assert(v@.take(i as int).drop_last() =~= v@.take(i - 1));
        i -= 1;
    }
    proof {
        if i > 0 {
            assert(v@.take(i as int).last() == '/');
        }
    }
    i
}

/// The final component of a path, as `Path::file_name` gives it on Unix.
pub fn file_name(path: &str) -> (r: Option<String>)
    ensures
        r matches Some(s) ==> file_name_of(path@) == Some(s@),
        r is None ==> file_name_of(path@) is None,
{
    let v = chars_of(path);
    let mut end = v.len();
    assert(v@.take(end as int) =~= path@);
    loop
        invariant
            end <= v.len(),
            file_name_of(path@) == file_name_of(v@.take(end as int)),
        decreases end,
    {
        if end == 0 {
            return None;
        }
        if v[end - 1] == '/' {
            assert(v@.take(end as int).drop_last() =~= v@.take(end - 1));
            end -= 1;
        } else {
            let start = find_segment_start(&v, end);
            let ghost p = v@.take(end as int);
            assert(p.subrange(start as int, p.len() as int) =~= v@.subrange(start as int, end as int));
            if end - start == 1 && v[start] == '.' {
                assert(v@.subrange(start as int, end as int) =~= seq!['.']);
                if start == 0 {
                    return None;
                }
                assert(p.subrange(0, start as int) =~= v@.take(start as int));
                end = start;
            } else if end - start == 2 && v[start] == '.' && v[start + 1] == '.' {
                assert(v@.subrange(start as int, end as int) =~= seq!['.', '.']);
                return None;
            } else {
                proof {
                    if v@.subrange(start as int, end as int) == seq!['.'] {
                        assert(v@.subrange(start as int, end as int)[0] == v@[start as int]);
                    }
                    if v@.subrange(start as int, end as int) == seq!['.', '.'] {
                        assert(v@.subrange(start as int, end as int)[1] == v@[start + 1]);
                    }
                }
                return Some(string_of_range(&v, start, end));
            }
        }
    }
}

/// The character kept in a directory's friendly name: letters, digits and `-` stay, all
/// else becomes `_`.
pub open spec fn friendly_char(c: char) -> char {
    if unicode_alphanumeric(c) || c == '-' {
        c
    } else {
        '_'
    }
}

/// The friendly name of a notes directory: its final component with [`friendly_char`]
/// applied, or `notes` where it has none.
pub open spec fn friendly_name(notes_dir: Seq<char>) -> Seq<char> {
    let base = match file_name_of(notes_dir) {
        Some(n) => n,
        None => "notes"@,
    };
    base.map_values(|c: char| friendly_char(c))
}

/// The 64-bit hash that `std::collections::hash_map::DefaultHasher`, created with `new`,
/// gives a text.
pub uninterp spec fn default_hash_of_text(s: Seq<char>) -> u64;

/// Hashes a text with a fresh `DefaultHasher` (`Hash::hash` on the `str`, then `finish`).
/// Hashers made by `DefaultHasher::new` all give the same result for the same input.
#[verifier::external_body]
fn hash_text(s: &str) -> (r: u64)
    ensures
        r == default_hash_of_text(s@),
{
    let mut hasher = std::collections::hash_map::DefaultHasher::new();
    std::hash::Hash::hash(s, &mut hasher);
    std::hash::Hasher::finish(&hasher)
}

/// The lower-case hexadecimal digit for `d`.
pub open spec fn hex_char(d: nat) -> char {
    if d < 10 { digit_char(d) }
    else if d == 10 { 'a' }
    else if d == 11 { 'b' }
    else if d == 12 { 'c' }
    else if d == 13 { 'd' }
    else if d == 14 { 'e' }
    else { 'f' }
}

/// `n` in six lower-case hexadecimal digits with leading zeros, as `format!("{:06x}", n)`
/// writes any `n` below 2^24.
pub open spec fn hex6(n: nat) -> Seq<char> {
    seq![
        hex_char((n / 1048576) % 16),
        hex_char((n / 65536) % 16),
        hex_char((n / 4096) % 16),
        hex_char((n / 256) % 16),
        hex_char((n / 16) % 16),
        hex_char(n % 16),
    ]
}

fn hex_digit(d: u64) -> (c: char)
    requires
        d < 16,
    ensures
        c == hex_char(d as nat),
{
    if d == 0 { '0' }
    else if d == 1 { '1' }
    else if d == 2 { '2' }
    else if d == 3 { '3' }
    else if d == 4 { '4' }
    else if d == 5 { '5' }
    else if d == 6 { '6' }
    else if d == 7 { '7' }
    else if d == 8 { '8' }
    else if d == 9 { '9' }
    else if d == 10 { 'a' }
    else if d == 11 { 'b' }
    else if d == 12 { 'c' }
    else if d == 13 { 'd' }
    else if d == 14 { 'e' }
    else { 'f' }
}

/// The name under which a notes directory's database and backups are kept: its friendly
/// name, a dash, and the low 24 bits of the hash of its full path in hexadecimal.
pub open spec fn backup_key(notes_dir: Seq<char>) -> Seq<char> {
    friendly_name(notes_dir) + "-"@ + hex6((default_hash_of_text(notes_dir) & 0xFFFFFFu64) as nat)
}

/// Encodes a notes directory as the name of the directory that holds its database and
/// backups, so that different notes directories never share one.
pub fn encode_path_for_backup(notes_dir: &str) -> (r: String)
    ensures
        r@ == backup_key(notes_dir@),
{
    let base = match file_name(notes_dir) {
        Some(n) => n,
        None => owned("notes"),
    };
    let ghost base_view = match file_name_of(notes_dir@) {
        Some(n) => n,
        None => "notes"@,
    };
    let chars = chars_of(base.as_str());
    let mut out = String::new();
    let mut i: usize = 0;
    while i < chars.len()
        invariant
            i <= chars.len(),
            chars@ == base_view,
            out@ == chars@.take(i as int).map_values(|c: char| friendly_char(c)),
        decreases chars.len() - i,
    {
        let c = chars[i];
        let keep = is_alphanumeric_char(c) || c == '-';
        if keep {
            push_char(&mut out, c);
        } else {
            push_char(&mut out, '_');
        }
        assert(chars@.take(i + 1).map_values(|c: char| friendly_char(c)) =~= chars@.take(
            i as int,
        ).map_values(|c: char| friendly_char(c)).push(friendly_char(c)));
        i += 1;
    }
    assert(chars@.take(chars@.len() as int) =~= chars@);
    out.append("-");
    let h = hash_text(notes_dir);
    let short = h & 0xFFFFFF;
    assert(short <= 0xFFFFFF) by (bit_vector)
        requires
            short == h & 0xFFFFFF,
    ;
    push_char(&mut out, hex_digit((short / 1048576) % 16));
    push_char(&mut out, hex_digit((short / 65536) % 16));
    push_char(&mut out, hex_digit((short / 4096) % 16));
    push_char(&mut out, hex_digit((short / 256) % 16));
    push_char(&mut out, hex_digit((short / 16) % 16));
    push_char(&mut out, hex_digit(short % 16));
    assert(out@ =~= friendly_name(notes_dir@) + "-"@ + hex6(short as nat));
    out
}

/// The user's home directory, as `home::home_dir` finds it, as text.
#[verifier::external_body]
fn home_dir_text() -> (r: Option<String>) {
    match home::home_dir() {
        Some(p) => Some(p.to_string_lossy().into_owned()),
        None => None,
    }
}

/// Where a platform keeps application data, given the home directory and, on Windows, the
/// `APPDATA` variable.
pub open spec fn data_dir_spec(home: Option<Seq<char>>, platform: Platform, appdata: Option<Seq<char>>) -> Option<Seq<char>> {
    match home {
        None => None,
        Some(h) => match platform {
            Platform::MacOs => Some(path_join(path_join(h, "Library"@), "Application Support"@)),
            Platform::Windows => appdata,
            _ => Some(path_join(path_join(h, ".local"@), "share"@)),
        },
    }
}

/// Where a platform keeps application data, given the home directory and, on Windows, the
/// `APPDATA` variable.
pub fn data_dir_for(home: Option<&str>, platform: Platform, appdata: Option<&str>) -> (r: Option<String>)
    ensures
        r matches Some(d) ==> data_dir_spec(opt_view(home), platform, opt_view(appdata)) == Some(d@),
        r is None ==> data_dir_spec(opt_view(home), platform, opt_view(appdata)) is None,
{
    match home {
        None => None,
        Some(h) => match platform {
            Platform::MacOs => {
                let lib = join_path(h, "Library");
                Some(join_path(lib.as_str(), "Application Support"))
            },
            Platform::Windows => match appdata {
                Some(a) => Some(owned(a)),
                None => None,
            },
            _ => {
                let local = join_path(h, ".local");
                Some(join_path(local.as_str(), "share"))
            },
        },
    }
}

/// A segment between slashes that names something: not empty and not `.`.
pub open spec fn named_segment(seg: Seq<char>) -> bool {
    seg.len() > 0 && seg != seq!['.']
}

/// The segments scanned so far: those completed by a `/` that name something, and the
/// segment still open at the end.
pub open spec fn scan_segments(s: Seq<char>) -> (Seq<Seq<char>>, Seq<char>)
    decreases s.len(),
{
    if s.len() == 0 {
        (Seq::empty(), Seq::empty())
    } else {
        let (done, cur) = scan_segments(s.drop_last());
        if s.last() == '/' {
            (if named_segment(cur) { done.push(cur) } else { done }, Seq::empty())
        } else {
            (done, cur.push(s.last()))
        }
    }
}

/// The named segments of a path, in order: repeated slashes, a trailing slash and `.`
/// segments leave nothing.
pub open spec fn normal_segments(s: Seq<char>) -> Seq<Seq<char>> {
    let (done, cur) = scan_segments(s);
    if named_segment(cur) { done.push(cur) } else { done }
}

/// The components of a Unix path as `Path::components` gives them: a root (written `/`)
/// where the path starts with a slash, a leading `.` where a relative path starts with
/// one, then the named segments.
pub open spec fn path_components(p: Seq<char>) -> Seq<Seq<char>> {
    if p.len() > 0 && p[0] == '/' {
        seq![seq!['/']] + normal_segments(p)
    } else if (p.len() == 1 && p[0] == '.') || (p.len() >= 2 && p[0] == '.' && p[1] == '/') {
        seq![seq!['.']] + normal_segments(p)
    } else {
        normal_segments(p)
    }
}

fn named_chars(cur: &Vec<char>) -> (r: bool)
    ensures
        r == named_segment(cur@),
{
    let dot = cur.len() == 1 && cur[0] == '.';
    proof {
        if cur@ == seq!['.'] {
            assert(cur@[0] == '.');
        }
        if dot {
            assert(cur@ =~= seq!['.']);
        }
    }
    cur.len() > 0 && !dot
}

fn segments_of(p: &Vec<char>) -> (r: Vec<String>)
    ensures
        r@.map_values(|s: String| s@) == normal_segments(p@),
{
    let mut done: Vec<String> = Vec::new();
    let mut cur: Vec<char> = Vec::new();
    let mut i: usize = 0;
    assert(p@.take(0) =~= Seq::<char>::empty());
    while i < p.len()
        invariant
            i <= p@.len(),
            scan_segments(p@.take(i as int)) == (done@.map_values(|s: String| s@), cur@),
        decreases p.len() - i,
    {
        assert(p@.take(i + 1).drop_last() =~= p@.take(i as int));
        assert(p@.take(i + 1).last() == p@[i as int]);
        let ghost before = done@.map_values(|s: String| s@);
        if p[i] == '/' {
            if named_chars(&cur) {
                let seg = string_of_range(&cur, 0, cur.len());
                assert(cur@.subrange(0, cur@.len() as int) =~= cur@);
                done.push(seg);
                assert(done@.map_values(|s: String| s@) =~= before.push(cur@));
            }
            cur = Vec::new();
            assert(cur@ =~= Seq::<char>::empty());
        } else {
            cur.push(p[i]);
        }
        i += 1;
    }
    assert(p@.take(p@.len() as int) =~= p@);
    let ghost before = done@.map_values(|s: String| s@);
    if named_chars(&cur) {
        let seg = string_of_range(&cur, 0, cur.len());
        assert(cur@.subrange(0, cur@.len() as int) =~= cur@);
        done.push(seg);
        assert(done@.map_values(|s: String| s@) =~= before.push(cur@));
    }
    done
}

fn same_segments(a: &Vec<String>, b: &Vec<String>) -> (r: bool)
    ensures
        r == (a@.map_values(|s: String| s@) == b@.map_values(|s: String| s@)),
{
    let ghost av = a@.map_values(|s: String| s@);
    let ghost bv = b@.map_values(|s: String| s@);
    if a.len() != b.len() {
        assert(av.len() != bv.len());
        return false;
    }
    let mut i: usize = 0;
    while i < a.len()
        invariant
            i <= a@.len(),
            a@.len() == b@.len(),
            av == a@.map_values(|s: String| s@),
            bv == b@.map_values(|s: String| s@),
            forall|j: int| 0 <= j < i ==> av[j] == bv[j],
        decreases a.len() - i,
    {
        let x = chars_of(a[i].as_str());
        let y = chars_of(b[i].as_str());
        if !crate::text::chars_equal(&x, &y) {
            assert(av[i as int] != bv[i as int]);
            return false;
        }
        i += 1;
    }
    assert(av =~= bv);
    true
}

fn components_of(p: &str) -> (r: Vec<String>)
    ensures
        r@.map_values(|s: String| s@) == path_components(p@),
{
    let v = chars_of(p);
    let rest = segments_of(&v);
    let ghost rv = rest@.map_values(|s: String| s@);
    let head: Option<char> = if v.len() > 0 && v[0] == '/' {
        Some('/')
    } else if (v.len() == 1 && v[0] == '.') || (v.len() >= 2 && v[0] == '.' && v[1] == '/') {
        Some('.')
    } else {
        None
    };
    match head {
        None => rest,
        Some(c) => {
            let mut first = String::new();
            push_char(&mut first, c);
            assert(first@ =~= seq![c]);
            let mut out: Vec<String> = Vec::new();
            out.push(first);
            let mut k: usize = 0;
            assert(out@.map_values(|s: String| s@) =~= seq![seq![c]] + rv.take(0));
            while k < rest.len()
                invariant
                    k <= rest@.len(),
                    rv == rest@.map_values(|s: String| s@),
                    out@.map_values(|s: String| s@) == seq![seq![c]] + rv.take(k as int),
                decreases rest.len() - k,
            {
                let ghost before = out@.map_values(|s: String| s@);
                out.push(rest[k].clone());
                assert(rv.take(k + 1) =~= rv.take(k as int).push(rv[k as int]));
                assert(out@.map_values(|s: String| s@) =~= before.push(rv[k as int]));
                k += 1;
            }
            assert(rv.take(rv.len() as int) =~= rv);
            out
        },
    }
}

/// Whether two paths name the same place as `PathBuf`'s `==` decides on Unix: they have
/// the same components.
pub fn same_path(a: &str, b: &str) -> (r: bool)
    ensures
        r == (path_components(a@) == path_components(b@)),
{
    let x = components_of(a);
    let y = components_of(b);
    same_segments(&x, &y)
}

/// What decides the data directory besides the home directory: the operating system the
/// program runs on and, on Windows, the `APPDATA` variable.
#[derive(Debug, Clone)]
pub struct Host {
    pub platform: Platform,
    pub appdata: Option<String>,
}

/// The `APPDATA` text of a host, if it has one.
pub open spec fn host_appdata(host: Host) -> Option<Seq<char>> {
    match host.appdata {
        Some(a) => Some(a@),
        None => None,
    }
}

/// `d` is the data directory of the host for some home directory.
pub open spec fn is_data_dir(d: Seq<char>, host: Host) -> bool {
    exists|h: Seq<char>| #[trigger] data_dir_spec(Some(h), host.platform, host_appdata(host)) == Some(d)
}

/// The data directory on this host: `~/Library/Application Support` on macOS, the
/// `APPDATA` directory on Windows, `~/.local/share` elsewhere. It is `None` where no home
/// directory can be found, and on Windows where `APPDATA` is not set.
pub fn get_data_dir(host: &Host) -> (r: Option<String>)
    ensures
        r matches Some(d) ==> is_data_dir(d@, *host),
        host.platform == Platform::Windows && host.appdata is None ==> r is None,
{
    let appdata: Option<&str> = match &host.appdata {
        Some(a) => Some(a.as_str()),
        None => None,
    };
    match home_dir_text() {
        Some(h) => {
            let r = data_dir_for(Some(h.as_str()), host.platform, appdata);
            proof {
                assert(opt_view(appdata) == host_appdata(*host));
                if r is Some {
                    assert(data_dir_spec(Some(h@), host.platform, host_appdata(*host)) == Some(r->Some_0@));
                }
            }
            r
        },
        None => None,
    }
}

/// The default notes directory for a home directory: `Documents/Notes` in it, or `./notes`
/// where there is no home directory.
pub open spec fn default_notes_dir_spec(home: Option<Seq<char>>) -> Seq<char> {
    match home {
        Some(h) => path_join(path_join(h, "Documents"@), "Notes"@),
        None => "./notes"@,
    }
}

/// The default notes directory for a home directory.
pub fn default_notes_dir_for(home: Option<&str>) -> (r: String)
    ensures
        r@ == default_notes_dir_spec(opt_view(home)),
{
    match home {
        Some(h) => {
            let docs = join_path(h, "Documents");
            join_path(docs.as_str(), "Notes")
        },
        None => owned("./notes"),
    }
}

/// The default notes directory: `~/Documents/Notes`, or `./notes` without a home.
pub fn get_default_notes_dir() -> (r: String)
    ensures
        exists|h: Option<Seq<char>>| r@ == default_notes_dir_spec(h),
{
    match home_dir_text() {
        Some(h) => default_notes_dir_for(Some(h.as_str())),
        None => default_notes_dir_for(None),
    }
}

/// The configuration file for a home directory: `.symiosis/config.toml` in it, or that
/// relative path where there is no home directory.
pub open spec fn config_path_spec(home: Option<Seq<char>>) -> Seq<char> {
    match home {
        Some(h) => path_join(path_join(h, ".symiosis"@), "config.toml"@),
        None => ".symiosis/config.toml"@,
    }
}

/// The configuration file for a home directory.
pub fn config_path_for(home: Option<&str>) -> (r: String)
    ensures
        r@ == config_path_spec(opt_view(home)),
{
    match home {
        Some(h) => {
            let dir = join_path(h, ".symiosis");
            join_path(dir.as_str(), "config.toml")
        },
        None => owned(".symiosis/config.toml"),
    }
}

/// The configuration file: `~/.symiosis/config.toml`.
pub fn get_config_path() -> (r: String)
    ensures
        exists|h: Option<Seq<char>>| r@ == config_path_spec(h),
{
    match home_dir_text() {
        Some(h) => config_path_for(Some(h.as_str())),
        None => config_path_for(None),
    }
}

/// The database file of a notes directory, under a data directory.
pub open spec fn database_path_spec(data_dir: Seq<char>, notes_dir: Seq<char>) -> Seq<char> {
    path_join(
        path_join(path_join(path_join(data_dir, "symiosis"@), "databases"@), backup_key(notes_dir)),
        "notes.sqlite"@,
    )
}

/// The backup directory of a notes directory, under a data directory.
pub open spec fn backup_dir_spec(data_dir: Seq<char>, notes_dir: Seq<char>) -> Seq<char> {
    path_join(path_join(path_join(data_dir, "symiosis"@), "backups"@), backup_key(notes_dir))
}

/// The directory for temporary files, under a data directory.
pub open spec fn temp_dir_spec(data_dir: Seq<char>) -> Seq<char> {
    path_join(path_join(data_dir, "symiosis"@), "temp"@)
}

/// The temporary directory and a notes directory's backup directory lie in the same
/// `symiosis` directory under the data directory (`temp` beside `backups/<key>`), and they
/// are never the same directory.
pub proof fn law_temp_beside_backups(d: Seq<char>, notes_dir: Seq<char>)
    ensures
        temp_dir_spec(d) == path_join(path_join(d, "symiosis"@), "temp"@),
        backup_dir_spec(d, notes_dir) == path_join(
            path_join(path_join(d, "symiosis"@), "backups"@),
            backup_key(notes_dir),
        ),
        temp_dir_spec(d) != backup_dir_spec(d, notes_dir),
{
    reveal_strlit("temp");
    reveal_strlit("-");
    let key = backup_key(notes_dir);
    let n = (default_hash_of_text(notes_dir) & 0xFFFFFFu64) as nat;
    let h = hex6(n);
    assert(key.last() == h.last());
    assert(h.last() == hex_char(n % 16));
    let p = path_join(path_join(d, "symiosis"@), "temp"@);
    assert(p.last() == 'p') by {
        let base = path_join(d, "symiosis"@);
        if base.len() == 0 || base.last() == '/' {
            assert(p == base + "temp"@);
        } else {
            assert(p == base + "/"@ + "temp"@);
        }
    }
    let b = path_join(path_join(d, "symiosis"@), "backups"@);
    let q = path_join(b, key);
    assert(q.last() == key.last()) by {
        if key.len() > 0 && key[0] == '/' {
        } else if b.len() == 0 || b.last() == '/' {
            assert(q == b + key);
        } else {
            assert(q == b + "/"@ + key);
        }
    }
}

/// The error given where there is no data directory.
pub open spec fn no_data_dir_error() -> AppErrorView {
    AppErrorView::ConfigLoad("Failed to get data directory"@)
}

/// The database file of a notes directory, under a given data directory.
pub fn database_path_in(data_dir: &str, notes_dir: &str) -> (r: String)
    ensures
        r@ == database_path_spec(data_dir@, notes_dir@),
{
    let a = join_path(data_dir, "symiosis");
    let b = join_path(a.as_str(), "databases");
    let key = encode_path_for_backup(notes_dir);
    let c = join_path(b.as_str(), key.as_str());
    join_path(c.as_str(), "notes.sqlite")
}

/// The backup directory of a notes directory, under a given data directory.
pub fn backup_dir_in(data_dir: &str, notes_dir: &str) -> (r: String)
    ensures
        r@ == backup_dir_spec(data_dir@, notes_dir@),
{
    let a = join_path(data_dir, "symiosis");
    let b = join_path(a.as_str(), "backups");
    let key = encode_path_for_backup(notes_dir);
    join_path(b.as_str(), key.as_str())
}

/// The directory for temporary files, under a given data directory.
pub fn temp_dir_in(data_dir: &str) -> (r: String)
    ensures
        r@ == temp_dir_spec(data_dir@),
{
    let a = join_path(data_dir, "symiosis");
    join_path(a.as_str(), "temp")
}

/// The database file of a notes directory.
pub fn get_database_path_for_notes_dir(notes_dir: &str, host: &Host) -> (r: Result<String, AppError>)
    ensures
        r matches Ok(p) ==> exists|d: Seq<char>| is_data_dir(d, *host) && #[trigger] database_path_spec(d, notes_dir@) == p@,
        r matches Err(e) ==> e@ == no_data_dir_error(),
        host.platform == Platform::Windows && host.appdata is None ==> r is Err,
{
    match get_data_dir(host) {
        Some(d) => {
            let p = database_path_in(d.as_str(), notes_dir);
            assert(database_path_spec(d@, notes_dir@) == p@);
            Ok(p)
        },
        None => Err(AppError::ConfigLoad(owned("Failed to get data directory"))),
    }
}

/// The backup directory of a notes directory.
pub fn get_backup_dir_for_notes_path(notes_dir: &str, host: &Host) -> (r: Result<String, AppError>)
    ensures
        r matches Ok(p) ==> exists|d: Seq<char>| is_data_dir(d, *host) && #[trigger] backup_dir_spec(d, notes_dir@) == p@,
        r matches Err(e) ==> e@ == no_data_dir_error(),
        host.platform == Platform::Windows && host.appdata is None ==> r is Err,
{
    match get_data_dir(host) {
        Some(d) => {
            let p = backup_dir_in(d.as_str(), notes_dir);
            assert(backup_dir_spec(d@, notes_dir@) == p@);
            Ok(p)
        },
        None => Err(AppError::ConfigLoad(owned("Failed to get data directory"))),
    }
}

/// The directory for temporary files.
pub fn get_temp_dir(host: &Host) -> (r: Result<String, AppError>)
    ensures
        r matches Ok(p) ==> exists|d: Seq<char>| is_data_dir(d, *host) && #[trigger] temp_dir_spec(d) == p@,
        r matches Err(e) ==> e@ == no_data_dir_error(),
        host.platform == Platform::Windows && host.appdata is None ==> r is Err,
{
    match get_data_dir(host) {
        Some(d) => {
            let p = temp_dir_in(d.as_str());
            assert(temp_dir_spec(d@) == p@);
            Ok(p)
        },
        None => Err(AppError::ConfigLoad(owned("Failed to get data directory"))),
    }
}

/// The database file of the notes directory in effect (see
/// [`crate::config::get_config_notes_dir`]).
pub fn get_database_path(config_content: Option<&str>, host: &Host) -> (r: Result<String, AppError>)
    ensures
        r matches Ok(p) ==> exists|d: Seq<char>, h: Option<Seq<char>>|
            is_data_dir(d, *host) && #[trigger] database_path_spec(
                d,
                crate::config::configured_notes_dir(opt_view(config_content), #[trigger] default_notes_dir_spec(h)),
            ) == p@,
        r matches Err(e) ==> e@ == no_data_dir_error(),
        host.platform == Platform::Windows && host.appdata is None ==> r is Err,
{
    let notes_dir = crate::config::get_config_notes_dir(config_content);
    let r = get_database_path_for_notes_dir(notes_dir.as_str(), host);
    proof {
        if r is Ok {
            let p = r->Ok_0;
            let d = choose|d: Seq<char>| is_data_dir(d, *host) && #[trigger] database_path_spec(d, notes_dir@) == p@;
            let h = choose|h: Option<Seq<char>>| notes_dir@ == crate::config::configured_notes_dir(
                opt_view(config_content),
                #[trigger] default_notes_dir_spec(h),
            );
            assert(database_path_spec(d, crate::config::configured_notes_dir(opt_view(config_content), default_notes_dir_spec(h))) == p@);
        }
    }
    r
}

/// The backup directory of a notes directory and the temporary directory, both under one
/// data directory of this host: `symiosis/backups/<key>` and `symiosis/temp` in it.
pub fn get_backup_and_temp_dirs(notes_dir: &str, host: &Host) -> (r: Result<(String, String), AppError>)
    ensures
        r matches Ok((b, t)) ==> exists|d: Seq<char>| is_data_dir(d, *host) && #[trigger] backup_dir_spec(d, notes_dir@)
            == b@ && temp_dir_spec(d) == t@,
        r matches Err(e) ==> e@ == no_data_dir_error(),
        host.platform == Platform::Windows && host.appdata is None ==> r is Err,
{
    match get_data_dir(host) {
        Some(d) => {
            let b = backup_dir_in(d.as_str(), notes_dir);
            let t = temp_dir_in(d.as_str());
            assert(backup_dir_spec(d@, notes_dir@) == b@);
            Ok((b, t))
        },
        None => Err(AppError::ConfigLoad(owned("Failed to get data directory"))),
    }
}

/// Whether the database in use must be replaced: it is when its path is not, as a path,
/// the one the configuration now asks for.
pub fn connection_needs_refresh(current_db_path: &str, expected_db_path: &str) -> (r: bool)
    ensures
        r == (path_components(current_db_path@) != path_components(expected_db_path@)),
{
    !same_path(current_db_path, expected_db_path)
}

/// Decides whether the notes index must be rebuilt for another database: true where the
/// database path for the configuration in effect differs from `current_db_path`. Fails
/// where the host has no data directory.
pub fn refresh_database_connection(current_db_path: &str, config_content: Option<&str>, host: &Host) -> (r: Result<bool, AppError>)
    ensures
        r matches Ok(b) ==> exists|d: Seq<char>, h: Option<Seq<char>>| is_data_dir(d, *host) && b == (path_components(
            current_db_path@,
        ) != path_components(
            #[trigger] database_path_spec(
                d,
                crate::config::configured_notes_dir(opt_view(config_content), #[trigger] default_notes_dir_spec(h)),
            ),
        )),
        r matches Err(e) ==> e@ == no_data_dir_error(),
        host.platform == Platform::Windows && host.appdata is None ==> r is Err,
{
    match get_database_path(config_content, host) {
        Ok(expected) => Ok(connection_needs_refresh(current_db_path, expected.as_str())),
        Err(e) => Err(e),
    }
}

} // verus!
