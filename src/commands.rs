//! Commands dropped into the watch folder: what a file's name asks for,
//! and the debounce of repeated notifications.

use vstd::prelude::*;
use vstd::string::StrSliceExecFns;

verus! {

/// Notifications for one path closer than this are dropped.
pub const DEBOUNCE_MS: u64 = 500;

/// A command taken from a file of the watch folder; each holds the file's path.
#[derive(Clone, Debug, PartialEq, Eq)]
pub enum AppCommand {
    AddTorrentFromFile(String),
    AddTorrentFromPathFile(String),
    AddMagnetFromFile(String),
    ClientShutdown(String),
}

/// Index just past the last `/`, or 0.
pub open spec fn name_start(p: Seq<char>) -> int
    decreases p.len(),
{
    if p.len() == 0 {
        0
    } else if p.last() == '/' {
        p.len() as int
    } else {
        name_start(p.drop_last())
    }
}

/// The last component of a path.
pub open spec fn file_name(p: Seq<char>) -> Seq<char> {
    p.skip(name_start(p))
}

/// Index of the last `.` of a name, if any.
pub open spec fn last_dot(n: Seq<char>) -> Option<int>
    decreases n.len(),
{
    if n.len() == 0 {
        None
    } else if n.last() == '.' {
        Some(n.len() - 1)
    } else {
        last_dot(n.drop_last())
    }
}

/// The extension of a file name: what follows its last `.`, unless that
/// dot opens the name.
pub open spec fn extension(n: Seq<char>) -> Option<Seq<char>> {
    match last_dot(n) {
        Some(i) => if i == 0 { None } else { Some(n.skip(i + 1)) },
        None => None,
    }
}

pub open spec fn has_extension(p: Seq<char>, ext: Seq<char>) -> bool {
    extension(file_name(p)) == Some(ext)
}

/// Which command a path asks for, by extension, or by the name
/// `shutdown.cmd`; temporary files (ending in `.tmp`) ask for none.
pub open spec fn command_kind(p: Seq<char>) -> Option<int> {
    if p.len() >= 4 && p.skip(p.len() - 4) == seq!['.', 't', 'm', 'p'] {
        None
    } else if has_extension(p, seq!['t', 'o', 'r', 'r', 'e', 'n', 't']) {
        Some(0)
    } else if has_extension(p, seq!['p', 'a', 't', 'h']) {
        Some(1)
    } else if has_extension(p, seq!['m', 'a', 'g', 'n', 'e', 't']) {
        Some(2)
    } else if file_name(p) == seq!['s', 'h', 'u', 't', 'd', 'o', 'w', 'n', '.', 'c', 'm', 'd'] {
        Some(3)
    } else {
        None
    }
}

pub open spec fn kind_of(c: AppCommand) -> int {
    match c {
        AppCommand::AddTorrentFromFile(_) => 0,
        AppCommand::AddTorrentFromPathFile(_) => 1,
        AppCommand::AddMagnetFromFile(_) => 2,
        AppCommand::ClientShutdown(_) => 3,
    }
}

pub open spec fn path_of(c: AppCommand) -> Seq<char> {
    match c {
        AppCommand::AddTorrentFromFile(p) => p@,
        AppCommand::AddTorrentFromPathFile(p) => p@,
        AppCommand::AddMagnetFromFile(p) => p@,
        AppCommand::ClientShutdown(p) => p@,
    }
}

/// The characters of a string.
pub fn chars_of(s: &str) -> (r: Vec<char>)
    ensures
        r@ == s@,
{
    let n = s.unicode_len();
    let mut out: Vec<char> = Vec::new();
    let mut i: usize = 0;
    while i < n
        invariant
            i <= n,
            n == s@.len(),
            out@ == s@.take(i as int),
        decreases n - i,
    {
        out.push(s.get_char(i));
        assert(s@.take(i + 1) =~= s@.take(i as int).push(s@[i as int]));
        i = i + 1;
    }
    assert(s@.take(n as int) =~= s@);
    out
}

proof fn lemma_name_start(p: Seq<char>, k: int)
    requires
        0 <= k <= p.len(),
        forall|j: int| k <= j < p.len() ==> p[j] != '/',
    ensures
        name_start(p) == name_start(p.take(k)),
    decreases p.len() - k,
{
    if k < p.len() {
        assert(p.drop_last() =~= p.take(p.len() - 1));
        lemma_name_start(p.drop_last(), k);
        assert(p.drop_last().take(k) =~= p.take(k));
    } else {
        assert(p.take(k) =~= p);
    }
}

proof fn lemma_last_dot(n: Seq<char>, k: int)
    requires
        0 <= k <= n.len(),
        forall|j: int| k <= j < n.len() ==> n[j] != '.',
    ensures
        last_dot(n) == last_dot(n.take(k)),
    decreases n.len() - k,
{
    if k < n.len() {
        assert(n.drop_last() =~= n.take(n.len() - 1));
        lemma_last_dot(n.drop_last(), k);
        assert(n.drop_last().take(k) =~= n.take(k));
    } else {
        assert(n.take(k) =~= n);
    }
}

/// Index just past the last `/` of a path.
pub fn find_name_start(p: &Vec<char>) -> (r: usize)
    ensures
        r == name_start(p@),
        r <= p@.len(),
{
    let mut k: usize = p.len();
    while k > 0 && p[k - 1] != '/'
        invariant
            k <= p@.len(),
            forall|j: int| k <= j < p@.len() ==> p@[j] != '/',
        decreases k,
    {
        k = k - 1;
    }
    proof {
        lemma_name_start(p@, k as int);
        if k > 0 {
            assert(p@.take(k as int).drop_last() =~= p@.take(k - 1));
        }
    }
    k
}

fn find_last_dot(n: &Vec<char>, from: usize) -> (r: Option<usize>)
    requires
        from <= n@.len(),
    ensures
        match r {
            Some(i) => last_dot(n@.skip(from as int)) == Some(i - from) && from <= i < n@.len(),
            None => last_dot(n@.skip(from as int)) is None,
        },
{
    let ghost name = n@.skip(from as int);
    let mut k: usize = n.len();
    while k > from && n[k - 1] != '.'
        invariant
            from <= k <= n@.len(),
            forall|j: int| k <= j < n@.len() ==> n@[j] != '.',
        decreases k,
    {
        k = k - 1;
    }
    proof {
        assert forall|j: int| k - from <= j < name.len() implies name[j] != '.' by {
            assert(name[j] == n@[j + from]);
        }
        lemma_last_dot(name, k - from);
        if k > from {
            assert(name.take(k - from).drop_last() =~= name.take(k - from - 1));
            assert(name.take(k - from).last() == n@[k - 1]);
        }
        if k == from {
            assert(name.take(0) =~= Seq::<char>::empty());
        }
    }
    if k > from { Some(k - 1) } else { None }
}

fn slice_equals(v: &Vec<char>, from: usize, lit: &Vec<char>) -> (r: bool)
    requires
        from <= v@.len(),
    ensures
        r == (v@.skip(from as int) == lit@),
{
    if v.len() - from != lit.len() {
        assert(v@.skip(from as int).len() != lit@.len());
        return false;
    }
    let vlen = v.len();
    let mut i: usize = 0;
    while i < lit.len()
        invariant
            i <= lit@.len(),
            vlen == v@.len(),
            v@.len() - from == lit@.len(),
            forall|j: int| 0 <= j < i ==> v@[from + j] == lit@[j],
        decreases lit@.len() - i,
    {
        if v[from + i] != lit[i] {
            assert(v@.skip(from as int)[i as int] != lit@[i as int]);
            return false;
        }
        i = i + 1;
    }
    assert(v@.skip(from as int) =~= lit@);
    true
}

/// The command that a file of the watch folder asks for, if any.
pub fn command_for_path(path: &str) -> (r: Option<AppCommand>)
    ensures
        match r {
            Some(c) => command_kind(path@) == Some(kind_of(c)) && path_of(c) == path@,
            None => command_kind(path@) is None,
        },
{
    let p = chars_of(path);
    let n = p.len();
    let tmp: Vec<char> = vec!['.', 't', 'm', 'p'];
    if n >= 4 && slice_equals(&p, n - 4, &tmp) {
        return None;
    }
    let start = find_name_start(&p);
    let ghost name = file_name(path@);
    let dot = find_last_dot(&p, start);
    let ext_at: Option<usize> = match dot {
        Some(i) => if i == start { None } else { Some(i + 1) },
        None => None,
    };
    proof {
        if let Some(i) = dot {
            if i > start {
                assert(name.skip(i - start + 1) =~= p@.skip(i + 1));
            }
        }
    }
    let torrent: Vec<char> = vec!['t', 'o', 'r', 'r', 'e', 'n', 't'];
    let path_ext: Vec<char> = vec!['p', 'a', 't', 'h'];
    let magnet: Vec<char> = vec!['m', 'a', 'g', 'n', 'e', 't'];
    let shutdown: Vec<char> = vec!['s', 'h', 'u', 't', 'd', 'o', 'w', 'n', '.', 'c', 'm', 'd'];
    let owned = path.to_owned();
    match ext_at {
        Some(e) => {
            if slice_equals(&p, e, &torrent) {
                return Some(AppCommand::AddTorrentFromFile(owned));
            }
            if slice_equals(&p, e, &path_ext) {
                return Some(AppCommand::AddTorrentFromPathFile(owned));
            }
            if slice_equals(&p, e, &magnet) {
                return Some(AppCommand::AddMagnetFromFile(owned));
            }
        },
        None => {},
    }
    if slice_equals(&p, start, &shutdown) {
        return Some(AppCommand::ClientShutdown(owned));
    }
    None
}

/// Whether a notification for a path at `now_ms` is processed, given when
/// the path was last processed.
pub fn should_process(last_processed_ms: Option<u64>, now_ms: u64) -> (r: bool)
    ensures
        r == match last_processed_ms {
            Some(t) => now_ms < t || now_ms - t >= DEBOUNCE_MS,
            None => true,
        },
{
    match last_processed_ms {
        Some(t) => now_ms < t || now_ms - t >= DEBOUNCE_MS,
        None => true,
    }
}

/// Positions `i` of `v` with `v[i] == want`, in order.
pub open spec fn indices_where(v: Seq<bool>, want: bool) -> Seq<usize>
    decreases v.len(),
{
    if v.len() == 0 {
        Seq::empty()
    } else {
        let r = indices_where(v.drop_last(), want);
        if v.last() == want { r.push((v.len() - 1) as usize) } else { r }
    }
}

fn collect_where(v: &Vec<bool>, want: bool, out: &mut Vec<usize>)
    ensures
        final(out)@ == old(out)@ + indices_where(v@, want),
{
    let ghost start = out@;
    let mut i: usize = 0;
    while i < v.len()
        invariant
            i <= v@.len(),
            out@ == start + indices_where(v@.take(i as int), want),
        decreases v@.len() - i,
    {
        assert(v@.take(i + 1).drop_last() =~= v@.take(i as int));
        if v[i] == want {
            out.push(i);
            assert(out@ =~= start + indices_where(v@.take(i + 1), want));
        }
        i = i + 1;
    }
    assert(v@.take(v@.len() as int) =~= v@);
}

/// The order in which saved torrents are restored at start-up: those whose
/// data was validated first, then the others, each group in saved order.
pub fn restore_order(validated: &Vec<bool>) -> (r: Vec<usize>)
    ensures
        r@ == indices_where(validated@, true) + indices_where(validated@, false),
{
    let mut out: Vec<usize> = Vec::new();
    collect_where(validated, true, &mut out);
    collect_where(validated, false, &mut out);
    assert(out@ =~= indices_where(validated@, true) + indices_where(validated@, false));
    out
}

/// Whether a saved source is a magnet link rather than a `.torrent` path.
pub fn is_magnet_source(source: &str) -> (r: bool)
    ensures
        r == (source@.len() >= 7 && source@.take(7) == seq!['m', 'a', 'g', 'n', 'e', 't', ':']),
{
    let p = chars_of(source);
    if p.len() < 7 {
        return false;
    }
    let r = p[0] == 'm' && p[1] == 'a' && p[2] == 'g' && p[3] == 'n' && p[4] == 'e' && p[5] == 't' && p[6] == ':';
    proof {
        let t = source@.take(7);
        assert(t =~= seq![t[0], t[1], t[2], t[3], t[4], t[5], t[6]]);
        if !r {
            assert(t != seq!['m', 'a', 'g', 'n', 'e', 't', ':']) by {
                if t == seq!['m', 'a', 'g', 'n', 'e', 't', ':'] {
                    assert(t[0] == 'm' && t[1] == 'a' && t[2] == 'g' && t[3] == 'n' && t[4] == 'e' && t[5] == 't' && t[6] == ':');
                }
            }
        }
    }
    r
}

} // verus!
