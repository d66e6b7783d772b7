//! The list of torrents the dashboard shows, in display order.

use vstd::prelude::*;
use crate::commands::{chars_of, find_name_start, name_start};
use crate::info_hash::digest_matches;
use crate::state::{bits_of, reported, sat_add_spec, took_report, TorrentDisplayState, TorrentState};
use crate::disk_io::{op_wf, DiskIoOperation};
use vstd::relations::sorted_by;

verus! {

broadcast use vstd::seq_lib::group_to_multiset_ensures;

/// Column the torrent list is sorted by.
#[derive(Clone, Copy, Debug, PartialEq, Eq, Structural)]
pub enum TorrentSortColumn {
    Name,
    Down,
    Up,
}

#[derive(Clone, Copy, Debug, PartialEq, Eq, Structural)]
pub enum SortDirection {
    Ascending,
    Descending,
}

/// Names sort A to Z by default, speeds from high to low.
pub open spec fn default_direction(c: TorrentSortColumn) -> SortDirection {
    match c {
        TorrentSortColumn::Name => SortDirection::Ascending,
        _ => SortDirection::Descending,
    }
}

/// Lexicographic comparison of character sequences: -1, 0 or 1.
pub open spec fn lex_cmp(a: Seq<char>, b: Seq<char>) -> int
    decreases a.len(),
{
    if a.len() == 0 && b.len() == 0 {
        0
    } else if a.len() == 0 {
        -1
    } else if b.len() == 0 {
        1
    } else if (a[0] as u32) < (b[0] as u32) {
        -1
    } else if (a[0] as u32) > (b[0] as u32) {
        1
    } else {
        lex_cmp(a.drop_first(), b.drop_first())
    }
}

pub open spec fn cmp_u64(a: u64, b: u64) -> int {
    if a < b { -1 } else if a > b { 1 } else { 0 }
}

/// The natural order of a column: names ascending, speeds descending.
pub open spec fn natural_cmp(a: TorrentDisplayState, b: TorrentDisplayState, c: TorrentSortColumn) -> int {
    match c {
        TorrentSortColumn::Name => lex_cmp(a.latest_state.torrent_name@, b.latest_state.torrent_name@),
        TorrentSortColumn::Down => cmp_u64(b.smoothed_download_speed_bps, a.smoothed_download_speed_bps),
        TorrentSortColumn::Up => cmp_u64(b.smoothed_upload_speed_bps, a.smoothed_upload_speed_bps),
    }
}

/// The order asked for: the natural one, reversed when the direction is
/// not the column's default.
pub open spec fn sort_cmp(a: TorrentDisplayState, b: TorrentDisplayState, c: TorrentSortColumn, d: SortDirection) -> int {
    if d == default_direction(c) { natural_cmp(a, b, c) } else { -natural_cmp(a, b, c) }
}

pub open spec fn sort_le(c: TorrentSortColumn, d: SortDirection) -> spec_fn(TorrentDisplayState, TorrentDisplayState) -> bool {
    |a: TorrentDisplayState, b: TorrentDisplayState| sort_cmp(a, b, c, d) <= 0
}

proof fn lemma_lex_antisym(a: Seq<char>, b: Seq<char>)
    ensures
        lex_cmp(a, b) == -lex_cmp(b, a),
        -1 <= lex_cmp(a, b) <= 1,
    decreases a.len(),
{
    if a.len() > 0 && b.len() > 0 && a[0] == b[0] {
        lemma_lex_antisym(a.drop_first(), b.drop_first());
    } else if a.len() > 0 && b.len() > 0 && (a[0] as u32) == (b[0] as u32) {
        lemma_lex_antisym(a.drop_first(), b.drop_first());
    }
}

proof fn lemma_lex_trans(a: Seq<char>, b: Seq<char>, c: Seq<char>)
    requires
        lex_cmp(a, b) <= 0,
        lex_cmp(b, c) <= 0,
    ensures
        lex_cmp(a, c) <= 0,
    decreases a.len(),
{
    if a.len() > 0 && b.len() > 0 && c.len() > 0 && (a[0] as u32) == (b[0] as u32) && (b[0] as u32) == (c[0] as u32) {
        lemma_lex_trans(a.drop_first(), b.drop_first(), c.drop_first());
    }
}

proof fn lemma_cmp_antisym(a: TorrentDisplayState, b: TorrentDisplayState, c: TorrentSortColumn, d: SortDirection)
    ensures
        sort_cmp(a, b, c, d) == -sort_cmp(b, a, c, d),
{
    lemma_lex_antisym(a.latest_state.torrent_name@, b.latest_state.torrent_name@);
}

proof fn lemma_cmp_trans(x: TorrentDisplayState, y: TorrentDisplayState, z: TorrentDisplayState, c: TorrentSortColumn, d: SortDirection)
    requires
        sort_cmp(x, y, c, d) <= 0,
        sort_cmp(y, z, c, d) <= 0,
    ensures
        sort_cmp(x, z, c, d) <= 0,
{
    let nx = x.latest_state.torrent_name@;
    let ny = y.latest_state.torrent_name@;
    let nz = z.latest_state.torrent_name@;
    lemma_lex_antisym(nx, ny);
    lemma_lex_antisym(ny, nz);
    lemma_lex_antisym(nx, nz);
    if c == TorrentSortColumn::Name {
        if d == default_direction(c) {
            lemma_lex_trans(nx, ny, nz);
        } else {
            lemma_lex_trans(nz, ny, nx);
        }
    }
}

proof fn lemma_lex_step(a: Seq<char>, b: Seq<char>, i: int)
    requires
        0 <= i < a.len(),
        i < b.len(),
        (a[i] as u32) == (b[i] as u32),
    ensures
        lex_cmp(a.skip(i), b.skip(i)) == lex_cmp(a.skip(i + 1), b.skip(i + 1)),
{
    assert(a.skip(i).drop_first() =~= a.skip(i + 1));
    assert(b.skip(i).drop_first() =~= b.skip(i + 1));
}

fn lex_compare(a: &Vec<char>, b: &Vec<char>) -> (r: i8)
    ensures
        r as int == lex_cmp(a@, b@),
{
    proof {
        assert(a@.skip(0) =~= a@);
        assert(b@.skip(0) =~= b@);
    }
    let mut i: usize = 0;
    while i < a.len() && i < b.len() && (a[i] as u32) == (b[i] as u32)
        invariant
            i <= a@.len(),
            i <= b@.len(),
            lex_cmp(a@.skip(i as int), b@.skip(i as int)) == lex_cmp(a@, b@),
        decreases a@.len() - i,
    {
        proof { lemma_lex_step(a@, b@, i as int); }
        i = i + 1;
    }
    proof {
        assert(a@.skip(0) =~= a@);
        assert(b@.skip(0) =~= b@);
    }
    let ghost sa = a@.skip(i as int);
    let ghost sb = b@.skip(i as int);
    if i == a.len() && i == b.len() {
        0
    } else if i == a.len() {
        -1
    } else if i == b.len() {
        1
    } else if (a[i] as u32) < (b[i] as u32) {
        assert(sa[0] == a@[i as int] && sb[0] == b@[i as int]);
        -1
    } else {
        assert(sa[0] == a@[i as int] && sb[0] == b@[i as int]);
        1
    }
}

fn compare(a: &TorrentDisplayState, b: &TorrentDisplayState, c: TorrentSortColumn, d: SortDirection) -> (r: i8)
    ensures
        r as int == sort_cmp(*a, *b, c, d),
{
    let natural: i8 = match c {
        TorrentSortColumn::Name => {
            let na = chars_of(a.latest_state.torrent_name.as_str());
            let nb = chars_of(b.latest_state.torrent_name.as_str());
            proof { lemma_lex_antisym(na@, nb@); }
            lex_compare(&na, &nb)
        },
        TorrentSortColumn::Down => {
            if b.smoothed_download_speed_bps < a.smoothed_download_speed_bps { -1 }
            else if b.smoothed_download_speed_bps > a.smoothed_download_speed_bps { 1 } else { 0 }
        },
        TorrentSortColumn::Up => {
            if b.smoothed_upload_speed_bps < a.smoothed_upload_speed_bps { -1 }
            else if b.smoothed_upload_speed_bps > a.smoothed_upload_speed_bps { 1 } else { 0 }
        },
    };
    let default_dir = match c {
        TorrentSortColumn::Name => SortDirection::Ascending,
        _ => SortDirection::Descending,
    };
    if d == default_dir { natural } else { -natural }
}

/// The info-hashes of the list, in order.
pub open spec fn hashes_of(s: Seq<TorrentDisplayState>) -> Seq<Seq<u8>> {
    s.map_values(|t: TorrentDisplayState| t.latest_state.info_hash@)
}

pub open spec fn speed_sum(s: Seq<TorrentDisplayState>, download: bool) -> int
    decreases s.len(),
{
    if s.len() == 0 {
        0
    } else {
        speed_sum(s.drop_last(), download)
            + if download { s.last().smoothed_download_speed_bps as int } else { s.last().smoothed_upload_speed_bps as int }
    }
}

pub open spec fn capped(x: int) -> int {
    if x > u64::MAX { u64::MAX as int } else { x }
}

/// The folder a path lies in: what precedes its last `/` (the root for a
/// path directly under it); `None` for a path without `/`.
pub open spec fn parent_of(p: Seq<char>) -> Option<Seq<char>> {
    let k = name_start(p);
    if k == 0 { None } else if k == 1 { Some(seq!['/']) } else { Some(p.take(k - 1)) }
}

pub open spec fn opt_view(o: Option<Vec<char>>) -> Option<Seq<char>> {
    match o {
        Some(v) => Some(v@),
        None => None,
    }
}

/// How many entries of `s` equal `x`, counting only present values.
pub open spec fn count_in(s: Seq<Option<Seq<char>>>, x: Option<Seq<char>>) -> int
    decreases s.len(),
{
    if s.len() == 0 {
        0
    } else {
        count_in(s.drop_last(), x) + if x is Some && s.last() == x { 1int } else { 0int }
    }
}

/// How many torrents have their download path in the folder `p`.
pub open spec fn parent_count(s: Seq<TorrentDisplayState>, p: Option<Seq<char>>) -> int {
    count_in(s.map_values(|t: TorrentDisplayState| parent_of(t.latest_state.download_path@)), p)
}

proof fn lemma_count_none(s: Seq<Option<Seq<char>>>)
    ensures
        count_in(s, None) == 0,
    decreases s.len(),
{
    if s.len() > 0 {
        lemma_count_none(s.drop_last());
    }
}

fn clone_chars(v: &Vec<char>) -> (r: Vec<char>)
    ensures
        r@ == v@,
{
    let mut out: Vec<char> = Vec::new();
    let mut i: usize = 0;
    while i < v.len()
        invariant
            i <= v@.len(),
            out@ == v@.take(i as int),
        decreases v@.len() - i,
    {
        out.push(v[i]);
        assert(v@.take(i + 1) =~= v@.take(i as int).push(v@[i as int]));
        i = i + 1;
    }
    assert(v@.take(v@.len() as int) =~= v@);
    out
}

fn chars_equal(a: &Vec<char>, b: &Vec<char>) -> (r: bool)
    ensures
        r == (a@ == b@),
{
    if a.len() != b.len() {
        return false;
    }
    let mut i: usize = 0;
    while i < a.len()
        invariant
            i <= a@.len(),
            a@.len() == b@.len(),
            forall|j: int| 0 <= j < i ==> a@[j] == b@[j],
        decreases a@.len() - i,
    {
        if a[i] != b[i] {
            return false;
        }
        i = i + 1;
    }
    assert(a@ =~= b@);
    true
}

/// The parent folder of a path, as characters.
fn parent_path(path: &str) -> (r: Option<Vec<char>>)
    ensures
        opt_view(r) == parent_of(path@),
{
    let p = chars_of(path);
    let k = find_name_start(&p);
    if k == 0 {
        None
    } else if k == 1 {
        let v: Vec<char> = vec!['/'];
        assert(v@ =~= seq!['/']);
        Some(v)
    } else {
        let mut out: Vec<char> = Vec::new();
        let mut i: usize = 0;
        while i < k - 1
            invariant
                i <= k - 1,
                k <= p@.len(),
                out@ == p@.take(i as int),
            decreases k - 1 - i,
        {
            out.push(p[i]);
            assert(p@.take(i + 1) =~= p@.take(i as int).push(p@[i as int]));
            i = i + 1;
        }
        Some(out)
    }
}

/// How many entries equal the (present) entry at `k`.
fn count_equal(parents: &Vec<Option<Vec<char>>>, k: usize) -> (r: usize)
    requires
        k < parents@.len(),
        parents@[k as int] is Some,
    ensures
        r == count_in(parents@.map_values(|o: Option<Vec<char>>| opt_view(o)), opt_view(parents@[k as int])),
{
    let ghost pv = parents@.map_values(|o: Option<Vec<char>>| opt_view(o));
    let target = parents[k].as_ref().unwrap();
    let mut c: usize = 0;
    let mut i: usize = 0;
    while i < parents.len()
        invariant
            i <= parents@.len(),
            pv == parents@.map_values(|o: Option<Vec<char>>| opt_view(o)),
            parents@[k as int] == Some(*target),
            c == count_in(pv.take(i as int), Some(target@)),
            c <= i,
        decreases parents@.len() - i,
    {
        assert(pv.take(i + 1).drop_last() =~= pv.take(i as int));
        match &parents[i] {
            Some(v) => {
                if chars_equal(v, target) {
                    c = c + 1;
                }
            },
            None => {},
        }
        i = i + 1;
    }
    assert(pv.take(parents@.len() as int) =~= pv);
    c
}

/// Entry `o` after a disk operation `op` of it started is `n`: its bytes
/// count for the tick and it leads the entry's read or write log.
pub open spec fn disk_started(o: TorrentDisplayState, is_write: bool, op: DiskIoOperation, n: TorrentDisplayState) -> bool {
    &&& n.latest_state == o.latest_state
    &&& is_write ==> n.bytes_written_this_tick == sat_add_spec(o.bytes_written_this_tick as int, op.length as int)
        && n.disk_write_history_log@[0] == op && n.disk_read_history_log == o.disk_read_history_log
    &&& !is_write ==> n.bytes_read_this_tick == sat_add_spec(o.bytes_read_this_tick as int, op.length as int)
        && n.disk_read_history_log@[0] == op && n.disk_write_history_log == o.disk_write_history_log
}

/// The torrents in display order, each info-hash once.
pub struct TorrentTable {
    pub torrents: Vec<TorrentDisplayState>,
    pub selected_torrent_index: usize,
}

impl TorrentTable {
    pub open spec fn wf(&self) -> bool {
        &&& hashes_of(self.torrents@).no_duplicates()
        &&& forall|i: int| 0 <= i < self.torrents@.len() ==> (#[trigger] self.torrents@[i]).wf()
    }

    pub fn new() -> (r: Self)
        ensures
            r.wf(),
            r.torrents@.len() == 0,
            r.selected_torrent_index == 0,
    {
        let r = TorrentTable { torrents: Vec::new(), selected_torrent_index: 0 };
        assert(hashes_of(r.torrents@) =~= Seq::<Seq<u8>>::empty());
        r
    }

    /// Position of the torrent with this info-hash.
    pub fn position_of(&self, info_hash: &[u8]) -> (r: Option<usize>)
        ensures
            match r {
                Some(i) => i < self.torrents@.len() && self.torrents@[i as int].latest_state.info_hash@ == info_hash@,
                None => !hashes_of(self.torrents@).contains(info_hash@),
            },
    {
        let mut i: usize = 0;
        while i < self.torrents.len()
            invariant
                i <= self.torrents@.len(),
                forall|j: int| 0 <= j < i ==> self.torrents@[j].latest_state.info_hash@ != info_hash@,
            decreases self.torrents@.len() - i,
        {
            if digest_matches(self.torrents[i].latest_state.info_hash.as_slice(), info_hash) {
                return Some(i);
            }
            i = i + 1;
        }
        proof {
            if hashes_of(self.torrents@).contains(info_hash@) {
                let j = choose|j: int| 0 <= j < hashes_of(self.torrents@).len() && hashes_of(self.torrents@)[j] == info_hash@;
                assert(self.torrents@[j].latest_state.info_hash@ == info_hash@);
            }
        }
        None
    }

    /// Adds a torrent at the end of the list, unless one with its
    /// info-hash is already there. Returns whether it was added.
    pub fn add(&mut self, entry: TorrentDisplayState) -> (added: bool)
        requires
            old(self).wf(),
            entry.wf(),
        ensures
            final(self).wf(),
            added == !hashes_of(old(self).torrents@).contains(entry.latest_state.info_hash@),
            added ==> final(self).torrents@ == old(self).torrents@.push(entry),
            !added ==> final(self).torrents@ == old(self).torrents@,
            final(self).selected_torrent_index == old(self).selected_torrent_index,
    {
        match self.position_of(entry.latest_state.info_hash.as_slice()) {
            Some(i) => {
                assert(hashes_of(self.torrents@)[i as int] == entry.latest_state.info_hash@);
                false
            },
            None => {
                let ghost before = self.torrents@;
                self.torrents.push(entry);
                proof {
                    assert(hashes_of(self.torrents@) =~= hashes_of(before).push(entry.latest_state.info_hash@));
                    assert forall|i: int| 0 <= i < self.torrents@.len() implies (#[trigger] self.torrents@[i]).wf() by {
                        if i < before.len() { assert(self.torrents@[i] == before[i]); }
                    }
                }
                true
            },
        }
    }

    /// Removes the torrent with this info-hash, once its deletion is
    /// complete, and keeps the selection within the list.
    pub fn remove(&mut self, info_hash: &[u8]) -> (r: Option<TorrentDisplayState>)
        requires
            old(self).wf(),
        ensures
            final(self).wf(),
            match r {
                Some(t) => t.latest_state.info_hash@ == info_hash@
                    && exists|i: int| 0 <= i < old(self).torrents@.len() && final(self).torrents@ == old(self).torrents@.remove(i)
                        && old(self).torrents@[i] == t,
                None => !hashes_of(old(self).torrents@).contains(info_hash@) && final(self).torrents@ == old(self).torrents@,
            },
            !hashes_of(final(self).torrents@).contains(info_hash@),
            final(self).selected_torrent_index == if old(self).selected_torrent_index >= final(self).torrents@.len()
                && final(self).torrents@.len() > 0 { final(self).torrents@.len() - 1 } else { old(self).selected_torrent_index as int },
    {
        let ghost before = self.torrents@;
        let r = match self.position_of(info_hash) {
            Some(i) => {
                let t = self.torrents.remove(i);
                proof {
                    let hb = hashes_of(before);
                    assert(hashes_of(self.torrents@) =~= hb.remove(i as int));
                    assert forall|a: int, b: int| 0 <= a < b < hashes_of(self.torrents@).len()
                        implies hashes_of(self.torrents@)[a] != hashes_of(self.torrents@)[b] by {
                        let a2 = if a < i { a } else { a + 1 };
                        let b2 = if b < i { b } else { b + 1 };
                        assert(hb[a2] != hb[b2]);
                    }
                    assert forall|j: int| 0 <= j < self.torrents@.len() implies (#[trigger] self.torrents@[j]).wf() by {
                        if j < i { assert(self.torrents@[j] == before[j]); } else { assert(self.torrents@[j] == before[j + 1]); }
                    }
                    if hashes_of(self.torrents@).contains(info_hash@) {
                        let j = choose|j: int| 0 <= j < hashes_of(self.torrents@).len() && hashes_of(self.torrents@)[j] == info_hash@;
                        let j2 = if j < i { j } else { j + 1 };
                        assert(hb[j2] == hb[i as int]);
                    }
                }
                Some(t)
            },
            None => None,
        };
        if self.selected_torrent_index >= self.torrents.len() && self.torrents.len() > 0 {
            self.selected_torrent_index = self.torrents.len() - 1;
        }
        r
    }

    /// Sums of the smoothed download and upload speeds, capped at `u64::MAX`.
    pub fn total_speeds(&self) -> (r: (u64, u64))
        ensures
            r.0 == capped(speed_sum(self.torrents@, true)),
            r.1 == capped(speed_sum(self.torrents@, false)),
    {
        let mut dl: u128 = 0;
        let mut ul: u128 = 0;
        let mut i: usize = 0;
        while i < self.torrents.len()
            invariant
                i <= self.torrents@.len(),
                dl == speed_sum(self.torrents@.take(i as int), true),
                ul == speed_sum(self.torrents@.take(i as int), false),
                dl <= i * u64::MAX,
                ul <= i * u64::MAX,
            decreases self.torrents@.len() - i,
        {
            proof {
                assert(self.torrents@.take(i + 1).drop_last() =~= self.torrents@.take(i as int));
                assert(i * u64::MAX + u64::MAX == (i + 1) * u64::MAX) by (nonlinear_arith);
                assert((i + 1) * u64::MAX <= usize::MAX * u64::MAX) by (nonlinear_arith)
                    requires i + 1 <= usize::MAX;
            }
            dl = dl + self.torrents[i].smoothed_download_speed_bps as u128;
            ul = ul + self.torrents[i].smoothed_upload_speed_bps as u128;
            i = i + 1;
        }
        assert(self.torrents@.take(self.torrents@.len() as int) =~= self.torrents@);
        let d: u64 = if dl > u64::MAX as u128 { u64::MAX } else { dl as u64 };
        let u: u64 = if ul > u64::MAX as u128 { u64::MAX } else { ul as u64 };
        (d, u)
    }

    /// The folder that holds the most download paths: among the parents of
    /// the torrents' download paths, one that occurs most often, the first
    /// in list order among equals. `None` when no path has a parent.
    pub fn find_most_common_download_path(&self) -> (r: Option<Vec<char>>)
        ensures
            r matches Some(p) ==> exists|i: int| 0 <= i < self.torrents@.len()
                && parent_of(#[trigger] self.torrents@[i].latest_state.download_path@) == Some(p@),
            r matches Some(p) ==> forall|j: int| 0 <= j < self.torrents@.len()
                ==> parent_count(self.torrents@, #[trigger] parent_of(self.torrents@[j].latest_state.download_path@))
                    <= parent_count(self.torrents@, Some(p@)),
            r is None ==> forall|i: int| 0 <= i < self.torrents@.len()
                ==> #[trigger] parent_of(self.torrents@[i].latest_state.download_path@) is None,
    {
        let n = self.torrents.len();
        let mut parents: Vec<Option<Vec<char>>> = Vec::new();
        let mut i: usize = 0;
        while i < n
            invariant
                i <= n,
                n == self.torrents@.len(),
                parents@.len() == i,
                forall|j: int| 0 <= j < i ==> opt_view(#[trigger] parents@[j]) == parent_of(self.torrents@[j].latest_state.download_path@),
            decreases n - i,
        {
            let p = parent_path(self.torrents[i].latest_state.download_path.as_str());
            parents.push(p);
            i = i + 1;
        }
        let ghost pv = parents@.map_values(|o: Option<Vec<char>>| opt_view(o));
        assert(pv =~= self.torrents@.map_values(|t: TorrentDisplayState| parent_of(t.latest_state.download_path@)));
        let mut best: Option<usize> = None;
        let mut best_count: usize = 0;
        let mut k: usize = 0;
        while k < n
            invariant
                k <= n,
                n == self.torrents@.len(),
                parents@.len() == n,
                pv == parents@.map_values(|o: Option<Vec<char>>| opt_view(o)),
                pv =~= self.torrents@.map_values(|t: TorrentDisplayState| parent_of(t.latest_state.download_path@)),
                match best {
                    Some(b) => b < k && pv[b as int] is Some && best_count == count_in(pv, pv[b as int])
                        && forall|j: int| 0 <= j < k && #[trigger] pv[j] is Some ==> count_in(pv, pv[j]) <= best_count,
                    None => forall|j: int| 0 <= j < k ==> #[trigger] pv[j] is None,
                },
            decreases n - k,
        {
            if parents[k].is_some() {
                let c = count_equal(&parents, k);
                let better = match best {
                    Some(_) => c > best_count,
                    None => true,
                };
                if better {
                    best = Some(k);
                    best_count = c;
                }
            }
            k = k + 1;
        }
        match best {
            Some(b) => {
                let r = clone_chars(parents[b].as_ref().unwrap());
                proof {
                    assert(pv[b as int] == opt_view(parents@[b as int]));
                    assert(pv[b as int] == Some(r@));
                    assert(pv[b as int] == parent_of(self.torrents@[b as int].latest_state.download_path@));
                    assert(parent_of(self.torrents@[b as int].latest_state.download_path@) == Some(r@));
                    assert(parent_count(self.torrents@, Some(r@)) == count_in(pv, Some(r@)));
                    assert forall|j: int| 0 <= j < self.torrents@.len()
                        implies parent_count(self.torrents@, #[trigger] parent_of(self.torrents@[j].latest_state.download_path@))
                            <= parent_count(self.torrents@, Some(r@)) by {
                        assert(pv[j] == parent_of(self.torrents@[j].latest_state.download_path@));
                        assert(parent_count(self.torrents@, pv[j]) == count_in(pv, pv[j]));
                        if pv[j] is None {
                            assert(count_in(pv, pv[j]) == 0) by { lemma_count_none(pv); }
                        }
                    }
                    assert(exists|i: int| 0 <= i < self.torrents@.len()
                        && parent_of(#[trigger] self.torrents@[i].latest_state.download_path@) == Some(r@));
                }
                Some(r)
            },
            None => {
                proof {
                    assert forall|i: int| 0 <= i < self.torrents@.len()
                        implies #[trigger] parent_of(self.torrents@[i].latest_state.download_path@) is None by {
                        assert(pv[i] == parent_of(self.torrents@[i].latest_state.download_path@));
                    }
                }
                None
            },
        }
    }

    /// Swaps in a changed entry at `i` whose info-hash is unchanged.
    fn replace_at(&mut self, i: usize, t: TorrentDisplayState)
        requires
            old(self).wf(),
            i < old(self).torrents@.len(),
            t.wf(),
            t.latest_state.info_hash@ == old(self).torrents@[i as int].latest_state.info_hash@,
        ensures
            final(self).wf(),
            final(self).torrents@ == old(self).torrents@.update(i as int, t),
            final(self).selected_torrent_index == old(self).selected_torrent_index,
    {
        let ghost before = self.torrents@;
        self.torrents.set(i, t);
        proof {
            assert(hashes_of(self.torrents@) =~= hashes_of(before));
            assert forall|j: int| 0 <= j < self.torrents@.len() implies (#[trigger] self.torrents@[j]).wf() by {
                if j != i { assert(self.torrents@[j] == before[j]); }
            }
        }
    }

    /// Takes in a report of a torrent's manager; a torrent not yet listed
    /// is added at the end first. Returns whether it was added.
    pub fn apply_update(&mut self, message: TorrentState) -> (added: bool)
        requires
            old(self).wf(),
        ensures
            final(self).wf(),
            added == !hashes_of(old(self).torrents@).contains(message.info_hash@),
            final(self).torrents@.len() == old(self).torrents@.len() + if added { 1int } else { 0int },
            hashes_of(final(self).torrents@).contains(message.info_hash@),
            !added ==> exists|i: int| 0 <= i < old(self).torrents@.len()
                && old(self).torrents@[i].latest_state.info_hash@ == message.info_hash@
                && final(self).torrents@ == old(self).torrents@.update(i, final(self).torrents@[i])
                && #[trigger] took_report(old(self).torrents@[i], message, final(self).torrents@[i]),
            added ==> final(self).torrents@.drop_last() == old(self).torrents@
                && final(self).torrents@.last().latest_state.info_hash@ == message.info_hash@
                && reported(message, final(self).torrents@.last()),
    {
        match self.position_of(message.info_hash.as_slice()) {
            Some(i) => {
                assert(hashes_of(self.torrents@)[i as int] == message.info_hash@);
                let mut t = self.torrents.remove(i);
                let ghost h = t.latest_state.info_hash@;
                t.apply_update(message);
                assert(t.latest_state.info_hash@ == h);
                self.torrents.insert(i, t);
                proof {
                    let before = old(self).torrents@;
                    assert(self.torrents@ =~= before.update(i as int, t));
                    assert(hashes_of(self.torrents@) =~= hashes_of(before));
                    assert forall|j: int| 0 <= j < self.torrents@.len() implies (#[trigger] self.torrents@[j]).wf() by {
                        if j != i { assert(self.torrents@[j] == before[j]); }
                    }
                    assert(hashes_of(self.torrents@)[i as int] == h);
                    assert(took_report(before[i as int], message, self.torrents@[i as int]));
                }
                false
            },
            None => {
                let ghost h = message.info_hash@;
                let ghost before = self.torrents@;
                let mut t = TorrentDisplayState::new(TorrentState::placeholder(
                    message.info_hash.clone(), message.torrent_or_magnet.clone(), String::new(),
                    message.download_path.clone(), 0, message.torrent_control_state));
                t.apply_update(message);
                self.torrents.push(t);
                proof {
                    assert(self.torrents@.drop_last() =~= before);
                    assert(hashes_of(self.torrents@) =~= hashes_of(before).push(t.latest_state.info_hash@));
                    assert forall|j: int| 0 <= j < self.torrents@.len() implies (#[trigger] self.torrents@[j]).wf() by {
                        if j < before.len() { assert(self.torrents@[j] == before[j]); }
                    }
                    assert(hashes_of(self.torrents@)[before.len() as int] == t.latest_state.info_hash@);
                }
                true
            },
        }
    }

    /// Accounts a disk operation that started for the torrent with this
    /// info-hash, if it is listed.
    pub fn record_disk_started(&mut self, info_hash: &[u8], is_write: bool, op: DiskIoOperation) -> (found: bool)
        requires
            old(self).wf(),
            op_wf(op),
        ensures
            final(self).wf(),
            found == hashes_of(old(self).torrents@).contains(info_hash@),
            final(self).torrents@.len() == old(self).torrents@.len(),
            !found ==> final(self).torrents@ == old(self).torrents@,
            found ==> exists|i: int| 0 <= i < old(self).torrents@.len()
                && old(self).torrents@[i].latest_state.info_hash@ == info_hash@
                && final(self).torrents@ == old(self).torrents@.update(i, final(self).torrents@[i])
                && #[trigger] disk_started(old(self).torrents@[i], is_write, op, final(self).torrents@[i]),
    {
        match self.position_of(info_hash) {
            Some(i) => {
                assert(hashes_of(self.torrents@)[i as int] == info_hash@);
                assert(self.torrents@[i as int].wf());
                let mut t = self.torrents.remove(i);
                let ghost t0 = t;
                if is_write {
                    t.record_write_started(op);
                    assert(t.disk_write_history_log@[0] == (seq![op] + t0.disk_write_history_log@)[0]);
                } else {
                    t.record_read_started(op);
                    assert(t.disk_read_history_log@[0] == (seq![op] + t0.disk_read_history_log@)[0]);
                }
                assert(disk_started(t0, is_write, op, t));
                self.torrents.insert(i, t);
                proof {
                    let before = old(self).torrents@;
                    assert(t0 == before[i as int]);
                    assert(self.torrents@ =~= before.update(i as int, t));
                    assert(hashes_of(self.torrents@) =~= hashes_of(before));
                    assert forall|j: int| 0 <= j < self.torrents@.len() implies (#[trigger] self.torrents@[j]).wf() by {
                        if j != i { assert(self.torrents@[j] == before[j]); }
                    }
                }
                true
            },
            None => false,
        }
    }

    /// Closes a one-second tick for every torrent and returns the summed
    /// disk read and write speeds, capped at `u64::MAX`.
    pub fn end_tick_all(&mut self) -> (r: (u64, u64))
        requires
            old(self).wf(),
        ensures
            final(self).wf(),
            final(self).torrents@.len() == old(self).torrents@.len(),
            hashes_of(final(self).torrents@) == hashes_of(old(self).torrents@),
            forall|i: int| 0 <= i < final(self).torrents@.len() ==> (#[trigger] final(self).torrents@[i]).bytes_read_this_tick == 0
                && final(self).torrents@[i].bytes_written_this_tick == 0
                && final(self).torrents@[i].disk_read_speed_bps == bits_of(old(self).torrents@[i].bytes_read_this_tick as int)
                && final(self).torrents@[i].disk_write_speed_bps == bits_of(old(self).torrents@[i].bytes_written_this_tick as int),
    {
        let n = self.torrents.len();
        let mut read: u64 = 0;
        let mut write: u64 = 0;
        let mut i: usize = 0;
        while i < n
            invariant
                i <= n,
                n == self.torrents@.len(),
                self.wf(),
                hashes_of(self.torrents@) == hashes_of(old(self).torrents@),
                self.selected_torrent_index == old(self).selected_torrent_index,
                forall|j: int| 0 <= j < i ==> (#[trigger] self.torrents@[j]).bytes_read_this_tick == 0
                    && self.torrents@[j].bytes_written_this_tick == 0
                    && self.torrents@[j].disk_read_speed_bps == bits_of(old(self).torrents@[j].bytes_read_this_tick as int)
                    && self.torrents@[j].disk_write_speed_bps == bits_of(old(self).torrents@[j].bytes_written_this_tick as int),
                forall|j: int| i <= j < n ==> #[trigger] self.torrents@[j] == old(self).torrents@[j],
            decreases n - i,
        {
            assert(self.torrents@[i as int].wf());
            let ghost before = self.torrents@;
            let mut t = self.torrents.remove(i);
            t.end_tick();
            read = if t.disk_read_speed_bps > u64::MAX - read { u64::MAX } else { read + t.disk_read_speed_bps };
            write = if t.disk_write_speed_bps > u64::MAX - write { u64::MAX } else { write + t.disk_write_speed_bps };
            self.torrents.insert(i, t);
            proof {
                assert(self.torrents@ =~= before.update(i as int, t));
                assert(hashes_of(self.torrents@) =~= hashes_of(before));
                assert forall|j: int| 0 <= j < self.torrents@.len() implies (#[trigger] self.torrents@[j]).wf() by {
                    if j != i { assert(self.torrents@[j] == before[j]); }
                }
            }
            i = i + 1;
        }
        (read, write)
    }

    /// Whether any torrent still misses pieces.
    pub fn is_leeching(&self) -> (r: bool)
        ensures
            r == exists|i: int| 0 <= i < self.torrents@.len()
                && #[trigger] self.torrents@[i].latest_state.number_of_pieces_completed
                    < self.torrents@[i].latest_state.number_of_pieces_total,
    {
        let mut i: usize = 0;
        while i < self.torrents.len()
            invariant
                i <= self.torrents@.len(),
                forall|j: int| 0 <= j < i ==> !(self.torrents@[j].latest_state.number_of_pieces_completed
                    < self.torrents@[j].latest_state.number_of_pieces_total),
            decreases self.torrents@.len() - i,
        {
            if self.torrents[i].latest_state.number_of_pieces_completed < self.torrents[i].latest_state.number_of_pieces_total {
                return true;
            }
            i = i + 1;
        }
        false
    }

    /// Sorts the list by a column and direction; a sort by name goes by
    /// the characters' code points.
    pub fn sort_torrent_list(&mut self, column: TorrentSortColumn, direction: SortDirection)
        requires
            old(self).wf(),
        ensures
            final(self).wf(),
            final(self).torrents@.to_multiset() == old(self).torrents@.to_multiset(),
            sorted_by(final(self).torrents@, sort_le(column, direction)),
            final(self).selected_torrent_index == old(self).selected_torrent_index,
            forall|a: int, b: int| 0 <= a < b < final(self).torrents@.len()
                && sort_cmp(#[trigger] final(self).torrents@[a], #[trigger] final(self).torrents@[b], column, direction) == 0
                ==> exists|ia: int, ib: int| 0 <= ia < ib < old(self).torrents@.len()
                    && #[trigger] old(self).torrents@[ia] == final(self).torrents@[a]
                    && #[trigger] old(self).torrents@[ib] == final(self).torrents@[b],
    {
        let ghost orig = self.torrents@;
        let ghost le = sort_le(column, direction);
        let ghost mut pos: Seq<int> = Seq::empty();
        let ghost mut cnt: int = 0;
        let mut out: Vec<TorrentDisplayState> = Vec::new();
        while self.torrents.len() > 0
            invariant
                sorted_by(out@, le),
                le == sort_le(column, direction),
                self.selected_torrent_index == old(self).selected_torrent_index,
                out@.to_multiset().add(self.torrents@.to_multiset()) == orig.to_multiset(),
                hashes_of(out@).no_duplicates(),
                hashes_of(self.torrents@).no_duplicates(),
                forall|a: int, b: int| 0 <= a < out@.len() && 0 <= b < self.torrents@.len()
                    ==> out@[a].latest_state.info_hash@ != self.torrents@[b].latest_state.info_hash@,
                forall|i: int| 0 <= i < out@.len() ==> (#[trigger] out@[i]).wf(),
                forall|i: int| 0 <= i < self.torrents@.len() ==> (#[trigger] self.torrents@[i]).wf(),
                0 <= cnt <= orig.len(),
                self.torrents@ == orig.skip(cnt),
                pos.len() == out@.len(),
                forall|k: int| 0 <= k < pos.len() ==> 0 <= #[trigger] pos[k] < cnt && out@[k] == orig[pos[k]],
                forall|a: int, b: int| 0 <= a < b < out@.len()
                    && sort_cmp(#[trigger] out@[a], #[trigger] out@[b], column, direction) == 0 ==> pos[a] < pos[b],
            decreases self.torrents@.len(),
        {
            let ghost rest = self.torrents@;
            let ghost old_pos = pos;
            let x = self.torrents.remove(0);
            proof {
                assert(rest =~= seq![x] + self.torrents@);
                vstd::seq_lib::lemma_multiset_commutative(seq![x], self.torrents@);
                assert(seq![x] =~= Seq::<TorrentDisplayState>::empty().push(x));
                assert(x == rest[0]);
                assert forall|b: int| 0 <= b < self.torrents@.len() implies
                    x.latest_state.info_hash@ != self.torrents@[b].latest_state.info_hash@ by {
                    assert(self.torrents@[b] == rest[b + 1]);
                    assert(hashes_of(rest)[0] != hashes_of(rest)[b + 1]);
                }
                assert(hashes_of(self.torrents@) =~= hashes_of(rest).drop_first());
                assert forall|i: int| 0 <= i < self.torrents@.len() implies (#[trigger] self.torrents@[i]).wf() by {
                    assert(self.torrents@[i] == rest[i + 1]);
                }
                assert(x.wf());
            }
            let mut p: usize = 0;
            while p < out.len() && compare(&out[p], &x, column, direction) <= 0
                invariant
                    p <= out@.len(),
                    forall|j: int| 0 <= j < p ==> sort_cmp(out@[j], x, column, direction) <= 0,
                decreases out@.len() - p,
            {
                p = p + 1;
            }
            let ghost before = out@;
            proof {
                if p < before.len() {
                    lemma_cmp_antisym(before[p as int], x, column, direction);
                }
            }
            out.insert(p, x);
            proof {
                assert(x == orig[cnt]);
                pos = old_pos.insert(p as int, cnt);
                assert forall|k: int| 0 <= k < pos.len() implies 0 <= #[trigger] pos[k] < cnt + 1 && out@[k] == orig[pos[k]] by {
                    if k < p { assert(pos[k] == old_pos[k]); assert(out@[k] == before[k]); }
                    else if k > p { assert(pos[k] == old_pos[k - 1]); assert(out@[k] == before[k - 1]); }
                }
                assert forall|a: int, b: int| 0 <= a < b < out@.len()
                    && sort_cmp(#[trigger] out@[a], #[trigger] out@[b], column, direction) == 0 implies pos[a] < pos[b] by {
                    if a == p {
                        assert(out@[b] == before[b - 1]);
                        lemma_cmp_antisym(before[p as int], x, column, direction);
                        if b - 1 > p {
                            assert(le(before[p as int], before[b - 1]));
                            lemma_cmp_antisym(x, before[b - 1], column, direction);
                            lemma_cmp_antisym(before[p as int], before[b - 1], column, direction);
                            lemma_cmp_antisym(before[b - 1], x, column, direction);
                            if sort_cmp(x, before[b - 1], column, direction) == 0 {
                                lemma_cmp_trans(before[p as int], before[b - 1], x, column, direction);
                            }
                        }
                    } else if b == p {
                        assert(pos[a] == old_pos[a]);
                        assert(0 <= old_pos[a] < cnt);
                    } else {
                        let a2 = if a < p { a } else { a - 1 };
                        let b2 = if b < p { b } else { b - 1 };
                        assert(out@[a] == before[a2] && out@[b] == before[b2]);
                        assert(pos[a] == old_pos[a2] && pos[b] == old_pos[b2]);
                    }
                }
                cnt = cnt + 1;
                assert(self.torrents@ =~= orig.skip(cnt));
                assert forall|a: int, b: int| 0 <= a < b < hashes_of(out@).len()
                    implies hashes_of(out@)[a] != hashes_of(out@)[b] by {
                    let a2 = if a < p { a } else { a - 1 };
                    let b2 = if b < p { b } else { b - 1 };
                    if a == p {
                        assert(out@[b] == before[b - 1]);
                        assert(x.latest_state.info_hash@ != before[b - 1].latest_state.info_hash@);
                    } else if b == p {
                        assert(out@[a] == before[a]);
                        assert(x.latest_state.info_hash@ != before[a].latest_state.info_hash@);
                    } else {
                        assert(out@[a] == before[a2]);
                        assert(out@[b] == before[b2]);
                        assert(hashes_of(before)[a2] != hashes_of(before)[b2]);
                    }
                }
                assert forall|a: int, b: int| 0 <= a < out@.len() && 0 <= b < self.torrents@.len()
                    implies out@[a].latest_state.info_hash@ != self.torrents@[b].latest_state.info_hash@ by {
                    if a < p { assert(out@[a] == before[a]); }
                    else if a > p { assert(out@[a] == before[a - 1]); assert(self.torrents@[b] == rest[b + 1]); }
                    else { assert(self.torrents@[b] == rest[b + 1]); }
                    if a < p { assert(self.torrents@[b] == rest[b + 1]); }
                }
                assert forall|i: int| 0 <= i < out@.len() implies (#[trigger] out@[i]).wf() by {
                    if i < p { assert(out@[i] == before[i]); } else if i > p { assert(out@[i] == before[i - 1]); }
                }
                assert forall|a: int, b: int| 0 <= a < b < out@.len() implies #[trigger] le(out@[a], out@[b]) by {
                    if a < p && b == p {
                    } else if a == p {
                        let b0 = b - 1;
                        if b0 > p {
                            assert(le(before[p as int], before[b0]));
                            lemma_cmp_trans(x, before[p as int], before[b0], column, direction);
                        }
                    } else if a < p && b > p {
                        assert(le(before[a], before[b - 1]));
                    } else if a > p {
                        assert(le(before[a - 1], before[b - 1]));
                    } else {
                        assert(le(before[a], before[b]));
                    }
                }
            }
        }
        proof {
            assert(self.torrents@ =~= Seq::<TorrentDisplayState>::empty());
            assert(out@.to_multiset() == orig.to_multiset());
            assert forall|a: int, b: int| 0 <= a < b < out@.len()
                && sort_cmp(#[trigger] out@[a], #[trigger] out@[b], column, direction) == 0
                implies exists|ia: int, ib: int| 0 <= ia < ib < orig.len()
                    && #[trigger] orig[ia] == out@[a] && #[trigger] orig[ib] == out@[b] by {
                assert(orig[pos[a]] == out@[a] && orig[pos[b]] == out@[b]);
            }
        }
        self.torrents = out;
    }
}

} // verus!
