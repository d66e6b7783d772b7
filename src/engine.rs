//! The dashboard's state as the main loop drives it: reports from torrent
//! managers, disk events, the one-second statistics tick and the tuning
//! step. The loop itself (channels, timers, drawing) stays outside.

use vstd::prelude::*;
use crate::disk_io::{op_wf, DiskIoOperation};
use crate::limits::{all_trades_allowed, trade_allowed, traded, CalculatedLimits, TradeOutcome, total_permits};
use crate::state::{reported, took_report, TorrentState};
use vstd::relations::sorted_by;
use crate::stats::{average_of_last, last_window, mean_of_last, push_capped};
use crate::telemetry::{seq_max, tick_closed, DiskTelemetry, MINUTES_HISTORY_MAX, SECONDS_HISTORY_MAX};
use crate::torrents::{disk_started, sort_le, SortDirection, TorrentSortColumn, TorrentTable};
use crate::tuner::{evaluated, penalized_score, TunerState, SCORE_WINDOW_SECS, TUNING_PERIOD_SECS};

verus! {

/// Entries kept in the total speed histories.
pub const TOTAL_HISTORY_MAX: usize = 200;
/// Seconds of disk speed samples kept for the average.
pub const DISK_HISTORY_MAX: usize = 60;

pub struct Dashboard {
    pub limits: CalculatedLimits,
    pub torrents: TorrentTable,
    pub disk: DiskTelemetry,
    pub tuner: TunerState,
    pub torrent_sort: (TorrentSortColumn, SortDirection),
    pub total_download_history: Vec<u64>,
    pub total_upload_history: Vec<u64>,
    pub avg_download_history: Vec<u64>,
    pub avg_upload_history: Vec<u64>,
    pub disk_read_history: Vec<u64>,
    pub disk_write_history: Vec<u64>,
    pub avg_disk_read_bps: u64,
    pub avg_disk_write_bps: u64,
    pub minute_avg_dl_history: Vec<u64>,
    pub minute_avg_ul_history: Vec<u64>,
    pub session_total_downloaded: u64,
    pub session_total_uploaded: u64,
}

pub open spec fn sat(a: int, b: int) -> int {
    if a + b > u64::MAX { u64::MAX as int } else { a + b }
}

fn sat_add(a: u64, b: u64) -> (r: u64)
    ensures
        r == sat(a as int, b as int),
{
    if b > u64::MAX - a { u64::MAX } else { a + b }
}

impl Dashboard {
    pub open spec fn wf(&self) -> bool {
        &&& self.torrents.wf()
        &&& self.disk.wf()
    }

    pub fn new(limits: CalculatedLimits) -> (r: Self)
        ensures
            r.wf(),
            r.limits == limits,
            r.tuner.last_tuning_limits == limits,
            r.torrents.torrents@.len() == 0,
    {
        Dashboard {
            limits,
            torrents: TorrentTable::new(),
            disk: DiskTelemetry::new(),
            tuner: TunerState::new(limits),
            torrent_sort: (TorrentSortColumn::Up, SortDirection::Descending),
            total_download_history: Vec::new(),
            total_upload_history: Vec::new(),
            avg_download_history: Vec::new(),
            avg_upload_history: Vec::new(),
            disk_read_history: Vec::new(),
            disk_write_history: Vec::new(),
            avg_disk_read_bps: 0,
            avg_disk_write_bps: 0,
            minute_avg_dl_history: Vec::new(),
            minute_avg_ul_history: Vec::new(),
            session_total_downloaded: 0,
            session_total_uploaded: 0,
        }
    }

    /// A report from a torrent's manager: session totals grow by the
    /// bytes of its tick, the torrent's entry takes the report, and the
    /// list is sorted again.
    pub fn on_torrent_update(&mut self, message: TorrentState)
        requires
            old(self).wf(),
        ensures
            final(self).wf(),
            final(self).session_total_downloaded == sat(old(self).session_total_downloaded as int, message.bytes_downloaded_this_tick as int),
            final(self).session_total_uploaded == sat(old(self).session_total_uploaded as int, message.bytes_uploaded_this_tick as int),
            crate::torrents::hashes_of(final(self).torrents.torrents@).contains(message.info_hash@),
            exists|j: int| 0 <= j < final(self).torrents.torrents@.len()
                && final(self).torrents.torrents@[j].latest_state.info_hash@ == message.info_hash@
                && #[trigger] reported(message, final(self).torrents.torrents@[j]),
            sorted_by(final(self).torrents.torrents@, sort_le(old(self).torrent_sort.0, old(self).torrent_sort.1)),
            final(self).torrent_sort == old(self).torrent_sort,
            final(self).limits == old(self).limits,
    {
        self.session_total_downloaded = sat_add(self.session_total_downloaded, message.bytes_downloaded_this_tick);
        self.session_total_uploaded = sat_add(self.session_total_uploaded, message.bytes_uploaded_this_tick);
        let ghost h = message.info_hash@;
        let ghost m = message;
        let ghost pre = self.torrents.torrents@;
        let added = self.torrents.apply_update(message);
        let (column, direction) = self.torrent_sort;
        let ghost before = self.torrents.torrents@;
        self.torrents.sort_torrent_list(column, direction);
        proof {
            let i = if added {
                before.len() - 1
            } else {
                choose|i: int| 0 <= i < pre.len() && pre[i].latest_state.info_hash@ == h
                    && before == pre.update(i, before[i]) && #[trigger] took_report(pre[i], m, before[i])
            };
            assert(0 <= i < before.len());
            assert(before[i].latest_state.info_hash@ == h && reported(m, before[i]));
            let t = before[i];
            broadcast use vstd::seq_lib::group_to_multiset_ensures;
            assert(before.contains(t));
            assert(before.to_multiset().count(t) > 0);
            assert(self.torrents.torrents@.to_multiset().count(t) > 0);
            assert(self.torrents.torrents@.contains(t));
            let j = choose|j: int| 0 <= j < self.torrents.torrents@.len() && self.torrents.torrents@[j] == t;
            assert(crate::torrents::hashes_of(self.torrents.torrents@)[j] == h);
            assert(reported(m, self.torrents.torrents@[j]));
        }
    }

    /// A disk operation started at `now_ms` for a torrent.
    pub fn on_disk_started(&mut self, info_hash: &[u8], is_write: bool, op: DiskIoOperation, now_ms: u64)
        requires
            old(self).wf(),
            op_wf(op),
        ensures
            final(self).wf(),
            final(self).limits == old(self).limits,
            crate::torrents::hashes_of(old(self).torrents.torrents@).contains(info_hash@) ==> exists|i: int|
                0 <= i < old(self).torrents.torrents@.len()
                && old(self).torrents.torrents@[i].latest_state.info_hash@ == info_hash@
                && final(self).torrents.torrents@ == old(self).torrents.torrents@.update(i, final(self).torrents.torrents@[i])
                && #[trigger] disk_started(old(self).torrents.torrents@[i], is_write, op, final(self).torrents.torrents@[i]),
            !crate::torrents::hashes_of(old(self).torrents.torrents@).contains(info_hash@)
                ==> final(self).torrents.torrents@ == old(self).torrents.torrents@,
            is_write ==> final(self).disk.write_op_start_ms@ == seq![now_ms].add(old(self).disk.write_op_start_ms@)
                && final(self).disk.global_disk_write_history_log@[0] == op,
            !is_write ==> final(self).disk.read_op_start_ms@ == seq![now_ms].add(old(self).disk.read_op_start_ms@)
                && final(self).disk.global_disk_read_history_log@[0] == op,
            final(self).torrents.torrents@.len() == old(self).torrents.torrents@.len(),
    {
        if is_write {
            self.disk.on_write_started(op, now_ms);
        } else {
            self.disk.on_read_started(op, now_ms);
        }
        self.torrents.record_disk_started(info_hash, is_write, op);
    }

    /// A disk operation finished at `now_ms`.
    pub fn on_disk_finished(&mut self, is_write: bool, now_ms: u64)
        requires
            old(self).wf(),
        ensures
            final(self).wf(),
            final(self).limits == old(self).limits,
            is_write ==> final(self).disk.writes_completed_this_tick == if old(self).disk.writes_completed_this_tick == u32::MAX {
                u32::MAX as int } else { old(self).disk.writes_completed_this_tick + 1 },
            !is_write ==> final(self).disk.reads_completed_this_tick == if old(self).disk.reads_completed_this_tick == u32::MAX {
                u32::MAX as int } else { old(self).disk.reads_completed_this_tick + 1 },
    {
        if is_write {
            self.disk.on_write_finished(now_ms);
        } else {
            self.disk.on_read_finished(now_ms);
        }
    }

    /// The once-a-second tick. `run_time` is the process's age in seconds.
    pub fn stats_tick(&mut self, run_time: u64)
        requires
            old(self).wf(),
        ensures
            final(self).wf(),
            final(self).limits == old(self).limits,
            ({
                let (dl, ul) = (final(self).total_download_history@.last(), final(self).total_upload_history@.last());
                &&& final(self).avg_download_history@ == last_window(old(self).avg_download_history@.push(dl), SECONDS_HISTORY_MAX as int)
                &&& final(self).avg_upload_history@ == last_window(old(self).avg_upload_history@.push(ul), SECONDS_HISTORY_MAX as int)
            }),
            final(self).total_download_history@.len() > 0,
            final(self).avg_disk_read_bps == mean_of_last(final(self).disk_read_history@, DISK_HISTORY_MAX as int),
            final(self).avg_disk_write_bps == mean_of_last(final(self).disk_write_history@, DISK_HISTORY_MAX as int),
            final(self).tuner.is_seeding == !exists|i: int| 0 <= i < old(self).torrents.torrents@.len()
                && #[trigger] old(self).torrents.torrents@[i].latest_state.number_of_pieces_completed
                    < old(self).torrents.torrents@[i].latest_state.number_of_pieces_total,
            tick_closed(old(self).disk, final(self).disk),
            run_time > 0 && run_time % 60 == 0 ==> {
                &&& final(self).disk.minute_disk_backoff_history_ms@ == last_window(
                    old(self).disk.minute_disk_backoff_history_ms@.push(
                        seq_max(last_window(final(self).disk.disk_backoff_history_ms@, 60)) as u64),
                    MINUTES_HISTORY_MAX as int)
                &&& final(self).minute_avg_dl_history@ == last_window(old(self).minute_avg_dl_history@.push(
                    mean_of_last(final(self).avg_download_history@, 60) as u64), MINUTES_HISTORY_MAX as int)
                &&& final(self).minute_avg_ul_history@ == last_window(old(self).minute_avg_ul_history@.push(
                    mean_of_last(final(self).avg_upload_history@, 60) as u64), MINUTES_HISTORY_MAX as int)
            },
            !(run_time > 0 && run_time % 60 == 0) ==> final(self).disk.minute_disk_backoff_history_ms == old(self).disk.minute_disk_backoff_history_ms
                && final(self).minute_avg_dl_history == old(self).minute_avg_dl_history
                && final(self).minute_avg_ul_history == old(self).minute_avg_ul_history,
    {
        let leeching = self.torrents.is_leeching();
        self.disk.end_tick();
        let (read_bps, write_bps) = self.torrents.end_tick_all();
        push_capped(&mut self.disk_read_history, read_bps, DISK_HISTORY_MAX);
        push_capped(&mut self.disk_write_history, write_bps, DISK_HISTORY_MAX);
        self.avg_disk_read_bps = average_of_last(&self.disk_read_history, DISK_HISTORY_MAX);
        self.avg_disk_write_bps = average_of_last(&self.disk_write_history, DISK_HISTORY_MAX);
        let (dl, ul) = self.torrents.total_speeds();
        push_capped(&mut self.total_download_history, dl, TOTAL_HISTORY_MAX);
        push_capped(&mut self.total_upload_history, ul, TOTAL_HISTORY_MAX);
        push_capped(&mut self.avg_download_history, dl, SECONDS_HISTORY_MAX);
        push_capped(&mut self.avg_upload_history, ul, SECONDS_HISTORY_MAX);
        if run_time > 0 && run_time % 60 == 0 {
            self.disk.roll_minute();
            let mdl = average_of_last(&self.avg_download_history, 60);
            let mul = average_of_last(&self.avg_upload_history, 60);
            push_capped(&mut self.minute_avg_dl_history, mdl, MINUTES_HISTORY_MAX);
            push_capped(&mut self.minute_avg_ul_history, mul, MINUTES_HISTORY_MAX);
        }
        self.tuner.observe_objective(!leeching, self.limits);
    }

    /// The tuning step: scores the period on download speed while leeching
    /// and upload speed while seeding, falls back to the best limits when the
    /// period did not improve, and applies the next trial limits, which it
    /// returns with the trade it made.
    pub fn tuning_tick(&mut self) -> (r: (CalculatedLimits, TradeOutcome))
        requires
            old(self).wf(),
        ensures
            final(self).wf(),
            final(self).limits == r.0,
            final(self).torrents == old(self).torrents,
            ({
                let h = if old(self).tuner.is_seeding { old(self).avg_upload_history@ } else { old(self).avg_download_history@ };
                let score = penalized_score(mean_of_last(h, SCORE_WINDOW_SECS as int),
                    old(self).disk.global_seek_cost_micros as int, old(self).disk.adaptive_max_seek_cost_micros as int);
                let e = evaluated(old(self).tuner, old(self).limits, score);
                &&& final(self).tuner == (TunerState { tuning_countdown: TUNING_PERIOD_SECS, ..e.0 })
                &&& total_permits(r.0) == total_permits(e.1)
                &&& match r.1 {
                    TradeOutcome::Traded { amount, source, dest, attempt } =>
                        trade_allowed(e.1, source, dest, amount as int) && r.0 == traded(e.1, source, dest, amount as int),
                    TradeOutcome::Skipped => r.0 == e.1,
                }
                &&& all_trades_allowed(e.1) ==> r.1 is Traded
            }),
    {
        let history = if self.tuner.is_seeding { &self.avg_upload_history } else { &self.avg_download_history };
        let (next, outcome) = self.tuner.tune(self.limits, history, self.disk.global_seek_cost_micros, self.disk.adaptive_max_seek_cost_micros);
        self.limits = next;
        (next, outcome)
    }
}

} // verus!
