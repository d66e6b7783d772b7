//! Per-torrent state as the engine reports it, and what the dashboard keeps
//! of it between ticks.

use vstd::prelude::*;
use std::collections::VecDeque;
use crate::disk_io::{
    calculate_thrash_score, record_operation, thrash_score, log_wf, op_wf, DiskIoOperation,
    TORRENT_LOG_CAPACITY,
};
use crate::stats::{last_window, push_capped};

verus! {

/// Entries kept in each per-torrent speed history.
pub const TORRENT_HISTORY_MAX: usize = 200;

/// What the user asked a torrent to do.
#[derive(Clone, Copy, Debug, PartialEq, Eq, Structural)]
pub enum TorrentControlState {
    Running,
    Paused,
    Deleting,
}

impl Default for TorrentControlState {
    fn default() -> (r: Self)
        ensures
            r == TorrentControlState::Running,
    {
        TorrentControlState::Running
    }
}

/// Which column header is selected: an index into the torrent or the peer headers.
#[derive(Clone, Copy, Debug, PartialEq, Eq, Structural)]
pub enum SelectedHeader {
    Torrent(usize),
    Peer(usize),
}

impl Default for SelectedHeader {
    fn default() -> (r: Self)
        ensures
            r == SelectedHeader::Torrent(0),
    {
        SelectedHeader::Torrent(0)
    }
}

/// The settings that the configuration screen edits.
#[derive(Clone, Copy, Debug, PartialEq, Eq, Structural)]
pub enum ConfigItem {
    ClientPort,
    DefaultDownloadFolder,
    WatchFolder,
    GlobalDownloadLimit,
    GlobalUploadLimit,
}

/// One connected peer as the engine reports it.
#[derive(Clone, Debug)]
pub struct PeerInfo {
    pub address: String,
    pub peer_id: Vec<u8>,
    pub am_choking: bool,
    pub peer_choking: bool,
    pub am_interested: bool,
    pub peer_interested: bool,
    pub bitfield: Vec<bool>,
    pub download_speed_bps: u64,
    pub upload_speed_bps: u64,
    pub total_downloaded: u64,
    pub total_uploaded: u64,
    pub last_action: String,
}

/// One torrent as its manager reports it each tick. Durations are in seconds.
#[derive(Clone, Debug)]
pub struct TorrentState {
    pub torrent_control_state: TorrentControlState,
    pub info_hash: Vec<u8>,
    pub torrent_or_magnet: String,
    pub torrent_name: String,
    pub download_path: String,
    pub number_of_successfully_connected_peers: usize,
    pub number_of_pieces_total: u32,
    pub number_of_pieces_completed: u32,
    pub download_speed_bps: u64,
    pub upload_speed_bps: u64,
    pub bytes_downloaded_this_tick: u64,
    pub bytes_uploaded_this_tick: u64,
    pub eta_secs: u64,
    pub peers: Vec<PeerInfo>,
    pub activity_message: String,
    pub next_announce_in_secs: u64,
}

impl TorrentState {
    /// A torrent known by its hash and source only, before its manager reports.
    pub fn placeholder(
        info_hash: Vec<u8>,
        torrent_or_magnet: String,
        torrent_name: String,
        download_path: String,
        number_of_pieces_total: u32,
        torrent_control_state: TorrentControlState,
    ) -> (r: Self)
        ensures
            r.info_hash@ == info_hash@,
            r.torrent_or_magnet@ == torrent_or_magnet@,
            r.torrent_name@ == torrent_name@,
            r.download_path@ == download_path@,
            r.number_of_pieces_total == number_of_pieces_total,
            r.number_of_pieces_completed == 0,
            r.torrent_control_state == torrent_control_state,
            r.number_of_successfully_connected_peers == 0,
            r.download_speed_bps == 0 && r.upload_speed_bps == 0,
            r.bytes_downloaded_this_tick == 0 && r.bytes_uploaded_this_tick == 0,
            r.peers@.len() == 0,
    {
        TorrentState {
            torrent_control_state,
            info_hash,
            torrent_or_magnet,
            torrent_name,
            download_path,
            number_of_successfully_connected_peers: 0,
            number_of_pieces_total,
            number_of_pieces_completed: 0,
            download_speed_bps: 0,
            upload_speed_bps: 0,
            bytes_downloaded_this_tick: 0,
            bytes_uploaded_this_tick: 0,
            eta_secs: 0,
            peers: Vec::new(),
            activity_message: String::new(),
            next_announce_in_secs: 0,
        }
    }
}

/// What the dashboard keeps of one torrent.
#[derive(Debug)]
pub struct TorrentDisplayState {
    pub latest_state: TorrentState,
    pub download_history: Vec<u64>,
    pub upload_history: Vec<u64>,
    pub bytes_read_this_tick: u64,
    pub bytes_written_this_tick: u64,
    pub disk_read_speed_bps: u64,
    pub disk_write_speed_bps: u64,
    pub disk_read_history_log: VecDeque<DiskIoOperation>,
    pub disk_write_history_log: VecDeque<DiskIoOperation>,
    pub disk_read_thrash_score: u64,
    pub disk_write_thrash_score: u64,
    pub smoothed_download_speed_bps: u64,
    pub smoothed_upload_speed_bps: u64,
}

pub open spec fn sat_add_spec(a: int, b: int) -> int {
    saturating_sum(a, b)
}

pub open spec fn saturating_sum(a: int, b: int) -> int {
    if a + b > u64::MAX { u64::MAX as int } else { a + b }
}

/// Bits per second from the bytes of a one-second tick, capped at `u64::MAX`.
pub open spec fn bits_of(bytes: int) -> int {
    if bytes * 8 > u64::MAX { u64::MAX as int } else { bytes * 8 }
}

fn bits_per_second(bytes: u64) -> (r: u64)
    ensures
        r == bits_of(bytes as int),
{
    if bytes > u64::MAX / 8 { u64::MAX } else { bytes * 8 }
}

/// The fields of an entry that a manager's report sets: counters, speeds,
/// peers and the activity line, and the name when the report carries one.
pub open spec fn reported(m: TorrentState, n: TorrentDisplayState) -> bool {
    &&& n.latest_state.number_of_successfully_connected_peers == m.number_of_successfully_connected_peers
    &&& n.latest_state.number_of_pieces_total == m.number_of_pieces_total
    &&& n.latest_state.number_of_pieces_completed == m.number_of_pieces_completed
    &&& n.latest_state.download_speed_bps == m.download_speed_bps
    &&& n.latest_state.upload_speed_bps == m.upload_speed_bps
    &&& n.latest_state.eta_secs == m.eta_secs
    &&& n.latest_state.next_announce_in_secs == m.next_announce_in_secs
    &&& (m.torrent_name@.len() != 0 ==> n.latest_state.torrent_name == m.torrent_name)
    &&& n.latest_state.peers == m.peers
    &&& n.latest_state.activity_message == m.activity_message
    &&& n.smoothed_download_speed_bps == m.download_speed_bps
    &&& n.smoothed_upload_speed_bps == m.upload_speed_bps
}

/// Entry `o` after taking in report `m` is `n`: the reported fields are
/// set, the speeds join the capped histories, and the rest is kept.
pub open spec fn took_report(o: TorrentDisplayState, m: TorrentState, n: TorrentDisplayState) -> bool {
    &&& reported(m, n)
    &&& (m.torrent_name@.len() == 0 ==> n.latest_state.torrent_name == o.latest_state.torrent_name)
    &&& n.latest_state.info_hash == o.latest_state.info_hash
    &&& n.latest_state.torrent_or_magnet == o.latest_state.torrent_or_magnet
    &&& n.latest_state.download_path == o.latest_state.download_path
    &&& n.latest_state.torrent_control_state == o.latest_state.torrent_control_state
    &&& n.download_history@ == last_window(o.download_history@.push(m.download_speed_bps), TORRENT_HISTORY_MAX as int)
    &&& n.upload_history@ == last_window(o.upload_history@.push(m.upload_speed_bps), TORRENT_HISTORY_MAX as int)
    &&& n.disk_read_history_log == o.disk_read_history_log
    &&& n.disk_write_history_log == o.disk_write_history_log
    &&& n.bytes_read_this_tick == o.bytes_read_this_tick
    &&& n.bytes_written_this_tick == o.bytes_written_this_tick
}

impl TorrentDisplayState {
    pub open spec fn wf(&self) -> bool {
        &&& log_wf(self.disk_read_history_log@)
        &&& log_wf(self.disk_write_history_log@)
    }

    /// A fresh entry for a torrent, with empty histories and logs.
    pub fn new(latest_state: TorrentState) -> (r: Self)
        ensures
            r.wf(),
            r.latest_state == latest_state,
            r.download_history@.len() == 0 && r.upload_history@.len() == 0,
            r.disk_read_history_log@.len() == 0 && r.disk_write_history_log@.len() == 0,
            r.bytes_read_this_tick == 0 && r.bytes_written_this_tick == 0,
            r.smoothed_download_speed_bps == 0 && r.smoothed_upload_speed_bps == 0,
    {
        TorrentDisplayState {
            latest_state,
            download_history: Vec::new(),
            upload_history: Vec::new(),
            bytes_read_this_tick: 0,
            bytes_written_this_tick: 0,
            disk_read_speed_bps: 0,
            disk_write_speed_bps: 0,
            disk_read_history_log: VecDeque::new(),
            disk_write_history_log: VecDeque::new(),
            disk_read_thrash_score: 0,
            disk_write_thrash_score: 0,
            smoothed_download_speed_bps: 0,
            smoothed_upload_speed_bps: 0,
        }
    }

    /// Takes in a report of the torrent's manager: counters, speeds and
    /// peers are replaced, the name only when the report carries one, and
    /// the speeds join the capped histories.
    pub fn apply_update(&mut self, message: TorrentState)
        ensures
            took_report(*old(self), message, *final(self)),
    {
        self.latest_state.number_of_successfully_connected_peers = message.number_of_successfully_connected_peers;
        self.latest_state.number_of_pieces_total = message.number_of_pieces_total;
        self.latest_state.number_of_pieces_completed = message.number_of_pieces_completed;
        self.latest_state.download_speed_bps = message.download_speed_bps;
        self.latest_state.upload_speed_bps = message.upload_speed_bps;
        self.latest_state.eta_secs = message.eta_secs;
        self.latest_state.next_announce_in_secs = message.next_announce_in_secs;
        if !message.torrent_name.as_str().is_empty() {
            self.latest_state.torrent_name = message.torrent_name;
        }
        push_capped(&mut self.download_history, message.download_speed_bps, TORRENT_HISTORY_MAX);
        push_capped(&mut self.upload_history, message.upload_speed_bps, TORRENT_HISTORY_MAX);
        self.smoothed_download_speed_bps = message.download_speed_bps;
        self.smoothed_upload_speed_bps = message.upload_speed_bps;
        self.latest_state.peers = message.peers;
        self.latest_state.activity_message = message.activity_message;
    }

    /// Accounts a disk read that started: its bytes count for this tick and
    /// it joins the torrent's read log.
    pub fn record_read_started(&mut self, op: DiskIoOperation)
        requires
            old(self).wf(),
            op_wf(op),
        ensures
            final(self).wf(),
            final(self).bytes_read_this_tick == saturating_sum(old(self).bytes_read_this_tick as int, op.length as int),
            final(self).disk_read_history_log@ == seq![op].add(old(self).disk_read_history_log@).take(
                if old(self).disk_read_history_log@.len() + 1 <= TORRENT_LOG_CAPACITY {
                    (old(self).disk_read_history_log@.len() + 1) as int
                } else {
                    TORRENT_LOG_CAPACITY as int
                }),
            final(self).disk_write_history_log == old(self).disk_write_history_log,
            final(self).latest_state == old(self).latest_state,
    {
        self.bytes_read_this_tick = if op.length as u64 > u64::MAX - self.bytes_read_this_tick {
            u64::MAX
        } else {
            self.bytes_read_this_tick + op.length as u64
        };
        record_operation(&mut self.disk_read_history_log, op, TORRENT_LOG_CAPACITY);
    }

    /// Accounts a disk write that started: its bytes count for this tick and
    /// it joins the torrent's write log.
    pub fn record_write_started(&mut self, op: DiskIoOperation)
        requires
            old(self).wf(),
            op_wf(op),
        ensures
            final(self).wf(),
            final(self).bytes_written_this_tick == saturating_sum(old(self).bytes_written_this_tick as int, op.length as int),
            final(self).disk_write_history_log@ == seq![op].add(old(self).disk_write_history_log@).take(
                if old(self).disk_write_history_log@.len() + 1 <= TORRENT_LOG_CAPACITY {
                    (old(self).disk_write_history_log@.len() + 1) as int
                } else {
                    TORRENT_LOG_CAPACITY as int
                }),
            final(self).disk_read_history_log == old(self).disk_read_history_log,
            final(self).latest_state == old(self).latest_state,
    {
        self.bytes_written_this_tick = if op.length as u64 > u64::MAX - self.bytes_written_this_tick {
            u64::MAX
        } else {
            self.bytes_written_this_tick + op.length as u64
        };
        record_operation(&mut self.disk_write_history_log, op, TORRENT_LOG_CAPACITY);
    }

    /// Closes a one-second tick: disk speeds from this tick's bytes, the
    /// counters back to zero, and the thrash scores of the logs.
    pub fn end_tick(&mut self)
        requires
            old(self).wf(),
        ensures
            final(self).wf(),
            final(self).disk_read_speed_bps == bits_of(old(self).bytes_read_this_tick as int),
            final(self).disk_write_speed_bps == bits_of(old(self).bytes_written_this_tick as int),
            final(self).bytes_read_this_tick == 0,
            final(self).bytes_written_this_tick == 0,
            final(self).disk_read_thrash_score == thrash_score(old(self).disk_read_history_log@),
            final(self).disk_write_thrash_score == thrash_score(old(self).disk_write_history_log@),
            final(self).disk_read_history_log == old(self).disk_read_history_log,
            final(self).disk_write_history_log == old(self).disk_write_history_log,
            final(self).smoothed_download_speed_bps == old(self).smoothed_download_speed_bps,
            final(self).smoothed_upload_speed_bps == old(self).smoothed_upload_speed_bps,
            final(self).latest_state == old(self).latest_state,
    {
        self.disk_read_speed_bps = bits_per_second(self.bytes_read_this_tick);
        self.disk_write_speed_bps = bits_per_second(self.bytes_written_this_tick);
        self.bytes_read_this_tick = 0;
        self.bytes_written_this_tick = 0;
        self.disk_read_thrash_score = calculate_thrash_score(&self.disk_read_history_log);
        self.disk_write_thrash_score = calculate_thrash_score(&self.disk_write_history_log);
    }
}

} // verus!
