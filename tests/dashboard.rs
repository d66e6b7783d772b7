use torrent_engine::commands::{command_for_path, is_magnet_source, restore_order, should_process, AppCommand};
use torrent_engine::disk_io::DiskIoOperation;
use torrent_engine::engine::Dashboard;
use torrent_engine::graph::GraphDisplayMode;
use torrent_engine::info_hash::{decode_info_hash, info_hash_from_magnet, info_hash_of, verify_piece, InfoHashError};
use torrent_engine::limits::CalculatedLimits;
use torrent_engine::state::{SelectedHeader, TorrentControlState, TorrentDisplayState, TorrentState};
use torrent_engine::stats::{average_of_last, percentile, push_capped, sort_ascending};
use torrent_engine::torrents::{SortDirection, TorrentSortColumn, TorrentTable};

fn state(hash: u8, name: &str, path: &str) -> TorrentState {
    TorrentState::placeholder(vec![hash; 20], String::new(), name.to_string(), path.to_string(), 10, TorrentControlState::Running)
}

fn entry(hash: u8, name: &str, down: u64, path: &str) -> TorrentDisplayState {
    let mut d = TorrentDisplayState::new(state(hash, name, path));
    d.smoothed_download_speed_bps = down;
    d
}

#[test]
fn graph_modes_cycle_both_ways() {
    let mut m = GraphDisplayMode::default();
    assert_eq!(m, GraphDisplayMode::TenMinutes);
    assert_eq!(m.as_seconds(), 600);
    assert_eq!(m.to_string(), "10m");
    for _ in 0..8 {
        m = m.next();
    }
    assert_eq!(m, GraphDisplayMode::TenMinutes);
    assert_eq!(GraphDisplayMode::OneMinute.prev(), GraphDisplayMode::TwentyFourHours);
    assert_eq!(GraphDisplayMode::TwentyFourHours.next(), GraphDisplayMode::OneMinute);
    assert_eq!(GraphDisplayMode::TwentyFourHours.as_seconds(), 86_400);
    assert_eq!(GraphDisplayMode::ThreeHours.to_string(), "3h");
    assert_eq!(GraphDisplayMode::FiveMinutes.next().prev(), GraphDisplayMode::FiveMinutes);
}

#[test]
fn defaults_of_small_types() {
    assert_eq!(SelectedHeader::default(), SelectedHeader::Torrent(0));
    assert_eq!(TorrentControlState::default(), TorrentControlState::Running);
}

#[test]
fn watch_folder_files_map_to_commands() {
    assert_eq!(command_for_path("/w/a.torrent"), Some(AppCommand::AddTorrentFromFile("/w/a.torrent".to_string())));
    assert_eq!(command_for_path("/w/x.path"), Some(AppCommand::AddTorrentFromPathFile("/w/x.path".to_string())));
    assert_eq!(command_for_path("/w/m.magnet"), Some(AppCommand::AddMagnetFromFile("/w/m.magnet".to_string())));
    assert_eq!(command_for_path("/w/shutdown.cmd"), Some(AppCommand::ClientShutdown("/w/shutdown.cmd".to_string())));
    assert_eq!(command_for_path("/w/other.cmd"), None);
    assert_eq!(command_for_path("/w/a.torrent.tmp"), None);
    assert_eq!(command_for_path("/w/.torrent"), None);
    assert_eq!(command_for_path("/w.torrent/file"), None);
    assert_eq!(command_for_path("b.torrent"), Some(AppCommand::AddTorrentFromFile("b.torrent".to_string())));
}

#[test]
fn debounce_drops_quick_repeats() {
    assert!(should_process(None, 10));
    assert!(!should_process(Some(1000), 1499));
    assert!(should_process(Some(1000), 1500));
}

#[test]
fn info_hash_text_forms_decode() {
    let hex = "08ada5a7a6183aae1e09d831df6748d566095a10";
    let bytes = decode_info_hash(hex).unwrap();
    assert_eq!(bytes.len(), 20);
    assert_eq!(bytes[0], 0x08);
    assert_eq!(bytes[19], 0x10);
    let upper = decode_info_hash("08ADA5A7A6183AAE1E09D831DF6748D566095A10").unwrap();
    assert_eq!(upper, bytes);
    // base32 of twenty 0x00 bytes, in either case
    assert_eq!(decode_info_hash("AAAAAAAAAAAAAAAAAAAAAAAAAAAAAAAA").unwrap(), vec![0u8; 20]);
    assert_eq!(decode_info_hash("aaaaaaaaaaaaaaaaaaaaaaaaaaaaaaab").unwrap()[19], 0x01);
    assert_eq!(decode_info_hash("zz").unwrap_err(), InfoHashError::InvalidLength(2));
    assert_eq!(decode_info_hash("g8ada5a7a6183aae1e09d831df6748d566095a10").unwrap_err(), InfoHashError::InvalidHex);
    assert_eq!(decode_info_hash("11111111111111111111111111111111").unwrap_err(), InfoHashError::InvalidBase32);
}

#[test]
fn magnet_links_name_their_hash() {
    let link = "magnet:?xt=urn:btih:08ada5a7a6183aae1e09d831df6748d566095a10&dn=Sintel";
    let h = info_hash_from_magnet(link).unwrap();
    assert_eq!(h[0], 0x08);
    assert_eq!(info_hash_from_magnet("http://example.com").unwrap_err(), InfoHashError::MissingHash);
    assert_eq!(info_hash_from_magnet("magnet:?dn=nohash").unwrap_err(), InfoHashError::MissingHash);
}

#[test]
fn sha1_digests_match_known_values() {
    let d = info_hash_of(b"abc");
    assert_eq!(
        d,
        vec![0xa9, 0x99, 0x3e, 0x36, 0x47, 0x06, 0x81, 0x6a, 0xba, 0x3e, 0x25, 0x71, 0x78, 0x50, 0xc2, 0x6c, 0x9c, 0xd0, 0xd8, 0x9d]
    );
    assert!(verify_piece(b"abc", &d));
    assert!(!verify_piece(b"abd", &d));
}

#[test]
fn order_statistics_and_averages() {
    let v: Vec<u64> = vec![5, 1, 4, 1, 3];
    assert_eq!(sort_ascending(&v), vec![1, 1, 3, 4, 5]);
    let samples: Vec<u64> = (1..=100).rev().collect();
    // rank 95 of 1..=100 is 96
    assert_eq!(percentile(&samples, 95), 96);
    assert_eq!(average_of_last(&vec![1, 2, 3, 10, 20], 2), 15);
    assert_eq!(average_of_last(&vec![], 60), 0);
    let mut h = vec![1, 2, 3];
    push_capped(&mut h, 4, 3);
    assert_eq!(h, vec![2, 3, 4]);
}

#[test]
fn torrent_table_keeps_one_entry_per_hash() {
    let mut t = TorrentTable::new();
    assert!(t.add(entry(1, "b", 5, "/data/x/b")));
    assert!(!t.add(entry(1, "other", 7, "/data/x/o")));
    assert!(t.add(entry(2, "a", 9, "/data/y/a")));
    assert_eq!(t.torrents.len(), 2);
    assert_eq!(t.position_of(&[2u8; 20]), Some(1));
    t.selected_torrent_index = 1;
    let removed = t.remove(&[2u8; 20]).unwrap();
    assert_eq!(removed.latest_state.torrent_name, "a");
    assert_eq!(t.selected_torrent_index, 0);
    assert!(t.remove(&[9u8; 20]).is_none());
}

#[test]
fn torrent_list_sorts_by_column_and_direction() {
    let mut t = TorrentTable::new();
    t.add(entry(1, "beta", 5, "/d/1"));
    t.add(entry(2, "alpha", 9, "/d/2"));
    t.add(entry(3, "gamma", 1, "/d/3"));
    let names = |t: &TorrentTable| t.torrents.iter().map(|d| d.latest_state.torrent_name.clone()).collect::<Vec<_>>();
    t.sort_torrent_list(TorrentSortColumn::Name, SortDirection::Ascending);
    assert_eq!(names(&t), vec!["alpha", "beta", "gamma"]);
    t.sort_torrent_list(TorrentSortColumn::Name, SortDirection::Descending);
    assert_eq!(names(&t), vec!["gamma", "beta", "alpha"]);
    t.sort_torrent_list(TorrentSortColumn::Down, SortDirection::Descending);
    assert_eq!(names(&t), vec!["alpha", "beta", "gamma"]);
    t.sort_torrent_list(TorrentSortColumn::Down, SortDirection::Ascending);
    assert_eq!(names(&t), vec!["gamma", "beta", "alpha"]);
}

#[test]
fn most_common_download_folder() {
    let mut t = TorrentTable::new();
    assert_eq!(t.find_most_common_download_path(), None);
    t.add(entry(1, "a", 0, "/data/movies/a"));
    t.add(entry(2, "b", 0, "/data/music/b"));
    t.add(entry(3, "c", 0, "/data/music/c"));
    let p: String = t.find_most_common_download_path().unwrap().into_iter().collect();
    assert_eq!(p, "/data/music");
}

#[test]
fn dashboard_tick_aggregates_speeds_and_objective() {
    let limits = CalculatedLimits { reserve_permits: 0, max_connected_peers: 100, disk_read_permits: 20, disk_write_permits: 20 };
    let mut d = Dashboard::new(limits);
    let mut report = state(4, "t", "/d/t");
    report.download_speed_bps = 800;
    report.upload_speed_bps = 100;
    report.bytes_downloaded_this_tick = 1000;
    report.number_of_pieces_completed = 3;
    d.on_torrent_update(report);
    assert_eq!(d.session_total_downloaded, 1000);
    d.on_disk_started(&[4u8; 20], false, DiskIoOperation { offset: 0, length: 100 }, 5);
    d.on_disk_finished(false, 7);
    d.stats_tick(1);
    assert_eq!(d.total_download_history, vec![800]);
    assert_eq!(d.avg_upload_history, vec![100]);
    assert_eq!(d.disk_read_history, vec![800]);
    assert_eq!(d.avg_disk_read_bps, 800);
    assert!(!d.tuner.is_seeding);
    assert_eq!(d.disk.read_iops, 1);
    let (next, _) = d.tuning_tick();
    assert_eq!(d.limits, next);
    assert_eq!(
        next.reserve_permits + next.max_connected_peers + next.disk_read_permits + next.disk_write_permits,
        140
    );
}

#[test]
fn saved_torrents_restore_validated_first() {
    assert_eq!(restore_order(&vec![false, true, false, true]), vec![1, 3, 0, 2]);
    assert!(restore_order(&vec![]).is_empty());
    assert!(is_magnet_source("magnet:?xt=urn:btih:00"));
    assert!(!is_magnet_source("/data/a.torrent"));
    assert!(!is_magnet_source("magnet"));
}

#[test]
fn magnet_link_yields_decoded_hash() {
    let hex = "08ada5a7a6183aae1e09d831df6748d566095a10";
    let link = format!("magnet:?dn=x&xt=urn:btih:{}", hex);
    assert_eq!(info_hash_from_magnet(&link).unwrap(), decode_info_hash(hex).unwrap());
    assert_eq!(info_hash_from_magnet("magnet:?xt=urn:btih:abc").unwrap_err(), InfoHashError::InvalidLength(3));
}

#[test]
fn equal_keys_keep_their_order_when_sorted() {
    let mut t = TorrentTable::new();
    t.add(entry(1, "x", 5, "/d/1"));
    t.add(entry(2, "y", 9, "/d/2"));
    t.add(entry(3, "z", 5, "/d/3"));
    t.add(entry(4, "w", 5, "/d/4"));
    t.sort_torrent_list(TorrentSortColumn::Down, SortDirection::Descending);
    let hashes: Vec<u8> = t.torrents.iter().map(|d| d.latest_state.info_hash[0]).collect();
    assert_eq!(hashes, vec![2, 1, 3, 4]);
}
