use torrent_engine::manager::{fair_share, next_announce_secs, redial_delay_secs};

#[test]
fn connection_cap_is_fair_share() {
    assert_eq!(fair_share(100, 4), 25);
    assert_eq!(fair_share(3, 4), 1);
    assert_eq!(fair_share(50, 0), 50);
}

#[test]
fn announce_interval_follows_tracker() {
    assert_eq!(next_announce_secs(Some(900), Some(60), false), 900);
    assert_eq!(next_announce_secs(None, Some(60), false), 1800);
    assert_eq!(next_announce_secs(Some(900), Some(60), true), 60);
    assert_eq!(next_announce_secs(Some(900), None, true), 1800);
}

#[test]
fn redial_backoff_doubles_to_ten_minutes() {
    let got: Vec<u64> = (0..9).map(redial_delay_secs).collect();
    assert_eq!(got, vec![5, 10, 20, 40, 80, 160, 320, 600, 600]);
}
