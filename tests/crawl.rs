use cafe_downloader::crawl::{
    advance_scan, get_first_id, get_latest_id, scan_continues, start_scan, CafeArticle,
    CafeBoardArticles, FetchOutcome, ScanState, StopPolicy,
};
use cafe_downloader::error::DownloaderError;

fn names(v: &[&str]) -> Vec<String> {
    v.iter().map(|s| s.to_string()).collect()
}

#[test]
fn first_id_of_empty_archive_is_one() {
    assert_eq!(get_first_id(&Vec::new()), Some(1));
}

#[test]
fn first_id_is_one_past_largest() {
    let v = names(&[
        "20200101_cafe_board_0003_a",
        "20200101_cafe_board_0001_b",
        "20200101_cafe_board_0004_c.txt",
        "20200101_cafe_board_0001_d",
        "20200101_cafe_board_0005_e",
    ]);
    assert_eq!(get_first_id(&v), Some(6));
}

#[test]
fn first_id_ignores_names_without_id() {
    let v = names(&["notes", "a_b_c", "a_b_c_x12_d", "x_y_z_+7"]);
    assert_eq!(get_first_id(&v), Some(8));
    let big = format!("a_b_c_{}", usize::MAX);
    assert_eq!(get_first_id(&vec![big]), None);
}

#[test]
fn latest_id_of_board() {
    let listing = CafeBoardArticles {
        articles: vec![
            CafeArticle { dataid: 10, board: "free".to_string() },
            CafeArticle { dataid: 99, board: "other".to_string() },
            CafeArticle { dataid: 12, board: "free".to_string() },
            CafeArticle { dataid: 11, board: "free".to_string() },
        ],
    };
    assert_eq!(get_latest_id(&listing, "free"), Ok(12));
    assert_eq!(get_latest_id(&listing, "none"), Err(DownloaderError::APILatestArticle));
}

#[test]
fn streak_of_five_misses_stops_scan() {
    let policy = StopPolicy::Streak { limit: 5 };
    let mut s = start_scan(1);
    let mut fetched = 0;
    while scan_continues(policy, s) {
        s = advance_scan(policy, s, FetchOutcome::Undecodable).unwrap();
        fetched += 1;
    }
    assert_eq!(fetched, 5);
    assert_eq!(s, ScanState { next_id: 6, streak: 5 });
}

#[test]
fn success_resets_streak() {
    let policy = StopPolicy::Streak { limit: 5 };
    let mut s = start_scan(1);
    for _ in 0..4 {
        s = advance_scan(policy, s, FetchOutcome::Deleted).unwrap();
    }
    assert_eq!(s.streak, 4);
    s = advance_scan(policy, s, FetchOutcome::Post).unwrap();
    assert_eq!(s, ScanState { next_id: 6, streak: 0 });
    s = advance_scan(policy, s, FetchOutcome::Rejected(DownloaderError::APINameMissing)).unwrap();
    assert_eq!(s.streak, 1);
    assert!(scan_continues(policy, s));
}

#[test]
fn bounded_scan_stops_past_ceiling_and_on_errors() {
    let policy = StopPolicy::Bounded { ceiling: 3 };
    let mut s = start_scan(3);
    assert!(scan_continues(policy, s));
    s = advance_scan(policy, s, FetchOutcome::Deleted).unwrap();
    assert!(!scan_continues(policy, s));
    let e = DownloaderError::APIException("X".to_string());
    assert_eq!(advance_scan(policy, start_scan(1), FetchOutcome::Rejected(e.clone())), Err(e));
    assert_eq!(
        advance_scan(policy, start_scan(1), FetchOutcome::Undecodable),
        Ok(ScanState { next_id: 2, streak: 0 })
    );
}

#[test]
fn not_authorized_ends_any_scan() {
    for policy in [StopPolicy::Bounded { ceiling: 10 }, StopPolicy::Streak { limit: 5 }] {
        assert_eq!(
            advance_scan(policy, start_scan(1), FetchOutcome::Rejected(DownloaderError::NotAuthorized)),
            Err(DownloaderError::NotAuthorized)
        );
    }
}
