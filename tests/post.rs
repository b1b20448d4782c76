use cafe_downloader::config::{default_num_processes, CafeConfig, Config};
use cafe_downloader::crawl::FetchOutcome;
use cafe_downloader::error::DownloaderError;
use cafe_downloader::post::{
    classify_response, plan_downloads, post_prefix, raw_post_prefix, text_file_name,
    truncate_graphemes, truncate_str_to_length, CafeAddFiles, CafeApiResponse, CafeFile,
};

fn response() -> CafeApiResponse {
    CafeApiResponse {
        addfiles: None,
        image_list: None,
        name: Some("title".to_string()),
        date: Some("20200102123000".to_string()),
        content: Some("body".to_string()),
        exception: None,
    }
}

#[test]
fn assets_get_image_rank_or_attachment_index() {
    let mut r = response();
    r.image_list = Some(vec!["http://x/a.jpg".to_string(), "http://x/b.jpg".to_string()]);
    r.addfiles = Some(CafeAddFiles {
        addfile: vec![
            CafeFile { downurl: "http://y/b.jpg".to_string(), filetype: "jpg".to_string() },
            CafeFile { downurl: "http://y/c.jpg".to_string(), filetype: "jpg".to_string() },
        ],
    });
    let tasks = plan_downloads("p", &r);
    assert_eq!(tasks.len(), 2);
    assert_eq!(tasks[0].file_name, "p_img002.jpg");
    assert_eq!(tasks[0].url, "http://y/b.jpg");
    assert_eq!(tasks[1].file_name, "p_attach001.jpg");
}

#[test]
fn attachments_are_numbered_in_order() {
    let mut r = response();
    r.addfiles = Some(CafeAddFiles {
        addfile: vec![
            CafeFile { downurl: "u/1.pdf".to_string(), filetype: "pdf".to_string() },
            CafeFile { downurl: "u/2.zip".to_string(), filetype: "zip".to_string() },
        ],
    });
    let tasks = plan_downloads("x", &r);
    assert_eq!(tasks[0].file_name, "x_attach001.pdf");
    assert_eq!(tasks[1].file_name, "x_attach002.zip");
    assert!(plan_downloads("x", &response()).is_empty());
    assert!(CafeAddFiles::new().addfile.is_empty());
}

#[test]
fn classify_exception_codes() {
    let mut r = response();
    assert_eq!(classify_response(&r), FetchOutcome::Post);
    r.exception = Some("MCAFE_NOT_AUTHENTICATED".to_string());
    assert_eq!(classify_response(&r), FetchOutcome::Rejected(DownloaderError::NotAuthorized));
    r.exception = Some("MCAFE_BBS_BULLETIN_READ_DELALREADY".to_string());
    assert_eq!(classify_response(&r), FetchOutcome::Deleted);
    r.exception = Some("OTHER".to_string());
    assert_eq!(
        classify_response(&r),
        FetchOutcome::Rejected(DownloaderError::APIException("OTHER".to_string()))
    );
}

#[test]
fn classify_missing_fields() {
    let mut r = response();
    r.name = None;
    assert_eq!(classify_response(&r), FetchOutcome::Rejected(DownloaderError::APINameMissing));
    r.date = None;
    assert_eq!(classify_response(&r), FetchOutcome::Rejected(DownloaderError::APIDateMissing));
}

#[test]
fn raw_prefix_fields() {
    assert_eq!(raw_post_prefix("20200102123000", "cafe", "board", 7, "t"), "20200102_cafe_board_0007_t");
    assert_eq!(raw_post_prefix("2020", "c", "b", 123456, ""), "2020_c_b_123456_");
}

#[test]
fn prefix_is_sanitized() {
    assert_eq!(
        post_prefix("20200102123000", "cafe", "board", 42, "a/b:c?", false),
        "20200102_cafe_board_0042_abc"
    );
    let long = "가".repeat(150);
    let p = post_prefix("20200102123000", "cafe", "board", 1, &long, false);
    assert_eq!(p, format!("20200102_cafe_board_0001_{}", "가".repeat(76)));
    assert!(p.len() <= 255);
}

#[test]
fn title_is_cut_at_grapheme_boundaries() {
    assert_eq!(truncate_str_to_length("hello", 3), "hel");
    assert_eq!(truncate_str_to_length("가나다", 2), "가나");
    assert_eq!(truncate_str_to_length("가나다", 7), "가나다");
    assert_eq!(truncate_str_to_length("e\u{301}x", 1), "e\u{301}");
    assert_eq!(truncate_str_to_length("e\u{301}x", 0), "");
    let long = "a".repeat(150);
    assert_eq!(truncate_str_to_length(&long, 100), "a".repeat(100));
    let gs = vec!["ab".to_string(), "c".to_string(), "d".to_string()];
    assert_eq!(truncate_graphemes(&gs, 2), "abc");
    assert_eq!(truncate_graphemes(&gs, 5), "abcd");
    assert_eq!(truncate_graphemes(&gs, 0), "");
}

#[test]
fn text_file_and_defaults() {
    assert_eq!(text_file_name("p"), "p.txt");
    assert_eq!(default_num_processes(), 20);
}

#[test]
fn error_messages() {
    assert_eq!(DownloaderError::APIException("E1".to_string()).message(), "Daum API Error: E1");
    assert_eq!(DownloaderError::Authentication.message(), "Authentication error");
}

#[test]
fn config_targets_must_be_unique() {
    let cafe = CafeConfig { download_path: None, boards: vec!["b".to_string()] };
    let mut c = Config {
        cookies_file: "cookies.txt".to_string(),
        max_connections: 20,
        cafe: vec![("x".to_string(), cafe.clone()), ("y".to_string(), cafe.clone())],
        missing_streak: None,
    };
    assert!(c.has_unique_targets());
    c.cafe.push(("x".to_string(), cafe));
    assert!(!c.has_unique_targets());
}
