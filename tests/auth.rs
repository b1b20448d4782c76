use cafe_downloader::cookies::{join_cookie_headers, parse_cookie_jar, serialize_cookies};
use cafe_downloader::auth::{current_cookies_path, extract_sso_token, token_step, TokenError, TokenStep};
use cafe_downloader::error::DownloaderError;

#[test]
fn token_is_read_from_answer() {
    let body = "loginByToken({\"status\":0,\"token\":\"deadbeef\",\"x\":1});";
    assert_eq!(extract_sso_token(body), Ok("deadbeef".to_string()));
}

#[test]
fn token_missing_is_no_match() {
    assert_eq!(extract_sso_token("loginByToken({\"status\":-1});"), Err(TokenError::NoMatch));
    assert_eq!(extract_sso_token(""), Err(TokenError::NoMatch));
}

#[test]
fn token_malformed_field() {
    assert_eq!(extract_sso_token("{\"token\":\"\"}"), Err(TokenError::MalformedField));
    assert_eq!(extract_sso_token("{\"token\":\"DEADBEEF\"}"), Err(TokenError::MalformedField));
    assert_eq!(extract_sso_token("{\"token\":\"abc"), Err(TokenError::MalformedField));
}

#[test]
fn token_step_decides() {
    let ok = "{\"token\":\"deadbeef\"}";
    assert_eq!(token_step(Some(ok), false), TokenStep::Exchange("deadbeef".to_string()));
    assert_eq!(token_step(Some(ok), true), TokenStep::Exchange("deadbeef".to_string()));
    assert_eq!(token_step(Some("nothing"), false), TokenStep::Refresh);
    assert_eq!(token_step(None, false), TokenStep::Refresh);
    assert_eq!(token_step(None, true), TokenStep::Fail(DownloaderError::Authentication));
}

#[test]
fn cache_file_is_sibling() {
    assert_eq!(current_cookies_path("cookies.txt"), "cookies.txt.current");
}

#[test]
fn fixture_identity_yields_session() {
    let jar = ".kakao.com\tTRUE\t/\tTRUE\t0\t_kawlt\tfake-identity\n\
.kakao.com\tTRUE\t/\tTRUE\t0\t_karmt\tfake-refresh\n";
    let identity = parse_cookie_jar(jar, ".kakao.com");
    assert_eq!(serialize_cookies(&identity), "_kawlt=fake-identity; _karmt=fake-refresh");
    let answer = "loginByToken({\"token\":\"deadbeef\"});";
    let token = match token_step(Some(answer), false) {
        TokenStep::Exchange(t) => t,
        other => panic!("unexpected step {:?}", other),
    };
    assert_eq!(token, "deadbeef");
    let set_cookies = vec!["HM_CU=session1; Path=/".to_string(), "HTS=session2".to_string()];
    assert_eq!(join_cookie_headers(&set_cookies), "HM_CU=session1; Path=/; HTS=session2");
}

#[test]
fn token_is_first_well_formed_occurrence() {
    let body = "{\"token\":\"X\",\"next\":{\"token\":\"ab\"}}";
    assert_eq!(extract_sso_token(body), Ok("ab".to_string()));
    let body = "{\"token\":\"12\"} {\"token\":\"34\"}";
    assert_eq!(extract_sso_token(body), Ok("12".to_string()));
}
