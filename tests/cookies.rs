use cafe_downloader::cookies::{
    collect_set_cookies, deserialize_cookies, join_cookie_headers, merge_refreshed_cookies,
    parse_cookie_jar, parse_set_cookie, serialize_cookies,
};

fn pairs(v: &[(&str, &str)]) -> Vec<(String, String)> {
    v.iter().map(|(a, b)| (a.to_string(), b.to_string())).collect()
}

#[test]
fn jar_keeps_matching_rows_in_order() {
    let jar = "# Netscape HTTP Cookie File\n\
.kakao.com\tTRUE\t/\tTRUE\t0\t_kawlt\tabc\n\
.daum.net\tTRUE\t/\tFALSE\t0\tOTHER\tx\n\
.kakao.com\tTRUE\t/\tFALSE\t0\t_karmt\tdef\n\
accounts.kakao.com\tFALSE\t/\tFALSE\t0\thost\tonly\n";
    let got = parse_cookie_jar(jar, ".kakao.com");
    assert_eq!(got, pairs(&[("_kawlt", "abc"), ("_karmt", "def")]));
}

#[test]
fn jar_without_matching_rows_is_empty() {
    assert!(parse_cookie_jar("", ".kakao.com").is_empty());
    let jar = ".daum.net\tTRUE\t/\tFALSE\t0\tA\tb\n";
    assert!(parse_cookie_jar(jar, ".kakao.com").is_empty());
}

#[test]
fn jar_skips_rows_with_empty_or_missing_fields() {
    let jar = ".kakao.com\tTRUE\t/\tFALSE\t0\tname\t\n.kakao.com\tTRUE\t/\n.kakao.com\tTRUE\t/\tFALSE\t0\tok\tv";
    assert_eq!(parse_cookie_jar(jar, ".kakao.com"), pairs(&[("ok", "v")]));
}

#[test]
fn serialize_joins_pairs() {
    let c = pairs(&[("a", "1"), ("b", "2"), ("c", "3")]);
    assert_eq!(serialize_cookies(&c), "a=1; b=2; c=3");
    assert_eq!(serialize_cookies(&Vec::new()), "");
}

#[test]
fn deserialize_reads_pairs_in_order() {
    assert_eq!(
        deserialize_cookies("a=1; b=2;c = 3 ; junk"),
        pairs(&[("a", "1"), ("b", "2"), ("c", "3")])
    );
    assert!(deserialize_cookies("").is_empty());
}

#[test]
fn deserialize_later_value_wins() {
    assert_eq!(deserialize_cookies("a=1; b=2; a=3"), pairs(&[("a", "3"), ("b", "2")]));
}

#[test]
fn credential_round_trips() {
    let c = pairs(&[("_kawlt", "abc.def"), ("TIARA", "x-y_z"), ("e", "")]);
    assert_eq!(deserialize_cookies(&serialize_cookies(&c)), c);
}

#[test]
fn set_cookie_header_gives_name_and_value() {
    assert_eq!(
        parse_set_cookie("_kawlt=new; Path=/; Domain=.kakao.com; HttpOnly"),
        Some(("_kawlt".to_string(), "new".to_string()))
    );
    assert_eq!(parse_set_cookie("novalue; Path=/"), None);
    assert_eq!(parse_set_cookie("gone=; Max-Age=0"), Some(("gone".to_string(), String::new())));
}

#[test]
fn refresh_replaces_drops_and_ignores() {
    let cur = pairs(&[("a", "1"), ("b", "2"), ("c", "3")]);
    let headers = vec![
        "b=20; Path=/".to_string(),
        "c=; Max-Age=0".to_string(),
        "z=9; Path=/".to_string(),
        "b=21; Path=/".to_string(),
    ];
    let upd = collect_set_cookies(&headers);
    assert_eq!(upd.len(), 4);
    assert_eq!(merge_refreshed_cookies(&cur, &upd), pairs(&[("a", "1"), ("b", "21")]));
}

#[test]
fn session_cookies_join_set_cookie_values_exactly() {
    let values = vec!["HM_CU=abc; Domain=.daum.net".to_string(), "PROF=xyz".to_string()];
    assert_eq!(join_cookie_headers(&values), "HM_CU=abc; Domain=.daum.net; PROF=xyz");
    assert_eq!(join_cookie_headers(&Vec::new()), "");
}

#[test]
fn values_keep_their_equals_signs() {
    let c = pairs(&[("a", "b=c"), ("tok", "YWJj==")]);
    assert_eq!(serialize_cookies(&c), "a=b=c; tok=YWJj==");
    assert_eq!(deserialize_cookies(&serialize_cookies(&c)), c);
    assert_eq!(
        parse_set_cookie("tok=YWJj==; Path=/"),
        Some(("tok".to_string(), "YWJj==".to_string()))
    );
}
