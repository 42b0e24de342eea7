use nekos::subscribe::{build_headers, check_body_len, check_response_head, parse_userinfo, SubUserInfo, MAX_BODY_BYTES};

#[test]
fn userinfo_parsing() {
    let info = parse_userinfo("upload=1024; download=2048; total=1073741824; expire=1780000000").unwrap();
    assert_eq!(info.upload, 1024);
    assert_eq!(info.download, 2048);
    assert_eq!(info.total, 1073741824);
    assert_eq!(info.expire, Some(1780000000));
    assert!(parse_userinfo("garbage").is_some());
}

#[test]
fn userinfo_edge_cases() {
    let zero = SubUserInfo { upload: 0, download: 0, total: 0, expire: None };
    assert_eq!(parse_userinfo("garbage").unwrap(), zero);
    assert_eq!(parse_userinfo("").unwrap(), zero);
    assert_eq!(parse_userinfo("Upload=5").unwrap(), zero);
    let info = parse_userinfo(" upload = 5 ;download=7; unknown=9 ; noequals").unwrap();
    assert_eq!(info.upload, 5);
    assert_eq!(info.download, 7);
    assert_eq!(info.total, 0);
    assert_eq!(info.expire, None);
    assert_eq!(parse_userinfo("upload=1;upload=2").unwrap().upload, 2);
    assert_eq!(parse_userinfo("upload=1; total=x"), None);
    assert_eq!(parse_userinfo("expire="), None);
    assert_eq!(parse_userinfo("total=+3").unwrap().total, 3);
}

#[test]
fn header_validation() {
    let ok = build_headers(&[("User-Agent".to_string(), "clash-verge/v2".to_string())]).unwrap();
    assert_eq!(ok, vec![("User-Agent".to_string(), "clash-verge/v2".to_string())]);
    let bad_name = build_headers(&[("Bad Name".to_string(), "v".to_string())]).unwrap_err();
    assert_eq!(bad_name, "invalid header name \"Bad Name\"");
    let bad_value = build_headers(&[("X-Ok".to_string(), "line\nbreak".to_string())]).unwrap_err();
    assert_eq!(bad_value, "invalid header value for \"X-Ok\"");
    assert_eq!(build_headers(&[]).unwrap(), Vec::<(String, String)>::new());
}

#[test]
fn response_head_checks() {
    assert!(check_response_head(200, "200 OK", None).is_ok());
    assert!(check_response_head(204, "204 No Content", Some("12")).is_ok());
    assert_eq!(
        check_response_head(404, "404 Not Found", None).unwrap_err(),
        "subscription server returned HTTP 404 Not Found"
    );
    assert_eq!(
        check_response_head(200, "200 OK", Some("16777217")).unwrap_err(),
        "subscription body too large (16777217 bytes)"
    );
    assert!(check_response_head(200, "200 OK", Some("16777216")).is_ok());
    assert!(check_response_head(200, "200 OK", Some("lots")).is_ok());
    assert!(check_body_len(MAX_BODY_BYTES).is_ok());
    assert_eq!(check_body_len(MAX_BODY_BYTES + 1).unwrap_err(), "subscription body too large (16777217 bytes)");
}
