use xitter_txid::ClientTransaction;
use xitter_txid::Error;

#[test]
fn verification_key_extraction() {
    let html = "<html><head><meta name=\"twitter-site-verification\" content=\"abc123xyz\"/></head></html>";
    let key = ClientTransaction::verification_key(html).unwrap();
    assert_eq!(key, "abc123xyz");
}

#[test]
fn verification_key_missing() {
    let html = "<html><head></head></html>";
    ClientTransaction::verification_key(html).unwrap_err();
}

#[test]
fn verification_key_missing_is_missing_key() {
    let err = ClientTransaction::verification_key("<html></html>").unwrap_err();
    assert!(matches!(err, Error::MissingKey(_)));
}

#[test]
fn verification_key_unclosed_value_is_parse_error() {
    let html = "<meta name=\"twitter-site-verification\" content=\"abc";
    let err = ClientTransaction::verification_key(html).unwrap_err();
    assert!(matches!(err, Error::Parse(_)));
}

#[test]
fn ondemand_url_extraction() {
    let html = "something \"ondemand.s\": \"abc123def\" something";
    let url = ClientTransaction::extract_ondemand_url(html).unwrap();
    assert_eq!(
        url,
        "https://abs.twimg.com/responsive-web/client-web/ondemand.s.abc123defa.js"
    );
}

#[test]
fn ondemand_url_single_quotes() {
    let html = "something 'ondemand.s': 'xyz789' something";
    let url = ClientTransaction::extract_ondemand_url(html).unwrap();
    assert_eq!(
        url,
        "https://abs.twimg.com/responsive-web/client-web/ondemand.s.xyz789a.js"
    );
}

#[test]
fn ondemand_url_missing() {
    let html = "no ondemand here";
    ClientTransaction::extract_ondemand_url(html).unwrap_err();
}

#[test]
fn ondemand_url_hint_for_login_page() {
    let err = ClientTransaction::extract_ondemand_url("a login form").unwrap_err();
    match err {
        Error::MissingKey(msg) => {
            assert_eq!(
                msg,
                "ondemand file hash (received login page - may need cookies)"
            );
        }
        other => panic!("unexpected error: {:?}", other),
    }
}

#[test]
fn ondemand_url_hint_for_small_response() {
    let err = ClientTransaction::extract_ondemand_url("tiny page").unwrap_err();
    match err {
        Error::MissingKey(msg) => {
            assert_eq!(
                msg,
                "ondemand file hash (response too small - may be rate limited or blocked)"
            );
        }
        other => panic!("unexpected error: {:?}", other),
    }
}

#[test]
fn ondemand_url_hint_for_large_response() {
    let big = "x".repeat(10000);
    let err = ClientTransaction::extract_ondemand_url(&big).unwrap_err();
    match err {
        Error::MissingKey(msg) => {
            assert_eq!(
                msg,
                "ondemand file hash (X may have changed their page structure)"
            );
        }
        other => panic!("unexpected error: {:?}", other),
    }
}

#[test]
fn ondemand_url_rejects_non_alphanumeric_hash() {
    let big = format!("{}\"ondemand.s\": \"abc-def\"", "x".repeat(10000));
    ClientTransaction::extract_ondemand_url(&big).unwrap_err();
}

#[test]
fn parse_path_coordinates() {
    let path = "M0 0 0 0C10 20 30 40 50 60C70 80 90 100 110 120";
    let result = ClientTransaction::parse_path_to_coordinates(path);
    assert_eq!(result.len(), 2);
    assert!(!result[0].is_empty());
    assert!(!result[1].is_empty());
}

#[test]
fn parse_path_coordinates_values() {
    let path = "M0 0 0 0C10 -20 30 40C-5 6";
    let result = ClientTransaction::parse_path_to_coordinates(path);
    assert_eq!(result, vec![vec![10, -20, 30, 40], vec![-5, 6]]);
}

#[test]
fn parse_path_short_input_is_kept_whole() {
    let result = ClientTransaction::parse_path_to_coordinates("1 2");
    assert_eq!(result, vec![vec![1, 2]]);
}

#[test]
fn indices_parsing() {
    let js = "foo(e[5], 16)bar(e[10], 16)padding";
    let (row_index, indices) = ClientTransaction::parse_indices(js).unwrap();
    assert_eq!(row_index, 5);
    assert_eq!(indices, vec![10]);
}

#[test]
fn indices_missing() {
    let js = "no indices here";
    let err = ClientTransaction::parse_indices(js).unwrap_err();
    assert!(matches!(err, Error::MissingKey(_)));
}

#[test]
fn indices_tolerate_missing_space() {
    let js = "q(e[7],16)w(e[3], 16)rest pads";
    let (row_index, indices) = ClientTransaction::parse_indices(js).unwrap();
    assert_eq!(row_index, 7);
    assert_eq!(indices, vec![3]);
}

#[test]
fn indices_skip_overflowing_numbers() {
    let js = "a(e[99999999999999999999999999], 16)b(e[2], 16)padding!";
    let (row_index, indices) = ClientTransaction::parse_indices(js).unwrap();
    assert_eq!(row_index, 2);
    assert!(indices.is_empty());
}

#[test]
fn animation_frames_picks_first_curve_path() {
    let html = "<svg id=\"loading-x-anim-0\"><path d=\"M1 2\"/><path d=\"M0 0 0 0C1 2 3 4\"/></svg><svg id=\"loading-x-anim-1\"><path d=\"M0 0 0 0C9 8 7 6\"/></svg>";
    let frames = ClientTransaction::animation_frames(html);
    assert_eq!(
        frames,
        vec!["M0 0 0 0C1 2 3 4".to_string(), "M0 0 0 0C9 8 7 6".to_string()]
    );
}

#[test]
fn animation_frames_empty_without_anchor() {
    let frames = ClientTransaction::animation_frames("<svg><path d=\"M0C1\"/></svg>");
    assert!(frames.is_empty());
}

#[test]
fn frame_data_without_frames_is_missing_key() {
    let err = ClientTransaction::frame_data(&[0u8; 8], "<html></html>").unwrap_err();
    assert!(matches!(err, Error::MissingKey(_)));
}

#[test]
fn frame_data_short_key_is_parse_error() {
    let html = "id=\"loading-x-anim-0\"><path d=\"M0 0 0 0C1 2\"/></svg>";
    let err = ClientTransaction::frame_data(&[1u8, 2], html).unwrap_err();
    assert!(matches!(err, Error::Parse(_)));
}

#[test]
fn frame_data_selects_frame_by_key_byte() {
    let html = "id=\"loading-x-anim-a\"><path d=\"M0 0 0 0C1 2\"/></svg>id=\"loading-x-anim-b\"><path d=\"M0 0 0 0C3 4\"/></svg>";
    // Byte 5 of the key is 1, so frame 1 is selected.
    let key = [0u8, 0, 0, 0, 0, 1, 0, 0];
    let coords = ClientTransaction::frame_data(&key, html).unwrap();
    assert_eq!(coords, vec![vec![3, 4]]);
}

#[test]
fn parse_path_exactly_nine_bytes() {
    let result = ClientTransaction::parse_path_to_coordinates("M0 0 0 0C");
    assert_eq!(result, vec![Vec::<i32>::new()]);
}

#[test]
fn parse_path_multibyte_at_cut_point_keeps_whole_input() {
    // Byte 9 falls inside the two-byte character, so the move command
    // cannot be dropped and the whole text is parsed.
    let result = ClientTransaction::parse_path_to_coordinates("M0 0 0 0é C1 2");
    assert_eq!(result, vec![vec![0, 0, 0, 0], vec![1, 2]]);
}

#[test]
fn verification_key_multibyte_value() {
    let html = "<meta name=\"twitter-site-verification\" content=\"héllo\"/>";
    let key = ClientTransaction::verification_key(html).unwrap();
    assert_eq!(key, "héllo");
}

#[test]
fn verification_key_without_enclosing_tag_uses_text_bounds() {
    let html = "name=\"twitter-site-verification\" content=\"abc\"";
    let key = ClientTransaction::verification_key(html).unwrap();
    assert_eq!(key, "abc");
}

#[test]
fn animation_frames_multibyte_attribute() {
    let html = "id=\"loading-x-anim\"><path d=\"Mé 0 0 0C1 2\"/></svg>";
    let frames = ClientTransaction::animation_frames(html);
    assert_eq!(frames, vec!["Mé 0 0 0C1 2".to_string()]);
}
