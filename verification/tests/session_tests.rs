use deepseek_monitor::ball::{format_ball_pos, parse_ball_pos, BallPosError};
use deepseek_monitor::service::{
    check_status, content_changed, fetch_failure_message, log_needs_reset, request_url,
    StatusError,
};
use deepseek_monitor::token::{check_token, token_from_file, TokenError};

#[test]
fn token_file_is_trimmed_and_checked() {
    let t = "abcdefghijklmnopqrstuvwxyz";
    assert_eq!(token_from_file(&format!("  {}\n", t)), Some(t.to_string()));
    assert_eq!(token_from_file("short\n"), None);
    assert_eq!(token_from_file(""), None);
    // 20 bytes exactly.
    assert_eq!(token_from_file("01234567890123456789"), Some("01234567890123456789".to_string()));
    assert_eq!(token_from_file(" 0123456789012345678 "), None);
    // Seven three-byte characters are 21 bytes.
    assert_eq!(token_from_file("黑黑黑黑黑黑黑"), Some("黑黑黑黑黑黑黑".to_string()));
}

#[test]
fn saved_token_loads_back() {
    let t = "Bearer-less-token-value-1234";
    assert!(check_token(t).is_ok());
    assert_eq!(token_from_file(t), Some(t.to_string()));
}

#[test]
fn short_token_is_refused() {
    assert_eq!(check_token("0123456789012345678"), Err(TokenError::Malformed));
    assert_eq!(check_token("01234567890123456789"), Ok(()));
    assert_eq!(check_token("黑黑黑黑黑黑"), Err(TokenError::Malformed));
    assert_eq!(TokenError::Malformed.message(), "Token 格式不正确");
}

#[test]
fn ball_pos_round_trip() {
    for (x, y) in [(0, 0), (12, -34), (i32::MIN, i32::MAX), (-1, 100)] {
        let text = format_ball_pos(x, y);
        assert_eq!(text, format!("{} {}", x, y));
        assert_eq!(parse_ball_pos(&text), Ok(Some((x, y))));
    }
}

#[test]
fn ball_pos_parsing() {
    assert_eq!(parse_ball_pos(" 10\t20 \n"), Ok(Some((10, 20))));
    assert_eq!(parse_ball_pos("10 20 30"), Ok(Some((10, 20))));
    assert_eq!(parse_ball_pos("10"), Ok(None));
    assert_eq!(parse_ball_pos(""), Ok(None));
    assert_eq!(parse_ball_pos("10 x"), Err(BallPosError::BadCoordinate));
    assert_eq!(parse_ball_pos("99999999999 1"), Err(BallPosError::BadCoordinate));
    assert_eq!(BallPosError::BadCoordinate.message(), "解析坐标失败");
}

#[test]
fn status_checks() {
    assert_eq!(check_status(200), Ok(()));
    assert_eq!(check_status(299), Ok(()));
    assert_eq!(check_status(401), Err(StatusError::TokenInvalid));
    assert_eq!(check_status(404), Err(StatusError::Http(404)));
    assert_eq!(check_status(199), Err(StatusError::Http(199)));
    assert_eq!(check_status(300), Err(StatusError::Http(300)));
}

#[test]
fn urls_and_messages() {
    assert_eq!(
        request_url("https://platform.deepseek.com/api/v0", "/users/get_user_summary"),
        "https://platform.deepseek.com/api/v0/users/get_user_summary"
    );
    assert_eq!(fetch_failure_message("TOKEN_INVALID"), "TOKEN_INVALID");
    assert_eq!(fetch_failure_message("HTTP 500"), "API 请求失败: HTTP 500");
}

#[test]
fn log_and_persist_decisions() {
    assert!(!log_needs_reset(1_048_576));
    assert!(log_needs_reset(1_048_577));
    assert!(!log_needs_reset(0));
    assert!(content_changed("{}", "{ }"));
    assert!(!content_changed("same", "same"));
}
