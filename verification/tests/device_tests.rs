use cargo_backup::device::{
    GithubOauth, OAuthErrorCode, PollOutcome, LoginAction, on_poll_response, on_poll_reply,
    start_login, device_code_request_url, poll_request_url,
};

fn resp(error: OAuthErrorCode, token: &str) -> GithubOauth {
    GithubOauth {
        access_token: token.to_string(),
        token_type: "bearer".to_string(),
        error,
        gist_id: None,
    }
}

#[test]
fn pending_keeps_polling_at_the_same_interval() {
    let r = on_poll_response(&resp(OAuthErrorCode::AuthorizationPending, ""), 5);
    match r {
        PollOutcome::Continue { next_interval } => assert_eq!(next_interval, 5),
        _ => panic!("authorization_pending must not end the loop"),
    }
}

#[test]
fn slow_down_lengthens_the_interval() {
    let r = on_poll_response(&resp(OAuthErrorCode::SlowDown, ""), 5);
    match r {
        PollOutcome::Continue { next_interval } => assert_eq!(next_interval, 10),
        _ => panic!("slow_down must not end the loop"),
    }
}

#[test]
fn slow_down_saturates_at_the_largest_interval() {
    let r = on_poll_response(&resp(OAuthErrorCode::SlowDown, ""), u64::MAX - 2);
    match r {
        PollOutcome::Continue { next_interval } => assert_eq!(next_interval, u64::MAX),
        _ => panic!("slow_down must not end the loop"),
    }
}

#[test]
fn a_token_authorizes() {
    let r = on_poll_response(&resp(OAuthErrorCode::NoError, "tok123"), 5);
    match r {
        PollOutcome::Authorized { access_token, token_type } => {
            assert_eq!(access_token, "tok123");
            assert_eq!(token_type, "bearer");
        },
        _ => panic!("a token must authorize"),
    }
}

#[test]
fn terminal_error_codes_end_the_flow_their_own_way() {
    assert!(matches!(
        on_poll_response(&resp(OAuthErrorCode::ExpiredToken, ""), 5),
        PollOutcome::Expired
    ));
    assert!(matches!(
        on_poll_response(&resp(OAuthErrorCode::AccessDenied, ""), 5),
        PollOutcome::Denied
    ));
    assert!(matches!(
        on_poll_response(&resp(OAuthErrorCode::UnsupportedGrantType, ""), 5),
        PollOutcome::Failed
    ));
    assert!(matches!(
        on_poll_response(&resp(OAuthErrorCode::IncorrectClientCredentials, ""), 5),
        PollOutcome::Failed
    ));
    assert!(matches!(
        on_poll_response(&resp(OAuthErrorCode::IncorrectDeviceCode, ""), 5),
        PollOutcome::Failed
    ));
}

#[test]
fn a_response_without_token_or_error_fails() {
    assert!(matches!(
        on_poll_response(&resp(OAuthErrorCode::NoError, ""), 5),
        PollOutcome::Failed
    ));
}

#[test]
fn error_code_defaults_to_no_error() {
    assert_eq!(OAuthErrorCode::default(), OAuthErrorCode::NoError);
}

#[test]
fn login_is_a_no_op_with_a_credential_unless_forced() {
    assert_eq!(start_login(true, false), LoginAction::AlreadyLoggedIn);
    assert_eq!(start_login(false, false), LoginAction::Begin);
    assert_eq!(start_login(true, true), LoginAction::DiscardAndBegin);
    assert_eq!(start_login(false, true), LoginAction::DiscardAndBegin);
}

#[test]
fn request_urls_are_exact() {
    assert_eq!(
        device_code_request_url(),
        "https://github.com/login/device/code?client_id=65102f4f3d896bfc9c1a&scope=gist"
    );
    assert_eq!(
        poll_request_url("dev123"),
        "https://github.com/login/oauth/access_token?client_id=65102f4f3d896bfc9c1a\
         &grant_type=urn:ietf:params:oauth:grant-type:device_code&device_code=dev123"
    );
}

#[test]
fn unknown_error_codes_fail_the_flow() {
    let r = on_poll_reply(&Some("mystery_code".to_string()), "", "", 5);
    assert!(matches!(r, PollOutcome::Failed));
    let r = on_poll_reply(&Some("authorization_pending".to_string()), "", "", 5);
    assert!(matches!(r, PollOutcome::Continue { next_interval: 5 }));
    let r = on_poll_reply(&None, "tok", "bearer", 5);
    assert!(matches!(r, PollOutcome::Authorized { .. }));
}
