//! The OAuth device-authorization flow: the transient login session, the
//! poll-response state machine, and the request URLs. The loop that
//! sleeps and sends the requests lives outside; every decision it takes
//! is computed here.

use vstd::prelude::*;

use crate::url::{UrlBuilder, UrlBuilderView, spec_build_url, has_key};

verus! {

/// One device-authorization session, as the server grants it: the codes,
/// the address the operator opens, and the polling schedule. Transient:
/// it lives only for the duration of one login attempt.
pub struct Code {
    pub device_code: String,
    pub user_code: String,
    pub verification_uri: String,
    pub expires_in: u32,
    pub interval: u64,
}

/// The error codes a token poll can answer with; `NoError` when the
/// response carries no error field.
#[derive(Clone, Copy, Debug, PartialEq, Eq, Structural)]
pub enum OAuthErrorCode {
    AuthorizationPending,
    SlowDown,
    ExpiredToken,
    UnsupportedGrantType,
    IncorrectClientCredentials,
    IncorrectDeviceCode,
    AccessDenied,
    NoError,
}

impl Default for OAuthErrorCode {
    /// A response without an error field means no error.
    fn default() -> (r: Self)
        ensures
            r == OAuthErrorCode::NoError,
    {
        OAuthErrorCode::NoError
    }
}

/// A token-poll response, and once authorized the credential record:
/// the bearer token, its type, and the remote document attached to it.
pub struct GithubOauth {
    pub access_token: String,
    pub token_type: String,
    pub error: OAuthErrorCode,
    pub gist_id: Option<String>,
}

/// The mathematical value of a `GithubOauth`.
pub ghost struct OauthView {
    pub access_token: Seq<char>,
    pub token_type: Seq<char>,
    pub error: OAuthErrorCode,
    pub gist_id: Option<Seq<char>>,
}

impl View for GithubOauth {
    type V = OauthView;

    open spec fn view(&self) -> OauthView {
        OauthView {
            access_token: self.access_token@,
            token_type: self.token_type@,
            error: self.error,
            gist_id: match self.gist_id {
                Some(ref id) => Some(id@),
                None => None,
            },
        }
    }
}

/// The states of the device-authorization flow.
#[derive(Clone, Copy, Debug, PartialEq, Eq, Structural)]
pub enum DeviceFlowState {
    Idle,
    RequestingCode,
    AwaitingUserAction,
    Polling,
    Authorized,
    Denied,
    Expired,
    Failed,
}

/// What one poll response means for the loop: keep polling at the given
/// interval, or end in one of the four terminal ways.
pub enum PollOutcome {
    Continue { next_interval: u64 },
    Authorized { access_token: String, token_type: String },
    Denied,
    Expired,
    Failed,
}

/// The mathematical value of a `PollOutcome`.
pub ghost enum PollOutcomeView {
    Continue { next_interval: u64 },
    Authorized { access_token: Seq<char>, token_type: Seq<char> },
    Denied,
    Expired,
    Failed,
}

impl View for PollOutcome {
    type V = PollOutcomeView;

    open spec fn view(&self) -> PollOutcomeView {
        match self {
            PollOutcome::Continue { next_interval } => PollOutcomeView::Continue {
                next_interval: *next_interval,
            },
            PollOutcome::Authorized { access_token, token_type } => PollOutcomeView::Authorized {
                access_token: access_token@,
                token_type: token_type@,
            },
            PollOutcome::Denied => PollOutcomeView::Denied,
            PollOutcome::Expired => PollOutcomeView::Expired,
            PollOutcome::Failed => PollOutcomeView::Failed,
        }
    }
}

/// The interval after a `slow_down` answer: five seconds more, saturating
/// at the largest representable interval.
pub open spec fn slow_down_interval(interval: u64) -> u64 {
    if interval > u64::MAX - 5 {
        u64::MAX
    } else {
        (interval + 5) as u64
    }
}

/// What the poll loop does with one response: `authorization_pending`
/// polls on unchanged, `slow_down` polls on with a longer interval, a
/// token means authorized, and each terminal error code ends the flow its
/// own way; a response with neither token nor error is malformed and
/// fails the flow.
pub open spec fn spec_poll_step(resp: OauthView, interval: u64) -> PollOutcomeView {
    match resp.error {
        OAuthErrorCode::AuthorizationPending => PollOutcomeView::Continue {
            next_interval: interval,
        },
        OAuthErrorCode::SlowDown => PollOutcomeView::Continue {
            next_interval: slow_down_interval(interval),
        },
        OAuthErrorCode::ExpiredToken => PollOutcomeView::Expired,
        OAuthErrorCode::AccessDenied => PollOutcomeView::Denied,
        OAuthErrorCode::UnsupportedGrantType => PollOutcomeView::Failed,
        OAuthErrorCode::IncorrectClientCredentials => PollOutcomeView::Failed,
        OAuthErrorCode::IncorrectDeviceCode => PollOutcomeView::Failed,
        OAuthErrorCode::NoError => if resp.access_token.len() > 0 {
            PollOutcomeView::Authorized {
                access_token: resp.access_token,
                token_type: resp.token_type,
            }
        } else {
            PollOutcomeView::Failed
        },
    }
}

/// An outcome that ends the poll loop.
pub open spec fn poll_terminal(o: PollOutcomeView) -> bool {
    !(o is Continue)
}

/// The flow state after one poll: still polling, or the terminal state
/// the outcome names.
pub open spec fn state_after_poll(o: PollOutcomeView) -> DeviceFlowState {
    match o {
        PollOutcomeView::Continue { .. } => DeviceFlowState::Polling,
        PollOutcomeView::Authorized { .. } => DeviceFlowState::Authorized,
        PollOutcomeView::Denied => DeviceFlowState::Denied,
        PollOutcomeView::Expired => DeviceFlowState::Expired,
        PollOutcomeView::Failed => DeviceFlowState::Failed,
    }
}

/// Decides one step of the poll loop from the response and the current
/// interval.
pub fn on_poll_response(resp: &GithubOauth, interval: u64) -> (r: PollOutcome)
    ensures
        r@ == spec_poll_step(resp@, interval),
{
    match resp.error {
        OAuthErrorCode::AuthorizationPending => PollOutcome::Continue { next_interval: interval },
        OAuthErrorCode::SlowDown => {
            let next = if interval > u64::MAX - 5 {
                u64::MAX
            } else {
                interval + 5
            };
            PollOutcome::Continue { next_interval: next }
        },
        OAuthErrorCode::ExpiredToken => PollOutcome::Expired,
        OAuthErrorCode::AccessDenied => PollOutcome::Denied,
        OAuthErrorCode::UnsupportedGrantType => PollOutcome::Failed,
        OAuthErrorCode::IncorrectClientCredentials => PollOutcome::Failed,
        OAuthErrorCode::IncorrectDeviceCode => PollOutcome::Failed,
        OAuthErrorCode::NoError => {
            if resp.access_token.unicode_len() > 0 {
                PollOutcome::Authorized {
                    access_token: resp.access_token.clone(),
                    token_type: resp.token_type.clone(),
                }
            } else {
                PollOutcome::Failed
            }
        },
    }
}

/// Law: a poll response with `authorization_pending` never ends the
/// loop; the flow stays in `Polling`.
pub proof fn lemma_pending_never_terminates(resp: OauthView, interval: u64)
    requires
        resp.error is AuthorizationPending,
    ensures
        !poll_terminal(spec_poll_step(resp, interval)),
        state_after_poll(spec_poll_step(resp, interval)) == DeviceFlowState::Polling,
        spec_poll_step(resp, interval) == (PollOutcomeView::Continue { next_interval: interval }),
{
}

/// Law: the poll loop ends exactly when the response is not a retry
/// answer, and authorizes exactly when a token is present with no error
/// code; `slow_down` strictly lengthens the interval wherever a longer
/// one is representable.
pub proof fn lemma_poll_termination(resp: OauthView, interval: u64)
    ensures
        poll_terminal(spec_poll_step(resp, interval)) <==> !(resp.error is AuthorizationPending
            || resp.error is SlowDown),
        spec_poll_step(resp, interval) is Authorized <==> (resp.error is NoError
            && resp.access_token.len() > 0),
        (resp.error is SlowDown && interval <= u64::MAX - 5) ==> spec_poll_step(resp, interval)
            == (PollOutcomeView::Continue { next_interval: (interval + 5) as u64 }),
{
}

/// The error code a poll response's error string names, or `None` for a
/// string naming no known code.
pub open spec fn spec_error_code_from(s: Seq<char>) -> Option<OAuthErrorCode> {
    if s == "authorization_pending"@ {
        Some(OAuthErrorCode::AuthorizationPending)
    } else if s == "slow_down"@ {
        Some(OAuthErrorCode::SlowDown)
    } else if s == "expired_token"@ {
        Some(OAuthErrorCode::ExpiredToken)
    } else if s == "unsupported_grant_type"@ {
        Some(OAuthErrorCode::UnsupportedGrantType)
    } else if s == "incorrect_client_credentials"@ {
        Some(OAuthErrorCode::IncorrectClientCredentials)
    } else if s == "incorrect_device_code"@ {
        Some(OAuthErrorCode::IncorrectDeviceCode)
    } else if s == "access_denied"@ {
        Some(OAuthErrorCode::AccessDenied)
    } else {
        None
    }
}

/// Reads the error code out of a poll response's error string; `None`
/// for an unknown code, which ends the flow as failed.
pub fn error_code_from(s: &str) -> (r: Option<OAuthErrorCode>)
    ensures
        r == spec_error_code_from(s@),
{
    if crate::strutil::str_eq(s, "authorization_pending") {
        Some(OAuthErrorCode::AuthorizationPending)
    } else if crate::strutil::str_eq(s, "slow_down") {
        Some(OAuthErrorCode::SlowDown)
    } else if crate::strutil::str_eq(s, "expired_token") {
        Some(OAuthErrorCode::ExpiredToken)
    } else if crate::strutil::str_eq(s, "unsupported_grant_type") {
        Some(OAuthErrorCode::UnsupportedGrantType)
    } else if crate::strutil::str_eq(s, "incorrect_client_credentials") {
        Some(OAuthErrorCode::IncorrectClientCredentials)
    } else if crate::strutil::str_eq(s, "incorrect_device_code") {
        Some(OAuthErrorCode::IncorrectDeviceCode)
    } else if crate::strutil::str_eq(s, "access_denied") {
        Some(OAuthErrorCode::AccessDenied)
    } else {
        None
    }
}

/// The poll outcome straight from a response's fields: a missing error
/// string means no error; a named code is handled by the state machine;
/// any other error code ends the flow as failed.
pub open spec fn spec_on_poll_reply(
    error: Option<Seq<char>>,
    access_token: Seq<char>,
    token_type: Seq<char>,
    interval: u64,
) -> PollOutcomeView {
    match error {
        None => spec_poll_step(
            OauthView {
                access_token,
                token_type,
                error: OAuthErrorCode::NoError,
                gist_id: None,
            },
            interval,
        ),
        Some(e) => match spec_error_code_from(e) {
            Some(code) => spec_poll_step(
                OauthView { access_token, token_type, error: code, gist_id: None },
                interval,
            ),
            None => PollOutcomeView::Failed,
        },
    }
}

/// Decides one step of the poll loop from the raw response fields: the
/// optional error string, the token fields and the current interval.
pub fn on_poll_reply(
    error: &Option<String>,
    access_token: &str,
    token_type: &str,
    interval: u64,
) -> (r: PollOutcome)
    ensures
        r@ == spec_on_poll_reply(
            match *error {
                Some(ref e) => Some(e@),
                None => None,
            },
            access_token@,
            token_type@,
            interval,
        ),
{
    let code = match error {
        None => OAuthErrorCode::NoError,
        Some(e) => {
            match error_code_from(e.as_str()) {
                Some(code) => code,
                None => {
                    return PollOutcome::Failed;
                },
            }
        },
    };
    let resp = GithubOauth {
        access_token: access_token.to_owned(),
        token_type: token_type.to_owned(),
        error: code,
        gist_id: None,
    };
    on_poll_response(&resp, interval)
}

/// Law: an error code the protocol does not name ends the flow as failed.
pub proof fn lemma_unknown_code_fails(
    error: Seq<char>,
    access_token: Seq<char>,
    token_type: Seq<char>,
    interval: u64,
)
    requires
        spec_error_code_from(error) is None,
    ensures
        spec_on_poll_reply(Some(error), access_token, token_type, interval)
            == PollOutcomeView::Failed,
{
}

/// What a login request does: with `relogin` the stored credential is
/// discarded and the flow begins; otherwise an existing credential makes
/// the request a no-op.
#[derive(Clone, Copy, Debug, PartialEq, Eq, Structural)]
pub enum LoginAction {
    AlreadyLoggedIn,
    DiscardAndBegin,
    Begin,
}

/// The action a login request takes, by the re-login rule.
pub open spec fn spec_start_login(has_credential: bool, relogin: bool) -> LoginAction {
    if relogin {
        LoginAction::DiscardAndBegin
    } else if has_credential {
        LoginAction::AlreadyLoggedIn
    } else {
        LoginAction::Begin
    }
}

/// Decides whether a login request starts the device flow: a no-op when a
/// credential exists, unless the caller forces re-authentication, which
/// discards the existing credential first.
pub fn start_login(has_credential: bool, relogin: bool) -> (r: LoginAction)
    ensures
        r == spec_start_login(has_credential, relogin),
{
    if relogin {
        LoginAction::DiscardAndBegin
    } else if has_credential {
        LoginAction::AlreadyLoggedIn
    } else {
        LoginAction::Begin
    }
}

/// The parameters of the device-code request.
pub open spec fn device_code_url_view() -> UrlBuilderView {
    UrlBuilderView {
        url: "https://github.com/login/device/code"@,
        params: seq![("client_id"@, "65102f4f3d896bfc9c1a"@), ("scope"@, "gist"@)],
    }
}

/// Builds the URL that requests a device code: the public client id and
/// the `gist` scope.
pub fn device_code_request_url() -> (r: String)
    ensures
        r@ == spec_build_url(device_code_url_view()),
{
    let b = UrlBuilder::new("https://github.com/login/device/code");
    let ghost p0 = b@.params;
    let b = b.add_param("client_id", "65102f4f3d896bfc9c1a");
    let ghost p1 = b@.params;
    proof {
        assert(!has_key(p0, "client_id"@));
        assert(p1 =~= seq![("client_id"@, "65102f4f3d896bfc9c1a"@)]);
    }
    let b = b.add_param("scope", "gist");
    proof {
        reveal_strlit("client_id");
        reveal_strlit("scope");
        assert("client_id"@.len() != "scope"@.len());
        assert(forall|i: int| 0 <= i < p1.len() ==> (#[trigger] p1[i]).0 != "scope"@);
        assert(!has_key(p1, "scope"@));
        assert(b@.params =~= device_code_url_view().params);
    }
    b.build()
}

/// The parameters of a token poll for `device_code`.
pub open spec fn poll_url_view(device_code: Seq<char>) -> UrlBuilderView {
    UrlBuilderView {
        url: "https://github.com/login/oauth/access_token"@,
        params: seq![
            ("client_id"@, "65102f4f3d896bfc9c1a"@),
            ("grant_type"@, "urn:ietf:params:oauth:grant-type:device_code"@),
            ("device_code"@, device_code),
        ],
    }
}

/// Builds the URL that exchanges a device code for a token: the public
/// client id, the device-code grant type, and the session's device code.
pub fn poll_request_url(device_code: &str) -> (r: String)
    ensures
        r@ == spec_build_url(poll_url_view(device_code@)),
{
    let b = UrlBuilder::new("https://github.com/login/oauth/access_token");
    let ghost p0 = b@.params;
    let b = b.add_param("client_id", "65102f4f3d896bfc9c1a");
    let ghost p1 = b@.params;
    proof {
        assert(!has_key(p0, "client_id"@));
        assert(p1 =~= seq![("client_id"@, "65102f4f3d896bfc9c1a"@)]);
    }
    let b = b.add_param("grant_type", "urn:ietf:params:oauth:grant-type:device_code");
    let ghost p2 = b@.params;
    proof {
        reveal_strlit("client_id");
        reveal_strlit("grant_type");
        reveal_strlit("device_code");
        assert("client_id"@.len() != "grant_type"@.len());
        assert(forall|i: int| 0 <= i < p1.len() ==> (#[trigger] p1[i]).0 != "grant_type"@);
        assert(!has_key(p1, "grant_type"@));
        assert(p2 =~= seq![
            ("client_id"@, "65102f4f3d896bfc9c1a"@),
            ("grant_type"@, "urn:ietf:params:oauth:grant-type:device_code"@),
        ]);
    }
    let b = b.add_param("device_code", device_code);
    proof {
        assert("client_id"@.len() != "device_code"@.len());
        assert("grant_type"@.len() != "device_code"@.len());
        assert(forall|i: int| 0 <= i < p2.len() ==> (#[trigger] p2[i]).0 != "device_code"@);
        assert(!has_key(p2, "device_code"@));
        assert(b@.params =~= poll_url_view(device_code@).params);
    }
    b.build()
}

} // verus!
