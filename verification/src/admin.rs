//! The admin API: who may call what, and what each call leads to.

use crate::proxy::gateway::{opt_slice, printable, printable_text};
use crate::text::{has_prefix, str_eq, strip_prefix};
use crate::uri::{opt_str, opt_text};
use vstd::prelude::*;
use vstd::string::*;
use vstd::utf8::decode_utf8;

verus! {

/// Calls `<[u8] as subtle::ConstantTimeEq>::ct_eq`.
///
/// Claimed: it says whether the two are the same. How long it takes is not stated.
#[verifier::external_body]
pub(crate) fn same_secret(a: &[u8], b: &[u8]) -> (r: bool)
    ensures
        r == (a@ == b@),
{
    subtle::ConstantTimeEq::ct_eq(a, b).into()
}

/// A request to the supervisor.
#[derive(Clone, Copy, Debug, PartialEq, Eq, Structural)]
pub enum AdminCommand {
    Reload,
    Drain,
}

/// What a call leads to.
#[derive(Clone, Copy, Debug, PartialEq, Eq, Structural)]
pub enum AdminAction {
    /// The caller is not known.
    Unauthorized,
    /// The page.
    Ui,
    /// The process is alive.
    Healthy,
    /// The process takes requests.
    Ready,
    /// The metrics.
    Metrics,
    /// There are no metrics.
    MetricsDisabled,
    /// Routes and upstreams.
    State,
    /// The routes.
    Routes,
    /// The certificates.
    Certs,
    /// A request to the supervisor.
    Command(AdminCommand),
    /// There is no such call.
    NotFound,
}

// ------------------------------------------------------------------- identity

/// The text of a header value, where it is printable.
pub open spec fn header_text(value: Option<Seq<u8>>) -> Option<Seq<char>> {
    match value {
        Some(v) => if printable(v) {
            Some(decode_utf8(v))
        } else {
            None
        },
        None => None,
    }
}

/// The token that a caller shows: a bearer token, or else that of the header made for it.
pub open spec fn shown_token(authorization: Option<Seq<u8>>, header: Option<Seq<u8>>) -> Option<
    Seq<char>,
> {
    match header_text(authorization) {
        Some(t) => if has_prefix(t, "Bearer "@) {
            Some(t.skip("Bearer "@.len() as int))
        } else {
            header_text(header)
        },
        None => header_text(header),
    }
}

/// The token that a caller shows.
pub fn admin_token_from_headers(authorization: Option<&[u8]>, header: Option<&[u8]>) -> (r: Option<
    String,
>)
    ensures
        opt_text(r) == shown_token(opt_slice(authorization), opt_slice(header)),
{
    if let Some(value) = authorization {
        if let Some(text) = printable_text(value) {
            if let Some(token) = strip_prefix(text.as_str(), "Bearer ") {
                return Some(token.to_owned());
            }
        }
    }
    match header {
        Some(value) => printable_text(value),
        None => None,
    }
}

/// Whether a caller is known: a token is set, and the caller shows it.
pub open spec fn known(
    expected: Option<Seq<char>>,
    authorization: Option<Seq<u8>>,
    header: Option<Seq<u8>>,
) -> bool {
    match (expected, shown_token(authorization, header)) {
        (Some(e), Some(t)) => e == t,
        _ => false,
    }
}

/// Whether a caller is known.
pub fn is_authorized(
    expected: Option<&str>,
    authorization: Option<&[u8]>,
    header: Option<&[u8]>,
) -> (r: bool)
    ensures
        r == known(opt_str(expected), opt_slice(authorization), opt_slice(header)),
{
    let expected = match expected {
        Some(e) => e,
        None => {
            return false;
        },
    };
    match admin_token_from_headers(authorization, header) {
        Some(token) => {
            proof {
                vstd::utf8::encode_utf8_decode_utf8(expected@);
                vstd::utf8::encode_utf8_decode_utf8(token@);
            }
            same_secret(expected.as_bytes(), token.as_str().as_bytes())
        },
        None => false,
    }
}

// ------------------------------------------------------------------- dispatch

/// Whether a call needs no token.
pub open spec fn public_call(method: Seq<char>, path: Seq<char>) -> bool {
    method == "GET"@ && (path == "/"@ || path == "/healthz"@ || path == "/readyz"@)
}

/// Whether a call needs no token.
pub fn is_public_endpoint(method: &str, path: &str) -> (r: bool)
    ensures
        r == public_call(method@, path@),
{
    str_eq(method, "GET") && (str_eq(path, "/") || str_eq(path, "/healthz") || str_eq(
        path,
        "/readyz",
    ))
}

/// What a permitted call leads to.
pub open spec fn call_of(method: Seq<char>, path: Seq<char>, metrics: bool) -> AdminAction {
    if method == "GET"@ {
        if path == "/"@ {
            AdminAction::Ui
        } else if path == "/healthz"@ {
            AdminAction::Healthy
        } else if path == "/readyz"@ {
            AdminAction::Ready
        } else if path == "/metrics"@ {
            if metrics {
                AdminAction::Metrics
            } else {
                AdminAction::MetricsDisabled
            }
        } else if path == "/api/state"@ {
            AdminAction::State
        } else if path == "/debug/routes"@ {
            AdminAction::Routes
        } else if path == "/debug/certs"@ {
            AdminAction::Certs
        } else {
            AdminAction::NotFound
        }
    } else if method == "POST"@ {
        if path == "/reload"@ {
            AdminAction::Command(AdminCommand::Reload)
        } else if path == "/drain"@ {
            AdminAction::Command(AdminCommand::Drain)
        } else {
            AdminAction::NotFound
        }
    } else {
        AdminAction::NotFound
    }
}

/// What a call leads to, given whether its caller is known and whether there are metrics.
pub open spec fn handled(
    method: Seq<char>,
    path: Seq<char>,
    authorized: bool,
    metrics: bool,
) -> AdminAction {
    if !public_call(method, path) && !authorized {
        AdminAction::Unauthorized
    } else {
        call_of(method, path, metrics)
    }
}

/// What a call leads to, given whether its caller is known and whether there are metrics.
pub fn handle(method: &str, path: &str, authorized: bool, metrics: bool) -> (r: AdminAction)
    ensures
        r == handled(method@, path@, authorized, metrics),
{
    proof {
        reveal_strlit("GET");
        reveal_strlit("POST");
        assert("GET"@.len() != "POST"@.len());
    }
    if !is_public_endpoint(method, path) && !authorized {
        return AdminAction::Unauthorized;
    }
    if str_eq(method, "GET") {
        if str_eq(path, "/") {
            AdminAction::Ui
        } else if str_eq(path, "/healthz") {
            AdminAction::Healthy
        } else if str_eq(path, "/readyz") {
            AdminAction::Ready
        } else if str_eq(path, "/metrics") {
            if metrics {
                AdminAction::Metrics
            } else {
                AdminAction::MetricsDisabled
            }
        } else if str_eq(path, "/api/state") {
            AdminAction::State
        } else if str_eq(path, "/debug/routes") {
            AdminAction::Routes
        } else if str_eq(path, "/debug/certs") {
            AdminAction::Certs
        } else {
            AdminAction::NotFound
        }
    } else if str_eq(method, "POST") {
        if str_eq(path, "/reload") {
            AdminAction::Command(AdminCommand::Reload)
        } else if str_eq(path, "/drain") {
            AdminAction::Command(AdminCommand::Drain)
        } else {
            AdminAction::NotFound
        }
    } else {
        AdminAction::NotFound
    }
}

/// What a call leads to, given the token that is set, the two header values that may show it,
/// and whether there are metrics.
pub fn handle_request(
    method: &str,
    path: &str,
    expected: Option<&str>,
    authorization: Option<&[u8]>,
    header: Option<&[u8]>,
    metrics: bool,
) -> (r: AdminAction)
    ensures
        r == handled(
            method@,
            path@,
            known(opt_str(expected), opt_slice(authorization), opt_slice(header)),
            metrics,
        ),
{
    handle(method, path, is_authorized(expected, authorization, header), metrics)
}

impl AdminAction {
    /// The status of the answer, where the action alone decides it.
    pub fn status(&self) -> (r: Option<u16>)
        ensures
            r == match *self {
                AdminAction::Unauthorized => Some(401u16),
                AdminAction::MetricsDisabled => Some(404),
                AdminAction::NotFound => Some(404),
                AdminAction::Command(_) => None,
                _ => Some(200),
            },
    {
        match self {
            AdminAction::Unauthorized => Some(401),
            AdminAction::MetricsDisabled => Some(404),
            AdminAction::NotFound => Some(404),
            AdminAction::Command(_) => None,
            _ => Some(200),
        }
    }

    /// The kind of content of the answer.
    pub fn content_type(&self) -> (r: &'static str)
        ensures
            r@ == match *self {
                AdminAction::Ui => "text/html; charset=utf-8"@,
                AdminAction::Metrics => "text/plain; charset=utf-8"@,
                AdminAction::MetricsDisabled => "text/plain; charset=utf-8"@,
                _ => "application/json"@,
            },
    {
        match self {
            AdminAction::Ui => "text/html; charset=utf-8",
            AdminAction::Metrics => "text/plain; charset=utf-8",
            AdminAction::MetricsDisabled => "text/plain; charset=utf-8",
            _ => "application/json",
        }
    }

    /// The whole answer, where it is the same every time.
    pub fn fixed_body(&self) -> (r: Option<&'static str>)
        ensures
            opt_str(r) == match *self {
                AdminAction::Unauthorized => Some("{\"error\":\"unauthorized\"}"@),
                AdminAction::Healthy => Some("{\"status\":\"ok\"}"@),
                AdminAction::Ready => Some("{\"status\":\"ready\"}"@),
                AdminAction::MetricsDisabled => Some("metrics disabled\n"@),
                AdminAction::NotFound => Some("{\"error\":\"not found\"}"@),
                _ => None,
            },
    {
        match self {
            AdminAction::Unauthorized => Some("{\"error\":\"unauthorized\"}"),
            AdminAction::Healthy => Some("{\"status\":\"ok\"}"),
            AdminAction::Ready => Some("{\"status\":\"ready\"}"),
            AdminAction::MetricsDisabled => Some("metrics disabled\n"),
            AdminAction::NotFound => Some("{\"error\":\"not found\"}"),
            _ => None,
        }
    }

    /// The challenge that goes with the answer to an unknown caller.
    pub fn challenge(&self) -> (r: Option<&'static str>)
        ensures
            opt_str(r) == if *self == AdminAction::Unauthorized {
                Some("Bearer realm=\"yxorp-admin\""@)
            } else {
                None
            },
    {
        match self {
            AdminAction::Unauthorized => Some("Bearer realm=\"yxorp-admin\""),
            _ => None,
        }
    }
}

/// What came of a request to the supervisor.
pub enum CommandReply {
    /// It could not be sent.
    Unavailable,
    /// It was sent, and no answer came.
    Dropped,
    /// It was carried out.
    Done(String),
    /// It was refused.
    Refused(String),
}

/// The answer to a request to the supervisor: a status, and one field with its name and text.
pub struct CommandAnswer {
    pub status: u16,
    pub field: &'static str,
    pub text: String,
}

/// The answer in plain values.
pub open spec fn answer_of(reply: CommandReply) -> (u16, Seq<char>, Seq<char>) {
    match reply {
        CommandReply::Unavailable => (503, "error"@, "supervisor unavailable"@),
        CommandReply::Dropped => (503, "error"@, "supervisor dropped command"@),
        CommandReply::Done(m) => (200, "status"@, m@),
        CommandReply::Refused(m) => (400, "error"@, m@),
    }
}

/// The answer to a request to the supervisor.
pub fn command_response(reply: CommandReply) -> (r: CommandAnswer)
    ensures
        (r.status, r.field@, r.text@) == answer_of(reply),
{
    match reply {
        CommandReply::Unavailable => CommandAnswer {
            status: 503,
            field: "error",
            text: "supervisor unavailable".to_owned(),
        },
        CommandReply::Dropped => CommandAnswer {
            status: 503,
            field: "error",
            text: "supervisor dropped command".to_owned(),
        },
        CommandReply::Done(m) => CommandAnswer { status: 200, field: "status", text: m },
        CommandReply::Refused(m) => CommandAnswer { status: 400, field: "error", text: m },
    }
}

// ----------------------------------------------------------------------- laws

/// Nothing but the page and the two signs of life is shown to an unknown caller, and no request
/// reaches the supervisor.
pub proof fn strangers_learn_nothing(method: Seq<char>, path: Seq<char>, metrics: bool)
    ensures
        handled(method, path, false, metrics) == AdminAction::Unauthorized || handled(
            method,
            path,
            false,
            metrics,
        ) == AdminAction::Ui || handled(method, path, false, metrics) == AdminAction::Healthy
            || handled(method, path, false, metrics) == AdminAction::Ready,
{
}

/// Where no token is set, no caller is known.
pub proof fn no_token_no_entry(authorization: Option<Seq<u8>>, header: Option<Seq<u8>>)
    ensures
        !known(None, authorization, header),
{
}

/// A bearer token goes before that of the other header, whatever that one says.
pub proof fn bearer_token_goes_first(token: Seq<char>, value: Seq<u8>, header: Option<Seq<u8>>)
    requires
        printable(value),
        decode_utf8(value) == "Bearer "@ + token,
    ensures
        shown_token(Some(value), header) == Some(token),
{
    let t = "Bearer "@ + token;
    assert(t.take("Bearer "@.len() as int) =~= "Bearer "@);
    assert(t.skip("Bearer "@.len() as int) =~= token);
}

// --------------------------------------------------------------------- in words

/// What a known caller's call leads to, and from which calls each action comes.
pub proof fn calls_lead_where_they_say(method: Seq<char>, path: Seq<char>, metrics: bool)
    ensures
        handled(method, path, true, metrics) == AdminAction::Command(AdminCommand::Reload)
            <==> method == "POST"@ && path == "/reload"@,
        handled(method, path, true, metrics) == AdminAction::Command(AdminCommand::Drain) <==> method
            == "POST"@ && path == "/drain"@,
        handled(method, path, true, metrics) == AdminAction::State <==> method == "GET"@ && path
            == "/api/state"@,
        handled(method, path, true, metrics) == AdminAction::Routes <==> method == "GET"@ && path
            == "/debug/routes"@,
        handled(method, path, true, metrics) == AdminAction::Certs <==> method == "GET"@ && path
            == "/debug/certs"@,
        handled(method, path, true, metrics) == AdminAction::Metrics <==> method == "GET"@ && path
            == "/metrics"@ && metrics,
        handled(method, path, true, metrics) == AdminAction::MetricsDisabled <==> method == "GET"@
            && path == "/metrics"@ && !metrics,
        handled(method, path, true, metrics) == AdminAction::Ui <==> method == "GET"@ && path
            == "/"@,
        handled(method, path, true, metrics) == AdminAction::Healthy <==> method == "GET"@ && path
            == "/healthz"@,
        handled(method, path, true, metrics) == AdminAction::Ready <==> method == "GET"@ && path
            == "/readyz"@,
        handled(method, path, true, metrics) != AdminAction::Unauthorized,
{
    lemma_words_differ();
}

proof fn lemma_words_differ()
    ensures
        "GET"@ != "POST"@,
        "/reload"@ != "/drain"@,
        forall|a: int, b: int|
            0 <= a < b < 7 ==> #[trigger] get_paths()[a] != #[trigger] get_paths()[b],
        get_paths()[0] == "/"@,
        get_paths()[1] == "/healthz"@,
        get_paths()[2] == "/readyz"@,
        get_paths()[3] == "/metrics"@,
        get_paths()[4] == "/api/state"@,
        get_paths()[5] == "/debug/routes"@,
        get_paths()[6] == "/debug/certs"@,
{
    reveal_strlit("GET");
    reveal_strlit("POST");
    reveal_strlit("/reload");
    reveal_strlit("/drain");
    reveal_strlit("/");
    reveal_strlit("/healthz");
    reveal_strlit("/readyz");
    reveal_strlit("/metrics");
    reveal_strlit("/api/state");
    reveal_strlit("/debug/routes");
    reveal_strlit("/debug/certs");
    assert("GET"@.len() != "POST"@.len());
    assert("/reload"@.len() != "/drain"@.len());
    assert("/healthz"@[1] != "/metrics"@[1]);
    assert("/"@.len() == 1 && "/healthz"@.len() == 8 && "/readyz"@.len() == 7 && "/metrics"@.len()
        == 8 && "/api/state"@.len() == 10 && "/debug/routes"@.len() == 13 && "/debug/certs"@.len()
        == 12);
}

spec fn get_paths() -> Seq<Seq<char>> {
    seq![
        "/"@,
        "/healthz"@,
        "/readyz"@,
        "/metrics"@,
        "/api/state"@,
        "/debug/routes"@,
        "/debug/certs"@,
    ]
}

/// An unknown caller sees just the page and the two signs of life, by `GET`.
pub proof fn only_three_calls_are_public(method: Seq<char>, path: Seq<char>, metrics: bool)
    ensures
        handled(method, path, false, metrics) != AdminAction::Unauthorized <==> method == "GET"@ && (
        path == "/"@ || path == "/healthz"@ || path == "/readyz"@),
        handled(method, path, false, metrics) != AdminAction::Unauthorized ==> handled(
            method,
            path,
            false,
            metrics,
        ) == handled(method, path, true, metrics),
{
    lemma_words_differ();
}

/// A caller is known just where a token is set and shown, behind `Bearer ` or, where there is no
/// bearer token, in the header made for it.
pub proof fn callers_are_known_by_their_token(
    token: Seq<char>,
    other: Seq<char>,
    value: Seq<u8>,
    header: Seq<u8>,
)
    requires
        printable(value),
        printable(header),
        decode_utf8(header) == token,
    ensures
        decode_utf8(value) == "Bearer "@ + token ==> known(Some(token), Some(value), None),
        decode_utf8(value) == "Bearer "@ + other && other != token ==> !known(
            Some(token),
            Some(value),
            Some(header),
        ),
        !has_prefix(decode_utf8(value), "Bearer "@) ==> known(
            Some(token),
            Some(value),
            Some(header),
        ) && !known(Some(token), Some(value), None),
        known(Some(token), None, Some(header)),
        other != token ==> !known(Some(other), None, Some(header)),
        !known(Some(token), None, None),
{
    if decode_utf8(value) == "Bearer "@ + token {
        bearer_token_goes_first(token, value, None);
    }
    if decode_utf8(value) == "Bearer "@ + other {
        bearer_token_goes_first(other, value, Some(header));
    }
}

/// How actions are answered, in numbers and words.
pub proof fn actions_are_answered(
    action: &AdminAction,
    status: Option<u16>,
    body: Option<&'static str>,
    challenge: Option<&'static str>,
)
    requires
        call_ensures(AdminAction::status, (action,), status),
        call_ensures(AdminAction::fixed_body, (action,), body),
        call_ensures(AdminAction::challenge, (action,), challenge),
    ensures
        *action == AdminAction::Unauthorized ==> status == Some(401u16) && opt_str(body) == Some(
            "{\"error\":\"unauthorized\"}"@,
        ) && opt_str(challenge) == Some("Bearer realm=\"yxorp-admin\""@),
        *action == AdminAction::NotFound ==> status == Some(404u16) && opt_str(body) == Some(
            "{\"error\":\"not found\"}"@,
        ),
        *action == AdminAction::MetricsDisabled ==> status == Some(404u16) && opt_str(body) == Some(
            "metrics disabled\n"@,
        ),
        *action == AdminAction::Healthy ==> status == Some(200u16) && opt_str(body) == Some(
            "{\"status\":\"ok\"}"@,
        ),
        *action == AdminAction::Ready ==> status == Some(200u16) && opt_str(body) == Some(
            "{\"status\":\"ready\"}"@,
        ),
        action is Command ==> status is None && body is None,
        action is State || action is Routes || action is Certs || action is Metrics || action is Ui
            ==> status == Some(200u16) && body is None,
        challenge is Some ==> *action == AdminAction::Unauthorized,
{
}

/// What came of a command is answered with 200 where it was carried out, 400 where it was
/// refused, and 503 where nobody answered.
pub proof fn commands_are_answered(message: String)
    ensures
        answer_of(CommandReply::Done(message)) == (200u16, "status"@, message@),
        answer_of(CommandReply::Refused(message)) == (400u16, "error"@, message@),
        answer_of(CommandReply::Unavailable) == (503u16, "error"@, "supervisor unavailable"@),
        answer_of(CommandReply::Dropped) == (503u16, "error"@, "supervisor dropped command"@),
{
}

/// Without its token a caller gets the three public pages only; with it every call is what its
/// method and path say; and without a configured token nobody is known.
pub proof fn requests_are_handled_by_token(
    method: &str,
    path: &str,
    expected: Option<&str>,
    authorization: Option<&[u8]>,
    header: Option<&[u8]>,
    metrics: bool,
    r: AdminAction,
)
    requires
        call_ensures(
            handle_request,
            (method, path, expected, authorization, header, metrics),
            r,
        ),
    ensures
        ({
            let known = known(opt_str(expected), opt_slice(authorization), opt_slice(header));
            let public = method@ == "GET"@ && (path@ == "/"@ || path@ == "/healthz"@ || path@
                == "/readyz"@);
            &&& r == AdminAction::Unauthorized <==> !known && !public
            &&& known && method@ == "POST"@ && path@ == "/reload"@ ==> r == AdminAction::Command(
                AdminCommand::Reload,
            )
            &&& known && method@ == "POST"@ && path@ == "/drain"@ ==> r == AdminAction::Command(
                AdminCommand::Drain,
            )
            &&& r matches AdminAction::Command(_) ==> known
            &&& method@ == "GET"@ && path@ == "/healthz"@ ==> r == AdminAction::Healthy
            &&& method@ == "GET"@ && path@ == "/readyz"@ ==> r == AdminAction::Ready
        }),
{
    let known = known(opt_str(expected), opt_slice(authorization), opt_slice(header));
    calls_lead_where_they_say(method@, path@, metrics);
    only_three_calls_are_public(method@, path@, metrics);
}

/// The pages that are read by people are text; all else is JSON.
pub proof fn answers_say_what_they_are(a: AdminAction, r: &'static str)
    requires
        call_ensures(AdminAction::content_type, (&a,), r),
    ensures
        a == AdminAction::Ui ==> r@ == "text/html; charset=utf-8"@,
        a == AdminAction::Metrics || a == AdminAction::MetricsDisabled ==> r@
            == "text/plain; charset=utf-8"@,
        a != AdminAction::Ui && a != AdminAction::Metrics && a != AdminAction::MetricsDisabled
            ==> r@ == "application/json"@,
{
}

} // verus!
