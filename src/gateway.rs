//! Per-request decisions of the gateway: the session gate, the body cap,
//! upstream failure mapping and the choice between rewriting and streaming.
use vstd::prelude::*;

use crate::resolve::{has_target, resolve_target, resolved};
use crate::text::{chars_of, extend_range, has_at, has_at_exec, string_from_chars};

verus! {

/// Name of the cookie whose presence says that the client's service worker is installed.
pub const SESSION_MARKER: &'static str = "trev-proxy-service-worker-installed";

/// Largest request body that is buffered when no `content-length` says otherwise: 100 MB.
pub const DEFAULT_BODY_CAP: u64 = 100_000_000;

pub const STATUS_BAD_REQUEST: u16 = 400;

pub const STATUS_INTERNAL_SERVER_ERROR: u16 = 500;

/// How an outbound call failed.
pub enum FailureKind {
    /// The request itself failed, with the status the client library reported, if any.
    Request { status: Option<u16> },
    /// Anything else: connection, timeout, body or decode failure.
    Other,
}

/// A failure resolved into a single response at the request boundary.
pub enum GatewayError {
    /// The inbound path names no target.
    BadRequest,
    /// The declared body exceeds the cap.
    BodyTooLarge,
    /// The request body could not be buffered.
    BodyRead { message: String },
    /// The outbound call failed.
    Upstream { status: u16, message: String },
    /// The HTML response body could not be read as text.
    UpstreamDecode,
}

pub open spec fn failure_status(kind: FailureKind) -> u16 {
    match kind {
        FailureKind::Request { status: Some(s) } => s,
        _ => STATUS_INTERNAL_SERVER_ERROR,
    }
}

/// Maps a failed outbound call to its error: the reported status of a request
/// error when there is one, else internal server error; the message is kept.
pub fn upstream_error(kind: FailureKind, message: String) -> (r: GatewayError)
    ensures
        r == (GatewayError::Upstream { status: failure_status(kind), message }),
{
    let status: u16 = match kind {
        FailureKind::Request { status: Some(s) } => s,
        _ => STATUS_INTERNAL_SERVER_ERROR,
    };
    GatewayError::Upstream { status, message }
}

pub open spec fn error_status(e: GatewayError) -> u16 {
    match e {
        GatewayError::BadRequest => STATUS_BAD_REQUEST,
        GatewayError::Upstream { status, .. } => status,
        _ => STATUS_INTERNAL_SERVER_ERROR,
    }
}

impl GatewayError {
    /// The response status for this error.
    pub fn status(&self) -> (r: u16)
        ensures
            r == error_status(*self),
    {
        match self {
            GatewayError::BadRequest => STATUS_BAD_REQUEST,
            GatewayError::Upstream { status, .. } => *status,
            _ => STATUS_INTERNAL_SERVER_ERROR,
        }
    }

    /// The response body for this error.
    pub fn message(&self) -> (r: String)
        ensures
            self matches GatewayError::BodyRead { message } ==> r@ == message@,
            self matches GatewayError::Upstream { message, .. } ==> r@ == message@,
            self is BadRequest ==> r@ == "invalid url"@,
            self is BodyTooLarge ==> r@ == "request body is too large"@,
            self is UpstreamDecode ==> r@ == "could not get the response text"@,
    {
        match self {
            GatewayError::BadRequest => "invalid url".to_owned(),
            GatewayError::BodyTooLarge => "request body is too large".to_owned(),
            GatewayError::BodyRead { message } => message.clone(),
            GatewayError::Upstream { message, .. } => message.clone(),
            GatewayError::UpstreamDecode => "could not get the response text".to_owned(),
        }
    }
}

pub open spec fn is_digit(c: char) -> bool {
    '0' <= c && c <= '9'
}

pub open spec fn digit_value(c: char) -> int {
    (c as u32) - ('0' as u32)
}

/// Value of the decimal numeral `s`.
pub open spec fn decimal_value(s: Seq<char>) -> int
    decreases s.len(),
{
    if s.len() == 0 {
        0
    } else {
        decimal_value(s.drop_last()) * 10 + digit_value(s.last())
    }
}

/// The digits of a numeral: after an optional leading `+`.
pub open spec fn numeral_digits(s: Seq<char>) -> Seq<char> {
    if s.len() > 0 && s[0] == '+' {
        s.drop_first()
    } else {
        s
    }
}

/// `s` is an unsigned decimal numeral whose value fits in a `u64`.
pub open spec fn is_u64_numeral(s: Seq<char>) -> bool {
    let d = numeral_digits(s);
    d.len() > 0 && (forall|i: int| 0 <= i < d.len() ==> is_digit(d[i])) && decimal_value(d)
        <= u64::MAX
}

proof fn lemma_decimal_monotone(s: Seq<char>, k: int)
    requires
        0 <= k <= s.len(),
        forall|i: int| 0 <= i < s.len() ==> is_digit(s[i]),
    ensures
        decimal_value(s.subrange(0, k)) <= decimal_value(s),
    decreases s.len() - k,
{
    if k < s.len() {
        lemma_decimal_monotone(s, k + 1);
        let t = s.subrange(0, k + 1);
        assert(t.drop_last() =~= s.subrange(0, k));
        assert(decimal_value(s.subrange(0, k)) >= 0) by {
            lemma_decimal_nonneg(s.subrange(0, k));
        }
    } else {
        assert(s.subrange(0, k) =~= s);
    }
}

proof fn lemma_decimal_nonneg(s: Seq<char>)
    requires
        forall|i: int| 0 <= i < s.len() ==> is_digit(s[i]),
    ensures
        decimal_value(s) >= 0,
    decreases s.len(),
{
    if s.len() > 0 {
        lemma_decimal_nonneg(s.drop_last());
    }
}

/// Reads a `content-length` value: `Some` exactly when it is a decimal
/// numeral (optionally with a leading `+`) whose value fits in a `u64`.
pub fn parse_content_length(s: &str) -> (r: Option<u64>)
    ensures
        r is Some <==> is_u64_numeral(s@),
        r matches Some(v) ==> v == decimal_value(numeral_digits(s@)),
{
    let all = chars_of(s);
    let start: usize = if all.len() > 0 && all[0] == '+' { 1 } else { 0 };
    let mut d: Vec<char> = Vec::new();
    extend_range(&mut d, &all, start, all.len());
    assert(d@ =~= numeral_digits(s@));
    if d.len() == 0 {
        return None;
    }
    let mut v: u64 = 0;
    let mut i: usize = 0;
    while i < d.len()
        invariant
            i <= d.len(),
            d@ == numeral_digits(s@),
            d.len() > 0,
            forall|k: int| 0 <= k < i ==> is_digit(d@[k]),
            v == decimal_value(d@.subrange(0, i as int)),
        decreases d.len() - i,
    {
        let c = d[i];
        if !('0' <= c && c <= '9') {
            assert(!is_digit(d@[i as int]));
            return None;
        }
        let digit: u64 = ((c as u32) - ('0' as u32)) as u64;
        assert(d@.subrange(0, i + 1).drop_last() =~= d@.subrange(0, i as int));
        assert(d@.subrange(0, i + 1).last() == c);
        assert(decimal_value(d@.subrange(0, i + 1)) == v * 10 + digit);
        if v > (u64::MAX - digit) / 10 {
            proof {
                assert(decimal_value(d@.subrange(0, i + 1)) > u64::MAX) by (nonlinear_arith)
                    requires
                        decimal_value(d@.subrange(0, i + 1)) == v * 10 + digit,
                        v > (u64::MAX - digit) / 10,
                        digit <= 9,
                ;
                if forall|k: int| 0 <= k < d.len() ==> is_digit(d@[k]) {
                    lemma_decimal_monotone(d@, i + 1);
                }
            }
            return None;
        }
        v = v * 10 + digit;
        i += 1;
    }
    assert(d@.subrange(0, d.len() as int) =~= d@);
    Some(v)
}

/// The body limit for a declared `content-length`: the declared value when it
/// is a numeral within the cap, the cap when there is none or it does not parse,
/// and an error when it exceeds the cap.
pub open spec fn body_limit_for(declared: Option<&str>) -> Result<u64, ()> {
    match declared {
        Some(s) => if is_u64_numeral(s@) {
            if decimal_value(numeral_digits(s@)) > DEFAULT_BODY_CAP {
                Err(())
            } else {
                Ok(decimal_value(numeral_digits(s@)) as u64)
            }
        } else {
            Ok(DEFAULT_BODY_CAP)
        },
        None => Ok(DEFAULT_BODY_CAP),
    }
}

/// `/?back=` followed by the requested path: where an unestablished client is sent.
pub open spec fn onboarding_location(path: Seq<char>) -> Seq<char> {
    seq!['/', '?', 'b', 'a', 'c', 'k', '='] + path
}

/// What to do with an inbound request on the rewriting route.
pub enum ProxyPlan {
    /// No session marker: redirect temporarily to the onboarding page.
    Redirect { location: String },
    /// Answer with an error; nothing is forwarded.
    Reject { error: GatewayError },
    /// Forward to `target`, buffering at most `body_limit` bytes of body.
    Forward { target: String, body_limit: u64 },
}

/// Gate, resolve and cap one request: without the session marker the client is
/// redirected to `/?back=<path>`; a path with no target is a bad request; a
/// declared body over the cap is rejected; otherwise the request is forwarded to
/// the resolved target.
pub fn plan_proxy_request(path_and_query: &str, has_marker: bool, content_length: Option<&str>) -> (r: ProxyPlan)
    ensures
        !has_marker <==> r is Redirect,
        r matches ProxyPlan::Redirect { location } ==> location@ == onboarding_location(path_and_query@),
        r matches ProxyPlan::Reject { error } ==> (error is BadRequest || error is BodyTooLarge),
        r == (ProxyPlan::Reject { error: GatewayError::BadRequest }) <==> has_marker && !has_target(path_and_query@),
        (r matches ProxyPlan::Reject { error } && error is BodyTooLarge) <==> (has_marker && has_target(
            path_and_query@,
        ) && body_limit_for(content_length) is Err),
        r matches ProxyPlan::Forward { target, body_limit } ==> target@ == resolved(path_and_query@)
            && body_limit_for(content_length) == Ok::<u64, ()>(body_limit),
{
    if !has_marker {
        let mut loc: Vec<char> = vec!['/', '?', 'b', 'a', 'c', 'k', '='];
        let p = chars_of(path_and_query);
        extend_range(&mut loc, &p, 0, p.len());
        assert(p@.subrange(0, p@.len() as int) =~= p@);
        assert(loc@ =~= onboarding_location(path_and_query@));
        return ProxyPlan::Redirect { location: string_from_chars(loc) };
    }
    let target = match resolve_target(path_and_query) {
        Some(t) => t,
        None => return ProxyPlan::Reject { error: GatewayError::BadRequest },
    };
    let limit: u64 = match content_length {
        Some(c) => match parse_content_length(c) {
            Some(v) => if v > DEFAULT_BODY_CAP {
                return ProxyPlan::Reject { error: GatewayError::BodyTooLarge };
            } else {
                v
            },
            None => DEFAULT_BODY_CAP,
        },
        None => DEFAULT_BODY_CAP,
    };
    ProxyPlan::Forward { target, body_limit: limit }
}

/// The response's content type says HTML: it contains `text/html`.
pub open spec fn is_html_type(ct: Seq<char>) -> bool {
    exists|i: int| #[trigger] has_at(ct, i, html_marker())
}

/// `text/html`.
pub open spec fn html_marker() -> Seq<char> {
    seq!['t', 'e', 'x', 't', '/', 'h', 't', 'm', 'l']
}

fn contains_html(ct: &str) -> (r: bool)
    ensures
        r == is_html_type(ct@),
{
    let s = chars_of(ct);
    let pat: Vec<char> = vec!['t', 'e', 'x', 't', '/', 'h', 't', 'm', 'l'];
    assert(pat@ =~= html_marker());
    let mut i: usize = 0;
    while i < s.len()
        invariant
            i <= s.len(),
            s@ == ct@,
            pat@ == html_marker(),
            forall|k: int| 0 <= k < i ==> !has_at(s@, k, pat@),
        decreases s.len() - i,
    {
        if has_at_exec(&s, i, &pat) {
            assert(has_at(ct@, i as int, html_marker()));
            return true;
        }
        i += 1;
    }
    assert forall|k: int| !has_at(s@, k, pat@) by {}
    false
}

/// Whether a response with this `content-type` is rewritten (HTML) rather than
/// streamed unmodified.
pub fn is_html(content_type: Option<&str>) -> (r: bool)
    ensures
        r <==> (content_type matches Some(ct) && is_html_type(ct@)),
{
    match content_type {
        None => false,
        Some(ct) => contains_html(ct),
    }
}

/// `https://<hostname>/proxy/`: the base that rewritten references route through.
pub fn gateway_base_url(hostname: &str) -> (r: String)
    ensures
        r@ == seq!['h', 't', 't', 'p', 's', ':', '/', '/'] + hostname@ + seq![
            '/',
            'p',
            'r',
            'o',
            'x',
            'y',
            '/',
        ],
{
    let mut out: Vec<char> = vec!['h', 't', 't', 'p', 's', ':', '/', '/'];
    let h = chars_of(hostname);
    extend_range(&mut out, &h, 0, h.len());
    let tail: Vec<char> = vec!['/', 'p', 'r', 'o', 'x', 'y', '/'];
    extend_range(&mut out, &tail, 0, tail.len());
    assert(h@.subrange(0, h@.len() as int) =~= h@);
    assert(tail@.subrange(0, tail@.len() as int) =~= tail@);
    assert(out@ =~= seq!['h', 't', 't', 'p', 's', ':', '/', '/'] + hostname@ + seq![
        '/',
        'p',
        'r',
        'o',
        'x',
        'y',
        '/',
    ]);
    string_from_chars(out)
}

} // verus!
