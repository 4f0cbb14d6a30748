//! What is sent to an upstream, and what its answers mean.

use vstd::prelude::*;
use vstd::string::*;

use crate::config::{Provider, ProviderView};
use crate::error::{BridgeError, ErrorView};
use crate::json::{Json, JsonValue};
use crate::text::{chars_of, clone_opt, concat2, trim_end_char};

verus! {

/// A request to an upstream: where it goes, and with which headers.
#[derive(Debug, PartialEq)]
pub struct RequestPlan {
    pub url: String,
    /// The key that is sent as a bearer token.
    pub bearer: Option<String>,
    pub headers: Vec<(String, String)>,
}

/// The model of a `RequestPlan`.
pub struct PlanView {
    pub url: Seq<char>,
    pub bearer: Option<Seq<char>>,
    pub headers: Seq<(Seq<char>, Seq<char>)>,
}

impl View for RequestPlan {
    type V = PlanView;

    open spec fn view(&self) -> PlanView {
        PlanView {
            url: self.url@,
            bearer: crate::text::opt_view(self.bearer),
            headers: crate::text::seq_view(self.headers@),
        }
    }
}

/// The request to a provider for a path: its base URL, without slashes at the end, and
/// the path; its key; and its extra headers.
pub open spec fn planned(p: ProviderView, path: Seq<char>) -> PlanView {
    PlanView {
        url: crate::text::without_trailing(p.base_url, '/') + path,
        bearer: p.api_key,
        headers: crate::dict::in_key_order(p.extra_headers),
    }
}

/// The request to a provider for a path.
pub fn request(provider: &Provider, path: &str) -> (r: RequestPlan)
    ensures
        r@ == planned(provider@, path@),
{
    let url = concat2(trim_end_char(provider.base_url.as_str(), '/'), path);
    let n = provider.extra_headers.len();
    let ghost pairs = provider.extra_headers.pairs();
    let mut headers: Vec<(String, String)> = Vec::new();
    let mut i: usize = 0;
    while i < n
        invariant
            i <= n,
            n == pairs.len(),
            pairs == provider.extra_headers.pairs(),
            headers@.len() == i,
            forall|j: int| 0 <= j < i ==> (#[trigger] headers@[j])@ == pairs[j],
        decreases n - i,
    {
        let k = provider.extra_headers.key(i).clone();
        let v = provider.extra_headers.value(i).clone();
        headers.push((k, v));
        i = i + 1;
    }
    assert(crate::text::seq_view(headers@) =~= pairs);
    RequestPlan { url, bearer: clone_opt(&provider.api_key), headers }
}

/// How many bytes a character takes in UTF-8.
pub open spec fn width(c: char) -> nat {
    vstd::utf8::encode_scalar(c as u32).len()
}

/// How many bytes a string takes in UTF-8.
pub open spec fn bytes_of(s: Seq<char>) -> nat {
    vstd::utf8::encode_utf8(s).len()
}

/// How many leading characters of `s` fit into `n` bytes.
pub open spec fn fitting(s: Seq<char>, n: int) -> nat
    decreases s.len(),
{
    if s.len() == 0 || width(s[0]) > n {
        0
    } else {
        1 + fitting(s.drop_first(), n - width(s[0]))
    }
}

/// `s`, or where it takes more than `n` bytes, as many of its characters as fit into
/// them, and an ellipsis.
pub open spec fn truncated(s: Seq<char>, n: nat) -> Seq<char> {
    if bytes_of(s) <= n {
        s
    } else {
        s.take(fitting(s, n as int) as int) + "\u{2026}"@
    }
}

fn char_width(c: char) -> (r: usize)
    ensures
        r == width(c),
        1 <= r <= 4,
{
    proof {
        vstd::utf8::char_is_scalar(c);
    }
    let u = c as u32;
    if u < 0x80 {
        1
    } else if u < 0x800 {
        2
    } else if u < 0x10000 {
        3
    } else {
        4
    }
}

/// `s`, cut to at most `n` bytes between two characters and marked where it was cut.
pub fn truncate(s: &str, n: usize) -> (r: String)
    ensures
        r@ == truncated(s@, n as nat),
{
    if s.as_bytes().len() <= n {
        return s.to_owned();
    }
    let chars = chars_of(s);
    let mut room: usize = n;
    let mut k: usize = 0;
    assert(s@.skip(0) =~= s@);
    while k < chars.len() && char_width(chars[k]) <= room
        invariant
            chars@ == s@,
            k <= chars@.len(),
            fitting(s@, n as int) == k + fitting(s@.skip(k as int), room as int),
        decreases chars@.len() - k,
    {
        assert(s@.skip(k as int)[0] == s@[k as int]);
        assert(s@.skip(k as int).drop_first() =~= s@.skip(k as int + 1));
        room = room - char_width(chars[k]);
        k = k + 1;
    }
    proof {
        if k < chars@.len() {
            assert(s@.skip(k as int)[0] == s@[k as int]);
        }
    }
    let head = s.substring_char(0, k);
    assert(head@ =~= s@.take(k as int));
    concat2(head, "\u{2026}")
}

proof fn lemma_bytes_take(s: Seq<char>, k: int)
    requires
        0 < k <= s.len(),
    ensures
        bytes_of(s.take(k)) == width(s[0]) + bytes_of(s.drop_first().take(k - 1)),
{
    assert(s.take(k)[0] == s[0]);
    assert(s.take(k).drop_first() =~= s.drop_first().take(k - 1));
}

/// What is kept of a text that is too long fits into the given bytes, and one character
/// more would not.
pub proof fn truncation_keeps_what_fits(s: Seq<char>, n: nat)
    requires
        bytes_of(s) > n,
    ensures
        fitting(s, n as int) < s.len(),
        bytes_of(s.take(fitting(s, n as int) as int)) <= n,
        bytes_of(s.take(fitting(s, n as int) as int + 1)) > n,
    decreases s.len(),
{
    if s.len() == 0 {
    } else if width(s[0]) > n {
        assert(s.take(0) =~= Seq::empty());
        lemma_bytes_take(s, 1);
    } else {
        let rest = s.drop_first();
        let m = (n - width(s[0])) as nat;
        assert(s.take(s.len() as int) =~= s);
        assert(rest.take(rest.len() as int) =~= rest);
        lemma_bytes_take(s, s.len() as int);
        truncation_keeps_what_fits(rest, m);
        let k = fitting(rest, m as int);
        lemma_bytes_take(s, k as int + 1);
        lemma_bytes_take(s, k as int + 2);
    }
}

/// What an upstream's status means: nothing where it is a success, or else an error with
/// the beginning of the answer.
pub open spec fn status_error(status: u16, text: Seq<char>) -> Option<ErrorView> {
    if 200 <= status <= 299 {
        None
    } else {
        Some(ErrorView::Upstream { status, message: truncated(text, 500) })
    }
}

/// What an upstream's status means.
pub fn check_status(status: u16, text: &str) -> (r: Option<BridgeError>)
    ensures
        crate::text::opt_view(r) == status_error(status, text@),
{
    if 200 <= status && status <= 299 {
        None
    } else {
        Some(BridgeError::Upstream { status, message: truncate(text, 500) })
    }
}

/// What became of sending a request.
#[derive(Debug, PartialEq)]
pub enum Delivery {
    /// The upstream answered with a status.
    Answered(u16),
    /// The upstream was not reached, or the connection broke.
    Broken(String),
    /// No headers came in time.
    TimedOut,
}

/// The error of a request that was not answered.
pub open spec fn delivery_error(d: Delivery) -> Option<ErrorView> {
    match d {
        Delivery::Answered(_) => None,
        Delivery::Broken(m) => Some(ErrorView::UpstreamUnreachable(m@)),
        Delivery::TimedOut => Some(
            ErrorView::UpstreamUnreachable("timeout waiting for response headers"@),
        ),
    }
}

/// The error of a request that was not answered.
pub fn check_delivery(d: &Delivery) -> (r: Option<BridgeError>)
    ensures
        crate::text::opt_view(r) == delivery_error(*d),
{
    match d {
        Delivery::Answered(_) => None,
        Delivery::Broken(m) => Some(BridgeError::UpstreamUnreachable(m.clone())),
        Delivery::TimedOut => Some(
            BridgeError::UpstreamUnreachable("timeout waiting for response headers".to_owned()),
        ),
    }
}

/// A whole answer: its document, or the error that it is none.
pub open spec fn read_answer(text: Seq<char>) -> Result<Json, ErrorView> {
    match crate::json::json_read(text) {
        Ok(j) => Ok(j),
        Err(m) => Err(ErrorView::Internal("bad upstream JSON: "@ + m)),
    }
}

/// A whole answer: its document, or the error that it is none.
pub fn parse_answer(text: &str) -> (r: Result<JsonValue, BridgeError>)
    ensures
        crate::text::res_view(r) == read_answer(text@),
{
    match JsonValue::read(text) {
        Ok(v) => Ok(v),
        Err(m) => Err(BridgeError::Internal(concat2("bad upstream JSON: ", m.as_str()))),
    }
}

/// An upstream that was not reached is worth another attempt, and so is one that is
/// broken, timed out, limits the rate, or refuses the key; what else it refuses is passed
/// on to the client, under its own status.
pub proof fn refusals_are_passed_on(d: Delivery, status: u16, text: Seq<char>)
    ensures
        delivery_error(d) matches Some(e) ==> crate::failover::retryable(e),
        match status_error(status, text) {
            None => 200 <= status <= 299,
            Some(e) => {
                &&& !(200 <= status <= 299)
                &&& crate::failover::retryable(e) == (500 <= status <= 599 || status == 401
                    || status == 402 || status == 408 || status == 429)
                &&& 100 <= status <= 999 ==> e.http_status() == status
            },
        },
{
}

} // verus!
