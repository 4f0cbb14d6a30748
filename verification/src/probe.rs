//! Provider probing: how a provider is asked, and what the answer says of it.

use vstd::prelude::*;
use vstd::string::*;

use crate::config::{ProbeSource, Provider, ProviderView, WireName};
use crate::config_json::{dict_json, opt_string};
use crate::double::{Double, DoubleView};
use crate::json::{Json, JsonValue};
use crate::store::{ProviderStatus, StatusView};
use crate::text::{concat2, concat3, decimal_string};

verus! {

/// How a provider is probed: by the script in a file, by an inline script, or by a mere
/// connectivity ping.
#[derive(Debug, PartialEq)]
pub enum ProbePlan {
    File(String),
    Inline(String),
    Ping,
}

/// The model of a `ProbePlan`.
pub enum ProbePlanView {
    File(Seq<char>),
    Inline(Seq<char>),
    Ping,
}

impl View for ProbePlan {
    type V = ProbePlanView;

    open spec fn view(&self) -> ProbePlanView {
        match *self {
            ProbePlan::File(p) => ProbePlanView::File(p@),
            ProbePlan::Inline(t) => ProbePlanView::Inline(t@),
            ProbePlan::Ping => ProbePlanView::Ping,
        }
    }
}

/// How a provider is probed.
pub open spec fn plan_for(p: ProviderView) -> ProbePlanView {
    match p.probe_source {
        ProbeSource::Path => match p.probe_script {
            Some(path) => ProbePlanView::File(path),
            None => ProbePlanView::Ping,
        },
        ProbeSource::Text => match p.probe_script_text {
            Some(text) => ProbePlanView::Inline(text),
            None => ProbePlanView::Ping,
        },
    }
}

/// How a provider is probed: by its script where it has a source for one, and by a
/// connectivity ping otherwise.
pub fn probe_plan(provider: &Provider) -> (r: ProbePlan)
    ensures
        r@ == plan_for(provider@),
{
    match provider.probe_source {
        ProbeSource::Path => match &provider.probe_script {
            Some(path) => ProbePlan::File(path.clone()),
            None => ProbePlan::Ping,
        },
        ProbeSource::Text => match &provider.probe_script_text {
            Some(text) => ProbePlan::Inline(text.clone()),
            None => ProbePlan::Ping,
        },
    }
}

/// The name of a wire format, for scripts.
pub fn wire_str(w: WireName) -> (r: &'static str)
    ensures
        r@ == crate::config::wire_name(w),
{
    w.as_str()
}

/// What a script is told of its provider.
pub open spec fn context_of(name: Seq<char>, p: ProviderView) -> Json {
    Json::obj().with("name"@, Json::Str(name)).with("base_url"@, Json::Str(p.base_url)).with(
        "api_key"@,
        Json::opt_str(p.api_key),
    ).with("extra_headers"@, crate::store::strings_json(p.extra_headers)).with(
        "wire"@,
        Json::Str(crate::config::wire_name(p.wire)),
    )
}

/// What a script is told of its provider.
pub fn probe_context(name: &str, provider: &Provider) -> (r: JsonValue)
    ensures
        r@ == context_of(name@, provider@),
{
    JsonValue::obj().with("name", JsonValue::str(name)).with(
        "base_url",
        JsonValue::str(provider.base_url.as_str()),
    ).with("api_key", opt_string(&provider.api_key)).with(
        "extra_headers",
        dict_json(&provider.extra_headers),
    ).with("wire", JsonValue::str(wire_str(provider.wire)))
}

/// The table a probe script returns.
#[derive(Debug, PartialEq)]
pub struct ProbeReturn {
    pub ok: bool,
    pub remaining: Option<Double>,
    pub used: Option<Double>,
    pub limit: Option<Double>,
    pub note: Option<String>,
}

/// What became of a probe.
#[derive(Debug, PartialEq)]
pub enum Outcome {
    /// The script returned.
    Returned(ProbeReturn),
    /// The script failed.
    ScriptFailed(String),
    /// The task that ran the script failed.
    TaskFailed(String),
    /// The script could not be read.
    Unreadable { path: String, error: String },
    /// The provider answered a ping with a status.
    Pinged(u16),
    /// The provider did not answer a ping.
    PingFailed(String),
    /// The ping could not be sent at all.
    NoClient(String),
}

/// The model of a `ProbeReturn`.
pub struct ReturnView {
    pub ok: bool,
    pub remaining: Option<DoubleView>,
    pub used: Option<DoubleView>,
    pub limit: Option<DoubleView>,
    pub note: Option<Seq<char>>,
}

/// The model of an `Outcome`.
pub enum OutcomeView {
    Returned(ReturnView),
    ScriptFailed(Seq<char>),
    TaskFailed(Seq<char>),
    Unreadable { path: Seq<char>, error: Seq<char> },
    Pinged(u16),
    PingFailed(Seq<char>),
    NoClient(Seq<char>),
}

impl View for ProbeReturn {
    type V = ReturnView;

    open spec fn view(&self) -> ReturnView {
        ReturnView {
            ok: self.ok,
            remaining: crate::text::opt_view(self.remaining),
            used: crate::text::opt_view(self.used),
            limit: crate::text::opt_view(self.limit),
            note: crate::text::opt_view(self.note),
        }
    }
}

impl View for Outcome {
    type V = OutcomeView;

    open spec fn view(&self) -> OutcomeView {
        match *self {
            Outcome::Returned(r) => OutcomeView::Returned(r@),
            Outcome::ScriptFailed(e) => OutcomeView::ScriptFailed(e@),
            Outcome::TaskFailed(e) => OutcomeView::TaskFailed(e@),
            Outcome::Unreadable { path, error } => OutcomeView::Unreadable {
                path: path@,
                error: error@,
            },
            Outcome::Pinged(s) => OutcomeView::Pinged(s),
            Outcome::PingFailed(e) => OutcomeView::PingFailed(e@),
            Outcome::NoClient(e) => OutcomeView::NoClient(e@),
        }
    }
}

/// The status of a provider whose probe failed.
pub open spec fn failed(now: i64, message: Seq<char>) -> StatusView {
    StatusView { last_checked: Some(now), error: Some(message), ..StatusView::unknown() }
}

/// The status of a provider after a probe.
pub open spec fn probed_status(base_url: Seq<char>, now: i64, outcome: OutcomeView) -> StatusView {
    match outcome {
        OutcomeView::Returned(r) => StatusView {
            available: r.ok,
            quota_remaining: r.remaining,
            quota_used: r.used,
            quota_limit: r.limit,
            last_checked: Some(now),
            last_ok: r.ok,
            error: None,
            note: r.note,
        },
        OutcomeView::ScriptFailed(e) => failed(now, e),
        OutcomeView::TaskFailed(e) => failed(now, "probe task failed: "@ + e),
        OutcomeView::Unreadable { path, error } => failed(now, "read "@ + path + ": "@ + error),
        OutcomeView::Pinged(status) => StatusView {
            available: true,
            last_checked: Some(now),
            last_ok: true,
            note: Some("ping "@ + base_url + " -> "@ + crate::text::decimal(status as nat)),
            ..StatusView::unknown()
        },
        OutcomeView::PingFailed(e) => failed(now, "ping failed: "@ + e),
        OutcomeView::NoClient(e) => failed(now, e),
    }
}

/// The status of a provider whose probe failed.
pub fn err_status(now: i64, message: String) -> (r: ProviderStatus)
    ensures
        r@ == failed(now, message@),
{
    ProviderStatus {
        available: false,
        quota_remaining: None,
        quota_used: None,
        quota_limit: None,
        last_checked: Some(now),
        last_ok: false,
        error: Some(message),
        note: None,
    }
}

/// The status of a provider after a probe.
pub fn probe_status(provider: &Provider, now: i64, outcome: Outcome) -> (r: ProviderStatus)
    ensures
        r@ == probed_status(provider@.base_url, now, outcome@),
{
    match outcome {
        Outcome::Returned(ret) => ProviderStatus {
            available: ret.ok,
            quota_remaining: ret.remaining,
            quota_used: ret.used,
            quota_limit: ret.limit,
            last_checked: Some(now),
            last_ok: ret.ok,
            error: None,
            note: ret.note,
        },
        Outcome::ScriptFailed(e) => err_status(now, e),
        Outcome::TaskFailed(e) => err_status(now, concat2("probe task failed: ", e.as_str())),
        Outcome::Unreadable { path, error } => {
            let mut m = concat3("read ", path.as_str(), ": ");
            m.append(error.as_str());
            err_status(now, m)
        },
        Outcome::Pinged(status) => {
            let mut note = concat3("ping ", provider.base_url.as_str(), " -> ");
            note.append(decimal_string(status as u64).as_str());
            ProviderStatus {
                available: true,
                quota_remaining: None,
                quota_used: None,
                quota_limit: None,
                last_checked: Some(now),
                last_ok: true,
                error: None,
                note: Some(note),
            }
        },
        Outcome::PingFailed(e) => err_status(now, concat2("ping failed: ", e.as_str())),
        Outcome::NoClient(e) => err_status(now, e),
    }
}

/// A probe dates the status and is either trusted or not: the provider is available
/// exactly when the probe went well, and a probe that did not come to a result leaves an
/// error.
pub proof fn probes_are_conclusive(base_url: Seq<char>, now: i64, outcome: OutcomeView)
    ensures
        ({
            let s = probed_status(base_url, now, outcome);
            &&& s.last_checked == Some(now)
            &&& s.available == s.last_ok
            &&& s.error is None <==> (outcome is Returned || outcome is Pinged)
            &&& s.error is Some ==> !s.available
        }),
{
}

} // verus!
