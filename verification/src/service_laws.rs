//! What clients are told of failures, what upstreams are sent, and what probes find.

use vstd::prelude::*;

use crate::config::ProviderView;
use crate::error::ErrorView;
use crate::failover::AttemptView;
use crate::json::Json;
use crate::probe::{OutcomeView, ProbePlanView};
use crate::store::StatusView;
use crate::upstream::Delivery;
use crate::watcher::WatchView;

verus! {

/// Every kind of error has its status: a bad request and an unknown model, a missing
/// authorization, what is not found or in conflict, what is not implemented, and what fails
/// inside. An upstream's own status is passed on where it is one, and is a bad gateway's
/// otherwise.
pub proof fn errors_have_their_statuses(e: ErrorView)
    ensures
        e is BadRequest || e is UnknownModel ==> e.http_status() == 400,
        e is Unauthorized ==> e.http_status() == 401,
        e is NotFound ==> e.http_status() == 404,
        e is Conflict ==> e.http_status() == 409,
        e is NotImplemented ==> e.http_status() == 501,
        e is Internal ==> e.http_status() == 500,
        e is UpstreamUnreachable ==> e.http_status() == 502,
        e matches ErrorView::Upstream { status, .. } ==> (100 <= status <= 999 ==> e.http_status()
            == status) && (!(100 <= status <= 999) ==> e.http_status() == 502),
{
}

/// The words of an error say its kind and then its message, and its body gives the words.
pub proof fn errors_say_what_they_are(e: ErrorView, m: Seq<char>)
    ensures
        e == ErrorView::BadRequest(m) ==> e.text() == "bad request: "@ + m,
        e == ErrorView::Unauthorized(m) ==> e.text() == "unauthorized: "@ + m,
        e == ErrorView::UnknownModel(m) ==> e.text() == "unknown model: "@ + m,
        e == ErrorView::NotFound(m) ==> e.text() == "not found: "@ + m,
        e == ErrorView::Conflict(m) ==> e.text() == "conflict: "@ + m,
        e == ErrorView::UpstreamUnreachable(m) ==> e.text() == "upstream unreachable: "@ + m,
        e == ErrorView::NotImplemented(m) ==> e.text() == "not implemented: "@ + m,
        e == ErrorView::Internal(m) ==> e.text() == "internal error: "@ + m,
        e matches ErrorView::Upstream { status, message } ==> e.text() == "upstream error ("@
            + crate::text::decimal(status as nat) + "): "@ + message,
        e.body().get2("error"@, "message"@) == Some(Json::Str(e.text())),
        e.body().get2("error"@, "type"@) == Some(Json::Str("bridge_error"@)),
{
    reveal_strlit("message");
    reveal_strlit("type");
    assert("message"@.len() == 7 && "type"@.len() == 4);
}

/// Another candidate is asked where an upstream was not reached, where it is broken, or
/// where it refuses the key, the payment, the time or the rate; and in no other case.
pub proof fn only_upstream_troubles_are_tried_again(e: ErrorView)
    ensures
        e is UpstreamUnreachable ==> crate::failover::retryable(e),
        e matches ErrorView::Upstream { status, .. } ==> (crate::failover::retryable(e) <==> {
            ||| status == 401
            ||| status == 402
            ||| status == 408
            ||| status == 429
            ||| status / 100 == 5
        }),
        !(e is UpstreamUnreachable) && !(e is Upstream) ==> !crate::failover::retryable(e),
{
}

/// A chain is asked from its head on, and after a failure at its next place. It is given up
/// at its end and where a failure is not worth another attempt, with that failure; and at
/// once where it is empty.
pub proof fn chains_are_asked_along(n: nat, i: nat, e: ErrorView)
    ensures
        n > 0 ==> crate::failover::first(n) == AttemptView::Ask(0),
        n == 0 ==> crate::failover::first(n) == AttemptView::GiveUp(
            ErrorView::Internal("no upstream candidates"@),
        ),
        crate::failover::retryable(e) && i + 1 < n ==> crate::failover::next(n, i, e)
            == AttemptView::Ask(i + 1),
        !crate::failover::retryable(e) || i + 1 >= n ==> crate::failover::next(n, i, e)
            == AttemptView::GiveUp(e),
{
}

/// A provider that failed is marked: it is not available, and its status says with which
/// error the request failed. What else was known of it stays; where nothing was, nothing is.
pub proof fn failed_providers_are_marked(status: Option<StatusView>, e: ErrorView)
    ensures
        ({
            let s = crate::failover::degraded(status, e);
            &&& !s.available
            &&& !s.last_ok
            &&& s.error == Some("request failed: "@ + e.text())
            &&& status matches Some(old_status) ==> {
                &&& s.quota_remaining == old_status.quota_remaining
                &&& s.quota_used == old_status.quota_used
                &&& s.quota_limit == old_status.quota_limit
                &&& s.last_checked == old_status.last_checked
                &&& s.note == old_status.note
            }
            &&& status is None ==> {
                &&& s.quota_remaining is None
                &&& s.quota_used is None
                &&& s.quota_limit is None
                &&& s.last_checked is None
                &&& s.note is None
            }
        }),
{
}

proof fn lemma_without_trailing(s: Seq<char>, c: char)
    ensures
        ({
            let t = crate::text::without_trailing(s, c);
            &&& t.len() <= s.len()
            &&& t == s.take(t.len() as int)
            &&& t.len() > 0 ==> t.last() != c
            &&& forall|i: int| t.len() <= i < s.len() ==> #[trigger] s[i] == c
        }),
    decreases s.len(),
{
    let t = crate::text::without_trailing(s, c);
    if s.len() > 0 && s.last() == c {
        let init = s.drop_last();
        lemma_without_trailing(init, c);
        assert(t =~= s.take(t.len() as int));
        assert forall|i: int| t.len() <= i < s.len() implies #[trigger] s[i] == c by {
            if i < init.len() {
                assert(init[i] == s[i]);
            }
        }
    } else {
        assert(s.take(s.len() as int) =~= s);
    }
}

/// A request goes to the base URL of its provider with the path behind it: slashes at the
/// end of the base are left out, so that there is one between the two. It carries the
/// provider's key and its extra headers, in the order of their names.
pub proof fn requests_go_to_their_provider(
    p: ProviderView,
    path: Seq<char>,
    headers: Seq<(Seq<char>, Seq<char>)>,
) -> (n: int)
    requires
        crate::dict::ascending(headers),
        crate::dict::pairs_map(headers) == p.extra_headers,
    ensures
        ({
            let r = crate::upstream::planned(p, path);
            &&& 0 <= n <= p.base_url.len()
            &&& r.url == p.base_url.take(n) + path
            &&& n > 0 ==> p.base_url[n - 1] != '/'
            &&& forall|i: int| n <= i < p.base_url.len() ==> #[trigger] p.base_url[i] == '/'
            &&& r.bearer == p.api_key
            &&& r.headers == headers
        }),
{
    lemma_without_trailing(p.base_url, '/');
    crate::dict::key_order_is_unique(headers);
    let t = crate::text::without_trailing(p.base_url, '/');
    assert(t.len() > 0 ==> t.last() == p.base_url[t.len() - 1]);
    t.len() as int
}

/// A text that fits is kept as it is. One that does not is cut after as many characters as
/// fit, and an ellipsis is put behind them.
pub proof fn long_texts_are_cut(s: Seq<char>, n: nat) -> (k: int)
    ensures
        crate::upstream::bytes_of(s) <= n ==> crate::upstream::truncated(s, n) == s,
        crate::upstream::bytes_of(s) > n ==> {
            &&& 0 <= k < s.len()
            &&& crate::upstream::truncated(s, n) == s.take(k) + "\u{2026}"@
            &&& vstd::utf8::encode_utf8(s.take(k)).len() <= n
            &&& vstd::utf8::encode_utf8(s.take(k + 1)).len() > n
        },
        crate::upstream::bytes_of(s) == vstd::utf8::encode_utf8(s).len(),
{
    if crate::upstream::bytes_of(s) > n {
        crate::upstream::truncation_keeps_what_fits(s, n);
    }
    crate::upstream::fitting(s, n as int) as int
}

/// An upstream that answers with a success is no error. Any other status is one, with this
/// status and the first five hundred bytes of the answer; and so is an upstream that does
/// not answer.
pub proof fn upstream_failures_are_told(status: u16, text: Seq<char>, d: Delivery)
    ensures
        200 <= status < 300 <==> crate::upstream::status_error(status, text) is None,
        crate::upstream::status_error(status, text) matches Some(e) ==> e == (ErrorView::Upstream {
            status,
            message: crate::upstream::truncated(text, 500),
        }),
        d is Answered <==> crate::upstream::delivery_error(d) is None,
        d matches Delivery::Broken(m) ==> crate::upstream::delivery_error(d) == Some(
            ErrorView::UpstreamUnreachable(m@),
        ),
        d is TimedOut ==> crate::upstream::delivery_error(d) == Some(
            ErrorView::UpstreamUnreachable("timeout waiting for response headers"@),
        ),
{
}

/// An answer that is a document is read as this document; any other is an error that says
/// why.
pub proof fn answers_are_documents(text: Seq<char>)
    ensures
        match crate::json::json_read(text) {
            Ok(j) => crate::upstream::read_answer(text) == Ok::<Json, ErrorView>(j),
            Err(m) => crate::upstream::read_answer(text) == Err::<Json, ErrorView>(
                ErrorView::Internal("bad upstream JSON: "@ + m),
            ),
        },
{
}

/// A provider is probed by the script in its file or by its own script, as its source says;
/// and where it has none there, by a ping.
pub proof fn probes_follow_their_source(p: ProviderView)
    ensures
        ({
            let plan = crate::probe::plan_for(p);
            &&& p.probe_source is Path ==> match p.probe_script {
                Some(path) => plan == ProbePlanView::File(path),
                None => plan is Ping,
            }
            &&& p.probe_source is Text ==> match p.probe_script_text {
                Some(text) => plan == ProbePlanView::Inline(text),
                None => plan is Ping,
            }
        }),
{
}

/// A script is told the name of its provider, its base URL, its key, its extra headers and
/// its wire format.
pub proof fn scripts_know_their_provider(name: Seq<char>, p: ProviderView, header: Seq<char>)
    ensures
        ({
            let c = crate::probe::context_of(name, p);
            let headers = c.get("extra_headers"@)->0;
            &&& c.get("name"@) == Some(Json::Str(name))
            &&& c.get("base_url"@) == Some(Json::Str(p.base_url))
            &&& match p.api_key {
                Some(k) => c.get("api_key"@) == Some(Json::Str(k)),
                None => c.get("api_key"@) == Some(Json::Null),
            }
            &&& c.get("extra_headers"@) is Some
            &&& headers is Obj
            &&& p.extra_headers.dom().contains(header) ==> headers.get(header) == Some(
                Json::Str(p.extra_headers[header]),
            )
            &&& !p.extra_headers.dom().contains(header) ==> headers.get(header) is None
            &&& c.get("wire"@) == Some(
                Json::Str(
                    match p.wire {
                        crate::config::WireName::OpenaiChat => "openai-chat"@,
                        crate::config::WireName::OpenaiResponses => "openai-responses"@,
                        crate::config::WireName::AnthropicMessages => "anthropic-messages"@,
                    },
                ),
            )
        }),
{
    reveal_strlit("name");
    reveal_strlit("base_url");
    reveal_strlit("api_key");
    reveal_strlit("extra_headers");
    reveal_strlit("wire");
    assert("name"@.len() == 4 && "base_url"@.len() == 8 && "api_key"@.len() == 7);
    assert("extra_headers"@.len() == 13 && "wire"@.len() == 4);
    assert("name"@[0] == 'n' && "wire"@[0] == 'w');
}

/// What a probe finds is the provider's status: what a script returns, member by member; or
/// that a ping was answered, and how; or that and why the probe failed. Nothing else is
/// known of the provider then.
pub proof fn probes_are_taken_on(base_url: Seq<char>, now: i64, outcome: OutcomeView)
    ensures
        ({
            let s = crate::probe::probed_status(base_url, now, outcome);
            &&& s.last_checked == Some(now)
            &&& outcome matches OutcomeView::Returned(r) ==> {
                &&& s.available == r.ok
                &&& s.last_ok == r.ok
                &&& s.quota_remaining == r.remaining
                &&& s.quota_used == r.used
                &&& s.quota_limit == r.limit
                &&& s.note == r.note
                &&& s.error is None
            }
            &&& !(outcome is Returned) ==> s.quota_remaining is None && s.quota_used is None
                && s.quota_limit is None
            &&& outcome matches OutcomeView::Pinged(status) ==> {
                &&& s.available
                &&& s.last_ok
                &&& s.error is None
                &&& s.note == Some(
                    "ping "@ + base_url + " -> "@ + crate::text::decimal(status as nat),
                )
            }
            &&& !(outcome is Returned) && !(outcome is Pinged) ==> !s.available && !s.last_ok
                && s.note is None
            &&& outcome matches OutcomeView::ScriptFailed(e) ==> s.error == Some(e)
            &&& outcome matches OutcomeView::NoClient(e) ==> s.error == Some(e)
            &&& outcome matches OutcomeView::TaskFailed(e) ==> s.error == Some(
                "probe task failed: "@ + e,
            )
            &&& outcome matches OutcomeView::PingFailed(e) ==> s.error == Some("ping failed: "@ + e)
            &&& outcome matches OutcomeView::Unreadable { path, error } ==> s.error == Some(
                "read "@ + path + ": "@ + error,
            )
        }),
{
}

/// A provider is probed in the background where it says so; where it says nothing, where it
/// has a script. It is probed as often as it says, but not without a pause, and every five
/// minutes where it says nothing.
pub proof fn probing_is_as_configured(p: ProviderView)
    ensures
        p.probe_enabled matches Some(b) ==> p.probed() == b,
        p.probe_enabled is None && p.probe_source is Path ==> (p.probed()
            <==> p.probe_script is Some),
        p.probe_enabled is None && p.probe_source is Text && p.probe_script_text is None
            ==> !p.probed(),
        p.probe_enabled is None && p.probe_source is Text ==> (p.probe_script_text matches Some(s)
            ==> (p.probed() <==> crate::text::trimmed(s).len() > 0)),
        p.probe_interval_secs is None ==> p.interval() == 300,
        p.probe_interval_secs matches Some(n) ==> (n > 0 ==> p.interval() == n) && (n == 0
            ==> p.interval() == 1),
{
}

/// The providers that are probed in the background are watched, in the order of their names,
/// each as often as it is to be probed; and no others are.
pub proof fn watches_are_the_probed_providers(
    all: Seq<(Seq<char>, ProviderView)>,
    name: Seq<char>,
    p: ProviderView,
)
    requires
        crate::dict::ascending(all.push((name, p))),
    ensures
        crate::watcher::watches_of(crate::dict::pairs_map(Seq::<(Seq<char>, ProviderView)>::empty()))
            == Seq::<WatchView>::empty(),
        ({
            let before = crate::watcher::watches_of(crate::dict::pairs_map(all));
            let after = crate::watcher::watches_of(crate::dict::pairs_map(all.push((name, p))));
            if p.probed() {
                &&& after.len() == before.len() + 1
                &&& after.drop_last() == before
                &&& after.last().provider == name
                &&& after.last().every_secs == p.interval()
            } else {
                after == before
            }
        }),
{
    let f = |e: (Seq<char>, ProviderView)|
        if e.1.probed() {
            Some(WatchView { provider: e.0, every_secs: e.1.interval() })
        } else {
            None
        };
    let more = all.push((name, p));
    assert forall|i: int, j: int| 0 <= i < j < all.len() implies crate::dict::str_lt(
        (#[trigger] all[i]).0,
        (#[trigger] all[j]).0,
    ) by {
        assert(crate::dict::str_lt(more[i].0, more[j].0));
    }
    crate::dict::key_order_is_unique(all);
    crate::dict::key_order_is_unique(more);
    crate::dict::key_order_is_unique(Seq::<(Seq<char>, ProviderView)>::empty());
    more.lemma_filter_map_take_succ(f, all.len() as int);
    assert(more.take(all.len() as int) =~= all);
    assert(more.take(all.len() as int + 1) =~= more);
    let before = all.filter_map(f);
    let after = more.filter_map(f);
    if p.probed() {
        assert(after.drop_last() =~= before);
    }
    assert(Seq::<(Seq<char>, ProviderView)>::empty().filter_map(f) =~= Seq::empty());
}

/// It is told where a provider comes up or goes down, and nothing where it stays as it was. A
/// provider of which nothing was known comes up or goes down.
pub proof fn changes_are_told(before: Option<StatusView>, available: bool)
    ensures
        ({
            let n = crate::watcher::notice_of(before, available);
            &&& before matches Some(s) ==> (s.available == available <==> n is Unchanged)
            &&& before is None ==> !(n is Unchanged)
            &&& n is Up ==> available
            &&& n is Down ==> !available
        }),
{
}

} // verus!
