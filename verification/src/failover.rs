//! Reactive failover: which candidate of a chain is asked next, and what becomes of one
//! that failed.

use vstd::prelude::*;

use crate::config::ProviderView;
use crate::dict::Dict;
use crate::error::{BridgeError, ErrorView};
use crate::store::{ProviderStatus, StatusView};
use crate::text::concat2;

verus! {

/// Whether a failure is worth asking another candidate: the upstream was not reached, it
/// timed out, it is broken, it limits the rate, or it refuses the key or the quota. Other
/// client errors are bad requests, which another candidate would not mend.
pub open spec fn retryable(e: ErrorView) -> bool {
    match e {
        ErrorView::UpstreamUnreachable(_) => true,
        ErrorView::Upstream { status, .. } => status == 401 || status == 402 || status == 408
            || status == 429 || 500 <= status <= 599,
        _ => false,
    }
}

/// Whether an upstream failure should advance to the next fallback candidate.
pub fn is_retryable(e: &BridgeError) -> (r: bool)
    ensures
        r == retryable(e@),
{
    match e {
        BridgeError::UpstreamUnreachable(_) => true,
        BridgeError::Upstream { status, .. } => *status == 401 || *status == 402 || *status == 408
            || *status == 429 || (500 <= *status && *status <= 599),
        _ => false,
    }
}

/// What to do with a request: ask the candidate at a place of the chain, or give up.
#[derive(Debug, PartialEq)]
pub enum Attempt {
    Ask(usize),
    GiveUp(BridgeError),
}

/// The model of an `Attempt`.
pub enum AttemptView {
    Ask(nat),
    GiveUp(ErrorView),
}

impl View for Attempt {
    type V = AttemptView;

    open spec fn view(&self) -> AttemptView {
        match *self {
            Attempt::Ask(i) => AttemptView::Ask(i as nat),
            Attempt::GiveUp(e) => AttemptView::GiveUp(e@),
        }
    }
}

/// The first attempt on a chain of `n` candidates.
pub open spec fn first(n: nat) -> AttemptView {
    if n > 0 {
        AttemptView::Ask(0)
    } else {
        AttemptView::GiveUp(ErrorView::Internal("no upstream candidates"@))
    }
}

/// The attempt after the candidate at `i` of `n` failed with `e`.
pub open spec fn next(n: nat, i: nat, e: ErrorView) -> AttemptView {
    if retryable(e) && i + 1 < n {
        AttemptView::Ask(i + 1)
    } else {
        AttemptView::GiveUp(e)
    }
}

/// The first attempt on a chain of `n` candidates.
pub fn first_attempt(n: usize) -> (r: Attempt)
    ensures
        r@ == first(n as nat),
{
    if n > 0 {
        Attempt::Ask(0)
    } else {
        Attempt::GiveUp(BridgeError::Internal("no upstream candidates".to_owned()))
    }
}

/// Whether another candidate is asked after the one at `i` of `n` failed with `e`.
pub fn fails_over(n: usize, i: usize, e: &BridgeError) -> (r: bool)
    ensures
        r == next(n as nat, i as nat, e@) is Ask,
{
    is_retryable(e) && i < n && n - i > 1
}

/// The attempt after the candidate at `i` of `n` failed with `e`.
pub fn next_attempt(n: usize, i: usize, e: BridgeError) -> (r: Attempt)
    ensures
        r@ == next(n as nat, i as nat, e@),
{
    if fails_over(n, i, &e) {
        Attempt::Ask(i + 1)
    } else {
        Attempt::GiveUp(e)
    }
}

/// What comes of asking the candidates of a chain, where `outcomes[i]` is what the
/// candidate at `i` would fail with, or nothing where it would accept: the places asked,
/// in their order, and the place that accepted or the error that is answered.
pub open spec fn asked(outcomes: Seq<Option<ErrorView>>, at: AttemptView) -> (
    Seq<nat>,
    Result<nat, ErrorView>,
)
    decreases
            match at {
                AttemptView::Ask(i) => outcomes.len() + 1 - i,
                AttemptView::GiveUp(_) => 0,
            },
{
    match at {
        AttemptView::GiveUp(e) => (Seq::empty(), Err(e)),
        AttemptView::Ask(i) => if i >= outcomes.len() {
            (Seq::empty(), Err(ErrorView::Internal(Seq::empty())))
        } else {
            match outcomes[i as int] {
                None => (seq![i], Ok(i)),
                Some(e) => {
                    let rest = asked(outcomes, next(outcomes.len(), i, e));
                    (seq![i] + rest.0, rest.1)
                },
            }
        },
    }
}

/// Whether the candidate at `i` passes the request on: it fails, in a way worth another
/// attempt.
pub open spec fn passes_on(outcomes: Seq<Option<ErrorView>>, i: int) -> bool {
    outcomes[i] matches Some(e) && retryable(e)
}

proof fn lemma_asked_from(outcomes: Seq<Option<ErrorView>>, i: nat)
    requires
        i < outcomes.len(),
    ensures
        ({
            let (places, result) = asked(outcomes, AttemptView::Ask(i));
            let last = i + places.len() - 1;
            &&& places.len() > 0
            &&& last < outcomes.len()
            &&& forall|k: int| 0 <= k < places.len() ==> #[trigger] places[k] == i + k
            &&& forall|k: int| i <= k < last ==> #[trigger] passes_on(outcomes, k)
            &&& match outcomes[last] {
                None => result == Ok::<nat, ErrorView>(last as nat),
                Some(e) => result == Err::<nat, ErrorView>(e) && (!retryable(e) || last
                    == outcomes.len() - 1),
            }
        }),
    decreases outcomes.len() - i,
{
    reveal_with_fuel(asked, 2);
    let (places, result) = asked(outcomes, AttemptView::Ask(i));
    match outcomes[i as int] {
        None => {},
        Some(e) => {
            if retryable(e) && i + 1 < outcomes.len() {
                lemma_asked_from(outcomes, i + 1);
                let rest = asked(outcomes, AttemptView::Ask(i + 1));
                assert(passes_on(outcomes, i as int));
                assert(places == seq![i] + rest.0);
                assert forall|k: int| 0 <= k < places.len() implies #[trigger] places[k] == i + k by {
                    if k > 0 {
                        assert(places[k] == rest.0[k - 1]);
                    }
                }
            } else {
                assert(places =~= seq![i]);
            }
        },
    }
}

/// Each candidate is asked at most once, in the order of the chain and without a gap: up
/// to the first that accepts or that fails in a way that another candidate would not
/// mend. If none accepts, the error of the last one asked is answered.
pub proof fn candidates_are_asked_once_in_order(outcomes: Seq<Option<ErrorView>>)
    requires
        outcomes.len() > 0,
    ensures
        ({
            let (places, result) = asked(outcomes, first(outcomes.len()));
            let last = places.len() - 1;
            &&& 0 < places.len() <= outcomes.len()
            &&& forall|k: int| 0 <= k < places.len() ==> #[trigger] places[k] == k
            &&& forall|k: int| 0 <= k < last ==> #[trigger] passes_on(outcomes, k)
            &&& match outcomes[last] {
                None => result == Ok::<nat, ErrorView>(last as nat),
                Some(e) => result == Err::<nat, ErrorView>(e) && (!retryable(e) || last
                    == outcomes.len() - 1),
            }
        }),
{
    lemma_asked_from(outcomes, 0);
}

/// A chain with a candidate that would accept is answered by one, as long as those before
/// it fail in ways worth another attempt.
pub proof fn a_candidate_that_accepts_is_found(outcomes: Seq<Option<ErrorView>>, k: int)
    requires
        0 <= k < outcomes.len(),
        outcomes[k] is None,
        forall|j: int| 0 <= j < k ==> outcomes[j] is Some && #[trigger] passes_on(outcomes, j),
    ensures
        asked(outcomes, first(outcomes.len())).1 == Ok::<nat, ErrorView>(k as nat),
{
    lemma_asked_from(outcomes, 0);
    let (places, result) = asked(outcomes, first(outcomes.len()));
    let last = places.len() - 1;
    if last < k {
        assert(passes_on(outcomes, last));
    } else if last > k {
        assert(passes_on(outcomes, k));
    }
}

/// The status of a provider whose candidate failed with `e`, given the one it had.
pub open spec fn degraded(status: Option<StatusView>, e: ErrorView) -> StatusView {
    let s = match status {
        Some(s) => s,
        None => StatusView::unknown(),
    };
    StatusView {
        available: false,
        last_ok: false,
        error: Some("request failed: "@ + e.text()),
        ..s
    }
}

/// React to a candidate failing: mark its provider unavailable now, so that other
/// requests skip it.
pub fn mark_degraded(status: &mut Dict<ProviderStatus>, provider: &str, err: &BridgeError)
    ensures
        final(status)@ == old(status)@.insert(
            provider@,
            degraded(crate::dict::lookup(old(status)@, provider@), err@),
        ),
{
    let mut entry = match status.get(provider) {
        Some(s) => s.clone(),
        None => ProviderStatus::default(),
    };
    let text = err.to_text();
    entry.available = false;
    entry.last_ok = false;
    entry.error = Some(concat2("request failed: ", text.as_str()));
    status.insert(provider, entry);
}

/// A provider that was marked is no longer usable, whatever its status was, until it is
/// found available again.
pub proof fn marked_providers_are_not_usable(
    provider: ProviderView,
    status: Option<StatusView>,
    e: ErrorView,
)
    ensures
        !crate::router::usable(provider, Some(degraded(status, e))),
{
}

} // verus!
