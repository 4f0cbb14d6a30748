//! The watcher: which providers are probed in the background, and what a new status
//! changes.

use vstd::prelude::*;

use crate::config::{Provider, ProviderView};
use crate::dict::Dict;
use crate::store::{ProviderStatus, StatusView};

verus! {

/// A provider that is probed in the background, and how often.
#[derive(Debug, PartialEq)]
pub struct Watch {
    pub provider: String,
    pub every_secs: u64,
}

/// The model of a `Watch`.
pub struct WatchView {
    pub provider: Seq<char>,
    pub every_secs: u64,
}

impl View for Watch {
    type V = WatchView;

    open spec fn view(&self) -> WatchView {
        WatchView { provider: self.provider@, every_secs: self.every_secs }
    }
}

/// The providers that are probed in the background, by name.
pub open spec fn watches_of(providers: Map<Seq<char>, ProviderView>) -> Seq<WatchView> {
    crate::dict::in_key_order(providers).filter_map(
        |e: (Seq<char>, ProviderView)|
            if e.1.probed() {
                Some(WatchView { provider: e.0, every_secs: e.1.interval() })
            } else {
                None
            },
    )
}

/// The background probes to run: one per provider that is to be probed.
pub fn watches(providers: &Dict<Provider>) -> (r: Vec<Watch>)
    ensures
        crate::text::seq_view(r@) == watches_of(providers@),
{
    broadcast use crate::text::group_views;

    let n = providers.len();
    let ghost pairs = providers.pairs();
    let ghost f = |e: (Seq<char>, ProviderView)|
        if e.1.probed() {
            Some(WatchView { provider: e.0, every_secs: e.1.interval() })
        } else {
            None
        };
    let mut out: Vec<Watch> = Vec::new();
    let mut i: usize = 0;
    assert(pairs.take(0) =~= Seq::empty());
    while i < n
        invariant
            i <= n,
            n == pairs.len(),
            pairs == providers.pairs(),
            f == (|e: (Seq<char>, ProviderView)|
                if e.1.probed() {
                    Some(WatchView { provider: e.0, every_secs: e.1.interval() })
                } else {
                    None
                }),
            crate::text::seq_view(out@) == pairs.take(i as int).filter_map(f),
        decreases n - i,
    {
        broadcast use crate::text::group_views;

        proof {
            pairs.lemma_filter_map_take_succ(f, i as int);
        }
        let p = providers.value(i);
        if p.probe_enabled() {
            out.push(
                Watch { provider: providers.key(i).clone(), every_secs: p.probe_interval() },
            );
        }
        i = i + 1;
    }
    assert(pairs.take(i as int) =~= pairs);
    out
}

/// What is worth telling about a new status.
#[derive(Debug, Clone, Copy, PartialEq, Eq, Structural)]
pub enum Notice {
    Unchanged,
    Up,
    Down,
}

/// What is worth telling about a provider's availability, given what was known before.
pub open spec fn notice_of(before: Option<StatusView>, available: bool) -> Notice {
    if before matches Some(s) && s.available == available {
        Notice::Unchanged
    } else if available {
        Notice::Up
    } else {
        Notice::Down
    }
}

/// Take a provider's new status on, and say whether its availability changed.
pub fn update_status(status: &mut Dict<ProviderStatus>, provider: &str, new: ProviderStatus) -> (r:
    Notice)
    ensures
        r == notice_of(crate::dict::lookup(old(status)@, provider@), new@.available),
        final(status)@ == old(status)@.insert(provider@, new@),
{
    let available = new.available;
    let notice = match status.get(provider) {
        Some(s) => if s.available == available {
            Notice::Unchanged
        } else if available {
            Notice::Up
        } else {
            Notice::Down
        },
        None => if available {
            Notice::Up
        } else {
            Notice::Down
        },
    };
    status.insert(provider, new);
    notice
}

/// A provider that is probed well is usable again, whatever befell it before, unless the
/// probe finds its quota below the provider's minimum.
pub proof fn good_probes_restore_providers(
    provider: ProviderView,
    now: i64,
    ret: crate::probe::ReturnView,
)
    requires
        ret.ok,
    ensures
        crate::router::usable(
            provider,
            Some(
                crate::probe::probed_status(
                    provider.base_url,
                    now,
                    crate::probe::OutcomeView::Returned(ret),
                ),
            ),
        ) == match (ret.remaining, provider.quota_min) {
            (Some(remaining), Some(min)) => min.le(remaining),
            _ => true,
        },
{
}

} // verus!
