//! What initialization and start-up have to cover: which adapter is
//! subscribed to which symbols, and which keys are primed from history.

use vstd::prelude::*;
use crate::timeframe::{Timeframe, TimeframeSet};

verus! {

/// The adapters of one market, by the names of their brokers.
#[derive(Debug)]
pub struct MarketAdapters {
    pub market: String,
    pub brokers: Vec<String>,
}

/// The symbols watched on one market.
#[derive(Debug)]
pub struct Watchlist {
    pub market: String,
    pub symbols: Vec<String>,
}

/// One call to make: subscribe the adapter of `broker` on `market` to `symbols`.
#[derive(Debug)]
pub struct Subscription {
    pub market: String,
    pub broker: String,
    pub symbols: Vec<String>,
}

/// A market among the adapters has no watchlist.
#[derive(Debug)]
pub struct MissingWatchlist {
    pub market: String,
}

/// The strings of `v`, as sequences of characters.
pub open spec fn names(v: Seq<String>) -> Seq<Seq<char>> {
    Seq::new(v.len(), |i: int| v[i]@)
}

/// What a [`Subscription`] holds, as mathematical values.
pub struct SubscriptionView {
    pub market: Seq<char>,
    pub broker: Seq<char>,
    pub symbols: Seq<Seq<char>>,
}

impl View for Subscription {
    type V = SubscriptionView;

    open spec fn view(&self) -> SubscriptionView {
        SubscriptionView {
            market: self.market@,
            broker: self.broker@,
            symbols: names(self.symbols@),
        }
    }
}

/// The views of the subscriptions of `v`.
pub open spec fn subscription_views(v: Seq<Subscription>) -> Seq<SubscriptionView> {
    Seq::new(v.len(), |i: int| v[i]@)
}

/// The position of the first watchlist for `market`, if there is one.
pub open spec fn watchlist_position(watchlists: Seq<Watchlist>, market: Seq<char>) -> Option<int>
    decreases watchlists.len(),
{
    if watchlists.len() == 0 {
        None
    } else {
        match watchlist_position(watchlists.drop_last(), market) {
            Some(at) => Some(at),
            None => if watchlists.last().market@ == market {
                Some(watchlists.len() - 1)
            } else {
                None
            },
        }
    }
}

/// One subscription for each broker of `entry`, in order, to `symbols`.
pub open spec fn market_subscriptions(entry: MarketAdapters, symbols: Seq<Seq<char>>) -> Seq<
    SubscriptionView,
> {
    Seq::new(
        entry.brokers@.len(),
        |i: int| SubscriptionView { market: entry.market@, broker: entry.brokers@[i]@, symbols },
    )
}

/// The subscriptions for `adapters`, market by market and broker by broker,
/// each to the first watchlist of its market; or the first market, in the
/// order of `adapters`, that has no watchlist.
pub open spec fn planned(adapters: Seq<MarketAdapters>, watchlists: Seq<Watchlist>) -> Result<
    Seq<SubscriptionView>,
    Seq<char>,
>
    decreases adapters.len(),
{
    if adapters.len() == 0 {
        Ok(Seq::empty())
    } else {
        match planned(adapters.drop_last(), watchlists) {
            Err(market) => Err(market),
            Ok(before) => match watchlist_position(watchlists, adapters.last().market@) {
                None => Err(adapters.last().market@),
                Some(at) => Ok(
                    before + market_subscriptions(adapters.last(), names(watchlists[at].symbols@)),
                ),
            },
        }
    }
}

/// The view of a plan or of the market that has no watchlist.
pub open spec fn plan_view(r: Result<Vec<Subscription>, MissingWatchlist>) -> Result<
    Seq<SubscriptionView>,
    Seq<char>,
> {
    match r {
        Ok(plan) => Ok(subscription_views(plan@)),
        Err(e) => Err(e.market@),
    }
}

fn copy_names(v: &Vec<String>) -> (c: Vec<String>)
    ensures
        names(c@) == names(v@),
{
    let mut c: Vec<String> = Vec::new();
    let mut i: usize = 0;
    while i < v.len()
        invariant
            i <= v.len(),
            c.len() == i,
            forall|k: int| 0 <= k < i ==> (#[trigger] c[k])@ == v[k]@,
        decreases v.len() - i,
    {
        c.push(v[i].clone());
        i = i + 1;
    }
    assert(names(c@) =~= names(v@));
    c
}

/// Finds the first watchlist for a market.
pub fn find_watchlist(watchlists: &Vec<Watchlist>, market: &String) -> (r: Option<usize>)
    ensures
        match r {
            Some(at) => watchlist_position(watchlists@, market@) == Some(at as int),
            None => watchlist_position(watchlists@, market@) is None,
        },
        r matches Some(at) ==> at < watchlists.len() && watchlists[at as int].market@ == market@,
{
    let mut i: usize = 0;
    while i < watchlists.len()
        invariant
            i <= watchlists.len(),
            watchlist_position(watchlists@.take(i as int), market@) is None,
        decreases watchlists.len() - i,
    {
        proof {
            assert(watchlists@.take(i + 1).drop_last() =~= watchlists@.take(i as int));
        }
        if watchlists[i].market == *market {
            proof {
                lemma_position_kept(watchlists@, market@, i + 1);
            }
            return Some(i);
        }
        i = i + 1;
    }
    assert(watchlists@.take(i as int) =~= watchlists@);
    None
}

proof fn lemma_position_kept(watchlists: Seq<Watchlist>, market: Seq<char>, n: int)
    requires
        0 <= n <= watchlists.len(),
        watchlist_position(watchlists.take(n), market) is Some,
    ensures
        watchlist_position(watchlists, market) == watchlist_position(watchlists.take(n), market),
        watchlist_position(watchlists, market) matches Some(at) && 0 <= at < n
            && watchlists[at].market@ == market,
    decreases watchlists.len() - n,
{
    lemma_position_in_range(watchlists.take(n), market);
    if n < watchlists.len() {
        assert(watchlists.take(n + 1).drop_last() =~= watchlists.take(n));
        lemma_position_kept(watchlists, market, n + 1);
        let at = watchlist_position(watchlists.take(n), market)->0;
        assert(watchlists.take(n)[at] == watchlists[at]);
    } else {
        assert(watchlists.take(n) =~= watchlists);
    }
}

proof fn lemma_position_in_range(watchlists: Seq<Watchlist>, market: Seq<char>)
    ensures
        watchlist_position(watchlists, market) matches Some(at) ==> 0 <= at < watchlists.len()
            && watchlists[at].market@ == market,
    decreases watchlists.len(),
{
    if watchlists.len() > 0 {
        lemma_position_in_range(watchlists.drop_last(), market);
        if watchlist_position(watchlists.drop_last(), market) is Some {
            let at = watchlist_position(watchlists.drop_last(), market)->0;
            assert(watchlists.drop_last()[at] == watchlists[at]);
        }
    }
}

/// Lists the subscriptions to make at start-up: for each market of
/// `adapters`, in order, and each of its brokers, in order, one
/// subscription to the symbols of the market's watchlist.
///
/// Fails with the first market that has no watchlist; nothing is to be
/// subscribed then.
pub fn plan_subscriptions(adapters: &Vec<MarketAdapters>, watchlists: &Vec<Watchlist>) -> (r:
    Result<Vec<Subscription>, MissingWatchlist>)
    ensures
        plan_view(r) == planned(adapters@, watchlists@),
{
    let mut plan: Vec<Subscription> = Vec::new();
    let mut m: usize = 0;
    assert(subscription_views(plan@) =~= Seq::<SubscriptionView>::empty());
    while m < adapters.len()
        invariant
            m <= adapters.len(),
            planned(adapters@.take(m as int), watchlists@) == Ok::<
                Seq<SubscriptionView>,
                Seq<char>,
            >(subscription_views(plan@)),
        decreases adapters.len() - m,
    {
        let entry = &adapters[m];
        proof {
            assert(adapters@.take(m + 1).drop_last() =~= adapters@.take(m as int));
            assert(adapters@.take(m + 1).last() == adapters@[m as int]);
        }
        let at = match find_watchlist(watchlists, &entry.market) {
            Some(at) => at,
            None => {
                proof {
                    lemma_failure_kept(adapters@, watchlists@, m + 1);
                }
                return Err(MissingWatchlist { market: entry.market.clone() });
            },
        };
        let ghost before = subscription_views(plan@);
        let ghost symbols = names(watchlists[at as int].symbols@);
        let mut b: usize = 0;
        while b < entry.brokers.len()
            invariant
                b <= entry.brokers.len(),
                at < watchlists.len(),
                symbols == names(watchlists[at as int].symbols@),
                subscription_views(plan@) == before + market_subscriptions(*entry, symbols).take(
                    b as int,
                ),
            decreases entry.brokers.len() - b,
        {
            let ghost old_views = subscription_views(plan@);
            let next = Subscription {
                market: entry.market.clone(),
                broker: entry.brokers[b].clone(),
                symbols: copy_names(&watchlists[at].symbols),
            };
            plan.push(next);
            proof {
                assert(subscription_views(plan@) =~= old_views.push(next@));
                assert(market_subscriptions(*entry, symbols).take(b + 1)
                    =~= market_subscriptions(*entry, symbols).take(b as int).push(next@));
                assert(subscription_views(plan@) =~= before + market_subscriptions(
                    *entry,
                    symbols,
                ).take(b + 1));
            }
            b = b + 1;
        }
        proof {
            assert(market_subscriptions(*entry, symbols).take(b as int) =~= market_subscriptions(
                *entry,
                symbols,
            ));
        }
        m = m + 1;
    }
    assert(adapters@.take(m as int) =~= adapters@);
    Ok(plan)
}

proof fn lemma_failure_kept(adapters: Seq<MarketAdapters>, watchlists: Seq<Watchlist>, n: int)
    requires
        0 <= n <= adapters.len(),
        planned(adapters.take(n), watchlists) is Err,
    ensures
        planned(adapters, watchlists) == planned(adapters.take(n), watchlists),
    decreases adapters.len() - n,
{
    if n < adapters.len() {
        assert(adapters.take(n + 1).drop_last() =~= adapters.take(n));
        lemma_failure_kept(adapters, watchlists, n + 1);
    } else {
        assert(adapters.take(n) =~= adapters);
    }
}

/// The keys to prime for `symbols`: each symbol, in order, with each
/// timeframe of `set`, shortest first.
pub open spec fn keys_to_prime(symbols: Seq<Seq<char>>, set: TimeframeSet) -> Seq<
    (Seq<char>, Timeframe),
>
    decreases symbols.len(),
{
    if symbols.len() == 0 {
        Seq::empty()
    } else {
        keys_to_prime(symbols.drop_last(), set) + Seq::new(
            set.members().len(),
            |i: int| (symbols.last(), set.members()[i]),
        )
    }
}

/// The views of the keys of `v`.
pub open spec fn key_views(v: Seq<(String, Timeframe)>) -> Seq<(Seq<char>, Timeframe)> {
    Seq::new(v.len(), |i: int| (v[i].0@, v[i].1))
}

/// Lists the keys that warm-up has to prime before live ticks are taken:
/// every watched symbol with every watched timeframe.
pub fn plan_warm_up(symbols: &Vec<String>, watched: TimeframeSet) -> (keys: Vec<
    (String, Timeframe),
>)
    ensures
        key_views(keys@) == keys_to_prime(names(symbols@), watched),
{
    let frames = watched.to_vec();
    let mut keys: Vec<(String, Timeframe)> = Vec::new();
    let ghost all = names(symbols@);
    let mut s: usize = 0;
    assert(key_views(keys@) =~= Seq::<(Seq<char>, Timeframe)>::empty());
    while s < symbols.len()
        invariant
            s <= symbols.len(),
            all == names(symbols@),
            frames@ == watched.members(),
            key_views(keys@) == keys_to_prime(all.take(s as int), watched),
        decreases symbols.len() - s,
    {
        let ghost before = key_views(keys@);
        let ghost symbol = symbols[s as int]@;
        let ghost row = Seq::new(frames@.len(), |i: int| (symbol, frames@[i]));
        proof {
            assert(all.take(s + 1).drop_last() =~= all.take(s as int));
            assert(all.take(s + 1).last() == symbol);
        }
        let mut f: usize = 0;
        while f < frames.len()
            invariant
                f <= frames.len(),
                s < symbols.len(),
                symbol == symbols[s as int]@,
                row == Seq::new(frames@.len(), |i: int| (symbol, frames@[i])),
                key_views(keys@) == before + row.take(f as int),
            decreases frames.len() - f,
        {
            let ghost old_views = key_views(keys@);
            keys.push((symbols[s].clone(), frames[f]));
            proof {
                assert(key_views(keys@) =~= old_views.push((symbol, frames@[f as int])));
                assert(row.take(f + 1) =~= row.take(f as int).push((symbol, frames@[f as int])));
                assert(key_views(keys@) =~= before + row.take(f + 1));
            }
            f = f + 1;
        }
        proof {
            assert(row.take(f as int) =~= row);
            assert(row =~= Seq::new(
                watched.members().len(),
                |i: int| (all.take(s + 1).last(), watched.members()[i]),
            ));
        }
        s = s + 1;
    }
    assert(all.take(s as int) =~= all);
    keys
}

} // verus!
