use indicator_engine::plan::{
    find_watchlist, plan_subscriptions, plan_warm_up, MarketAdapters, Watchlist,
};
use indicator_engine::timeframe::{Timeframe, TimeframeSet};

fn strings(items: &[&str]) -> Vec<String> {
    items.iter().map(|s| s.to_string()).collect()
}

fn adapters(market: &str, brokers: &[&str]) -> MarketAdapters {
    MarketAdapters { market: market.to_string(), brokers: strings(brokers) }
}

fn watchlist(market: &str, symbols: &[&str]) -> Watchlist {
    Watchlist { market: market.to_string(), symbols: strings(symbols) }
}

#[test]
fn every_broker_is_subscribed_to_its_markets_watchlist() {
    let adapters = vec![adapters("india", &["zerodha", "angel"]), adapters("us", &["ibkr"])];
    let watchlists = vec![watchlist("us", &["AAPL"]), watchlist("india", &["INFY", "TCS"])];
    let plan = plan_subscriptions(&adapters, &watchlists).unwrap();
    let got: Vec<(String, String, Vec<String>)> =
        plan.into_iter().map(|s| (s.market, s.broker, s.symbols)).collect();
    assert_eq!(
        got,
        vec![
            ("india".to_string(), "zerodha".to_string(), strings(&["INFY", "TCS"])),
            ("india".to_string(), "angel".to_string(), strings(&["INFY", "TCS"])),
            ("us".to_string(), "ibkr".to_string(), strings(&["AAPL"])),
        ]
    );
}

#[test]
fn market_without_watchlist_fails_the_plan() {
    let adapters = vec![
        adapters("india", &["zerodha"]),
        adapters("japan", &["sbi"]),
        adapters("brazil", &["xp"]),
    ];
    let watchlists = vec![watchlist("india", &["INFY"])];
    let failure = plan_subscriptions(&adapters, &watchlists).err().unwrap();
    assert_eq!(failure.market, "japan");
}

#[test]
fn no_adapters_no_subscriptions() {
    assert!(plan_subscriptions(&Vec::new(), &vec![watchlist("india", &["INFY"])])
        .unwrap()
        .is_empty());
    let plan = plan_subscriptions(&vec![adapters("india", &[])], &vec![watchlist("india", &["INFY"])]);
    assert!(plan.unwrap().is_empty());
}

#[test]
fn first_watchlist_of_a_market_is_used() {
    let watchlists = vec![
        watchlist("us", &["AAPL"]),
        watchlist("india", &["INFY"]),
        watchlist("india", &["TCS"]),
    ];
    assert_eq!(find_watchlist(&watchlists, &"india".to_string()), Some(1));
    assert_eq!(find_watchlist(&watchlists, &"us".to_string()), Some(0));
    assert_eq!(find_watchlist(&watchlists, &"japan".to_string()), None);
    let plan = plan_subscriptions(&vec![adapters("india", &["zerodha"])], &watchlists).unwrap();
    assert_eq!(plan[0].symbols, strings(&["INFY"]));
}

#[test]
fn warm_up_covers_every_symbol_and_timeframe() {
    let keys = plan_warm_up(&strings(&["INFY", "TCS"]), TimeframeSet::all());
    assert_eq!(
        keys,
        vec![
            ("INFY".to_string(), Timeframe::OneMinute),
            ("INFY".to_string(), Timeframe::FiveMinutes),
            ("INFY".to_string(), Timeframe::ThirtyMinutes),
            ("TCS".to_string(), Timeframe::OneMinute),
            ("TCS".to_string(), Timeframe::FiveMinutes),
            ("TCS".to_string(), Timeframe::ThirtyMinutes),
        ]
    );
    assert!(plan_warm_up(&strings(&["INFY"]), TimeframeSet::none()).is_empty());
    assert!(plan_warm_up(&Vec::new(), TimeframeSet::all()).is_empty());
}
