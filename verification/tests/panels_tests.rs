use terminal_demo::panels::{
    ask_ai_prompt, candle_jitter, candle_seed, chart_symbol, chart_symbols, menu_kinds,
    order_summary, series_shape, Kind, NewsItem, OrderRejected, CHART_FALLBACK_CANDLES,
};

#[test]
fn every_kind_round_trips_through_its_id() {
    for k in Kind::all() {
        assert_eq!(Kind::from_id(k.id()), Some(k));
    }
    assert_eq!(Kind::all().len(), 16);
}

#[test]
fn from_id_known_and_unknown() {
    assert_eq!(Kind::from_id("Chart"), Some(Kind::Chart));
    assert_eq!(Kind::from_id("EconomicCalendar"), Some(Kind::EconomicCalendar));
    assert_eq!(Kind::from_id("chart"), None);
    assert_eq!(Kind::from_id(""), None);
    assert_eq!(Kind::from_id("News Feed"), None);
}

#[test]
fn display_titles() {
    assert_eq!(Kind::NewsFeed.display(), "News Feed");
    assert_eq!(Kind::SmartMoney.display(), "Smart Money");
    assert_eq!(Kind::AiChat.display(), "AI Chat");
    assert_eq!(Kind::EconomicCalendar.display(), "Economic Calendar");
    assert_eq!(Kind::Markdown.display(), "Markdown Test");
    assert_eq!(Kind::Html.display(), "HTML Test");
    assert_eq!(Kind::Trump.display(), "Trump Tracker");
    assert_eq!(Kind::Watchlist.display(), "Watchlist");
    assert_eq!(Kind::Geopolitics.display(), "Geopolitics");
}

#[test]
fn singleton_kinds() {
    let singles: Vec<Kind> = Kind::all().into_iter().filter(|k| k.is_singleton()).collect();
    assert_eq!(singles, vec![Kind::AiChat, Kind::Position, Kind::Execution]);
}

#[test]
fn add_panel_menu_hides_singletons() {
    let m = menu_kinds();
    assert_eq!(m.len(), 13);
    assert!(!m.contains(&Kind::AiChat));
    assert!(!m.contains(&Kind::Position));
    assert!(!m.contains(&Kind::Execution));
    assert_eq!(m[0], Kind::Watchlist);
    assert_eq!(m[7], Kind::EconomicCalendar);
    assert_eq!(m[12], Kind::Geopolitics);
}

#[test]
fn chart_symbol_lookup_and_fallback() {
    assert_eq!(chart_symbol("NVDA"), ("NVDA", "NVIDIA Corp.", "NASDAQ"));
    assert_eq!(chart_symbol("BRK.B"), ("BRK.B", "Berkshire Hathaway", "NYSE"));
    assert_eq!(chart_symbol("XYZ"), ("AAPL", "Apple Inc.", "NASDAQ"));
    assert_eq!(chart_symbols().len(), 8);
}

#[test]
fn fnv_seed_of_symbols() {
    assert_eq!(candle_seed(""), 0xcbf29ce484222325);
    assert_eq!(candle_seed("a"), 0xaf63dc4c8601ec8c);
    assert_eq!(candle_seed("AAPL"), 0x89106b8b9f086ccb);
}

#[test]
fn series_shape_from_seed() {
    let s = series_shape(candle_seed("AAPL"));
    assert_eq!(s.base, 637);
    assert!(s.rising);
    assert_eq!(s.trend_steps, 2);
    assert_eq!(s.phase, 6);
    let e = series_shape(candle_seed(""));
    assert_eq!(e.base, 87);
    assert!(!e.rising);
    assert_eq!(e.trend_steps, 3);
    assert_eq!(e.phase, 1);
}

#[test]
fn jitter_sequence() {
    let seed = candle_seed("NVDA");
    assert_eq!(candle_jitter(seed, 0), 6742);
    assert_eq!(candle_jitter(seed, 1), 37895);
    assert_eq!(candle_jitter(seed, 2), 3512);
    assert_eq!(CHART_FALLBACK_CANDLES, 240);
}

#[test]
fn order_is_summarised_with_trimmed_fields() {
    assert_eq!(
        order_summary("BUY", " AAPL ", "100", "192.15").unwrap(),
        "BUY 100 AAPL @ 192.15"
    );
    assert_eq!(
        order_summary("SELL", "MSFT", "\t25\n", "  ").unwrap(),
        "SELL 25 MSFT @ "
    );
}

#[test]
fn order_without_symbol_or_quantity_is_rejected() {
    assert_eq!(order_summary("BUY", "   ", "100", "1"), Err(OrderRejected::MissingSymbolOrQuantity));
    assert_eq!(order_summary("SELL", "AAPL", "", "1"), Err(OrderRejected::MissingSymbolOrQuantity));
    assert_eq!(order_summary("SELL", "\u{3000}", "5", "1"), Err(OrderRejected::MissingSymbolOrQuantity));
}

#[test]
fn ask_ai_prompt_text() {
    let n = NewsItem {
        time: "10:15",
        tag: "FED",
        headline: "Powell signals patient approach on rate cuts",
        source: "Bloomberg",
        body: "...",
        link: "https://bloomberg.com/fed-powell",
    };
    assert_eq!(
        ask_ai_prompt(&n),
        "What is the implication behind this news and how it affects my position?\n\nPowell signals patient approach on rate cuts (FED)\nSource: https://bloomberg.com/fed-powell"
    );
}

#[test]
fn scroll_and_focus_policies() {
    assert!(!Kind::AiChat.has_outer_scroll());
    assert!(!Kind::Chart.has_outer_scroll());
    assert!(Kind::NewsFeed.has_outer_scroll());
    assert!(!Kind::Position.records_focus());
    assert!(Kind::Watchlist.records_focus());
}
