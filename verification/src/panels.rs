//! The panel catalogue: every panel kind the workspace can host, its stable
//! identifier (used for registration and persisted layouts), its display title
//! and whether it is a singleton managed by the toolbar toggles.
use vstd::prelude::*;

use vstd::string::StringSliceAdditionalSpecFns;

use crate::text::{str_eq, trim, trim_spec};

verus! {

#[derive(Clone, Copy, Debug, PartialEq, Eq, Hash, Structural)]
pub enum Kind {
    Watchlist,
    Chart,
    Details,
    NewsFeed,
    Portfolio,
    Notification,
    SmartMoney,
    AiChat,
    EconomicCalendar,
    Position,
    Execution,
    Markdown,
    Html,
    Trump,
    Screener,
    Geopolitics,
}

/// Every kind, in catalogue order.
pub open spec fn all_kinds() -> Seq<Kind> {
    seq![
        Kind::Watchlist,
        Kind::Chart,
        Kind::Details,
        Kind::NewsFeed,
        Kind::Portfolio,
        Kind::Notification,
        Kind::SmartMoney,
        Kind::AiChat,
        Kind::EconomicCalendar,
        Kind::Position,
        Kind::Execution,
        Kind::Markdown,
        Kind::Html,
        Kind::Trump,
        Kind::Screener,
        Kind::Geopolitics,
    ]
}

/// Stable identifier of a kind.
pub open spec fn kind_id(k: Kind) -> Seq<char> {
    match k {
        Kind::Watchlist => "Watchlist"@,
        Kind::Chart => "Chart"@,
        Kind::Details => "Details"@,
        Kind::NewsFeed => "NewsFeed"@,
        Kind::Portfolio => "Portfolio"@,
        Kind::Notification => "Notification"@,
        Kind::SmartMoney => "SmartMoney"@,
        Kind::AiChat => "AiChat"@,
        Kind::EconomicCalendar => "EconomicCalendar"@,
        Kind::Position => "Position"@,
        Kind::Execution => "Execution"@,
        Kind::Markdown => "Markdown"@,
        Kind::Html => "Html"@,
        Kind::Trump => "Trump"@,
        Kind::Screener => "Screener"@,
        Kind::Geopolitics => "Geopolitics"@,
    }
}

/// Human-readable title of a kind: a few kinds have a spelled-out title, the
/// rest are shown by their identifier.
pub open spec fn kind_display(k: Kind) -> Seq<char> {
    match k {
        Kind::NewsFeed => "News Feed"@,
        Kind::SmartMoney => "Smart Money"@,
        Kind::AiChat => "AI Chat"@,
        Kind::EconomicCalendar => "Economic Calendar"@,
        Kind::Markdown => "Markdown Test"@,
        Kind::Html => "HTML Test"@,
        Kind::Trump => "Trump Tracker"@,
        other => kind_id(other),
    }
}

/// No two kinds share a title, and every kind without a spelled-out title is
/// shown by its identifier.
pub proof fn lemma_kind_display_injective(a: Kind, b: Kind)
    ensures
        kind_display(a) == kind_display(b) ==> a == b,
        !(a is NewsFeed || a is SmartMoney || a is AiChat || a is EconomicCalendar || a is Markdown
            || a is Html || a is Trump) ==> kind_display(a) == kind_id(a),
{
    reveal_strlit("Watchlist");
    reveal_strlit("Chart");
    reveal_strlit("Details");
    reveal_strlit("News Feed");
    reveal_strlit("Portfolio");
    reveal_strlit("Notification");
    reveal_strlit("Smart Money");
    reveal_strlit("AI Chat");
    reveal_strlit("Economic Calendar");
    reveal_strlit("Position");
    reveal_strlit("Execution");
    reveal_strlit("Markdown Test");
    reveal_strlit("HTML Test");
    reveal_strlit("Trump Tracker");
    reveal_strlit("Screener");
    reveal_strlit("Geopolitics");
    if kind_display(a) == kind_display(b) {
        assert(kind_display(a).len() == kind_display(b).len());
        assert(kind_display(a)[0] == kind_display(b)[0]);
    }
}

/// Singleton kinds may only have one live instance at a time.
pub open spec fn kind_is_singleton(k: Kind) -> bool {
    k == Kind::AiChat || k == Kind::Position || k == Kind::Execution
}

/// The kind whose identifier is `id`, if any.
pub open spec fn kind_for_id(id: Seq<char>) -> Option<Kind> {
    if exists|k: Kind| kind_id(k) == id {
        Some(choose|k: Kind| kind_id(k) == id)
    } else {
        None
    }
}

/// No two kinds share an identifier.
pub proof fn lemma_kind_ids_distinct(a: Kind, b: Kind)
    ensures
        kind_id(a) == kind_id(b) ==> a == b,
{
    reveal_strlit("Watchlist");
    reveal_strlit("Chart");
    reveal_strlit("Details");
    reveal_strlit("NewsFeed");
    reveal_strlit("Portfolio");
    reveal_strlit("Notification");
    reveal_strlit("SmartMoney");
    reveal_strlit("AiChat");
    reveal_strlit("EconomicCalendar");
    reveal_strlit("Position");
    reveal_strlit("Execution");
    reveal_strlit("Markdown");
    reveal_strlit("Html");
    reveal_strlit("Trump");
    reveal_strlit("Screener");
    reveal_strlit("Geopolitics");
    if kind_id(a) == kind_id(b) {
        assert(kind_id(a).len() == kind_id(b).len());
        assert(kind_id(a)[0] == kind_id(b)[0]);
    }
}

impl Kind {
    /// Every kind, in catalogue order.
    pub fn all() -> (r: Vec<Kind>)
        ensures
            r@ == all_kinds(),
    {
        let r: Vec<Kind> = vec![
            Kind::Watchlist,
            Kind::Chart,
            Kind::Details,
            Kind::NewsFeed,
            Kind::Portfolio,
            Kind::Notification,
            Kind::SmartMoney,
            Kind::AiChat,
            Kind::EconomicCalendar,
            Kind::Position,
            Kind::Execution,
            Kind::Markdown,
            Kind::Html,
            Kind::Trump,
            Kind::Screener,
            Kind::Geopolitics,
        ];
        assert(r@ =~= all_kinds());
        r
    }

    /// Stable identifier, used for panel registration and persisted layouts.
    pub fn id(self) -> (r: &'static str)
        ensures
            r@ == kind_id(self),
    {
        match self {
            Kind::Watchlist => "Watchlist",
            Kind::Chart => "Chart",
            Kind::Details => "Details",
            Kind::NewsFeed => "NewsFeed",
            Kind::Portfolio => "Portfolio",
            Kind::Notification => "Notification",
            Kind::SmartMoney => "SmartMoney",
            Kind::AiChat => "AiChat",
            Kind::EconomicCalendar => "EconomicCalendar",
            Kind::Position => "Position",
            Kind::Execution => "Execution",
            Kind::Markdown => "Markdown",
            Kind::Html => "Html",
            Kind::Trump => "Trump",
            Kind::Screener => "Screener",
            Kind::Geopolitics => "Geopolitics",
        }
    }

    /// Tab title shown for a panel of this kind.
    pub fn display(self) -> (r: &'static str)
        ensures
            r@ == kind_display(self),
            !(self is NewsFeed || self is SmartMoney || self is AiChat || self is EconomicCalendar
                || self is Markdown || self is Html || self is Trump) ==> r@ == kind_id(self),
    {
        match self {
            Kind::NewsFeed => "News Feed",
            Kind::SmartMoney => "Smart Money",
            Kind::AiChat => "AI Chat",
            Kind::EconomicCalendar => "Economic Calendar",
            Kind::Markdown => "Markdown Test",
            Kind::Html => "HTML Test",
            Kind::Trump => "Trump Tracker",
            other => other.id(),
        }
    }

    /// The kind whose identifier is `id`; `None` for an unknown identifier.
    pub fn from_id(id: &str) -> (r: Option<Kind>)
        ensures
            r == kind_for_id(id@),
            r matches Some(k) ==> kind_id(k) == id@,
            r is None <==> forall|k: Kind| kind_id(k) != id@,
    {
        let all = Kind::all();
        let mut i: usize = 0;
        while i < all.len()
            invariant
                all@ == all_kinds(),
                i <= all@.len(),
                forall|j: int| 0 <= j < i ==> kind_id(#[trigger] all@[j]) != id@,
            decreases all@.len() - i,
        {
            let k = all[i];
            if str_eq(k.id(), id) {
                proof {
                    assert forall|k2: Kind| kind_id(k2) == id@ implies k2 == k by {
                        lemma_kind_ids_distinct(k2, k);
                    }
                }
                return Some(k);
            }
            i = i + 1;
        }
        proof {
            assert forall|k: Kind| kind_id(k) != id@ by {
                assert(all_kinds().contains(k)) by {
                    match k {
                        Kind::Watchlist => assert(all_kinds()[0] == k),
                        Kind::Chart => assert(all_kinds()[1] == k),
                        Kind::Details => assert(all_kinds()[2] == k),
                        Kind::NewsFeed => assert(all_kinds()[3] == k),
                        Kind::Portfolio => assert(all_kinds()[4] == k),
                        Kind::Notification => assert(all_kinds()[5] == k),
                        Kind::SmartMoney => assert(all_kinds()[6] == k),
                        Kind::AiChat => assert(all_kinds()[7] == k),
                        Kind::EconomicCalendar => assert(all_kinds()[8] == k),
                        Kind::Position => assert(all_kinds()[9] == k),
                        Kind::Execution => assert(all_kinds()[10] == k),
                        Kind::Markdown => assert(all_kinds()[11] == k),
                        Kind::Html => assert(all_kinds()[12] == k),
                        Kind::Trump => assert(all_kinds()[13] == k),
                        Kind::Screener => assert(all_kinds()[14] == k),
                        Kind::Geopolitics => assert(all_kinds()[15] == k),
                    }
                }
            }
        }
        None
    }

    /// Whether the panel body is wrapped in an outer scroll region. AI Chat
    /// keeps its input pinned below its own scroll region and the Chart fills
    /// the panel, so neither is wrapped.
    pub fn has_outer_scroll(self) -> (r: bool)
        ensures
            r == !(self == Kind::AiChat || self == Kind::Chart),
    {
        !matches!(self, Kind::AiChat | Kind::Chart)
    }

    /// Whether activating a panel of this kind records its tab group as the
    /// drop target of "+ Panel". Singleton panels live in pinned tab groups
    /// and never become the target.
    pub fn records_focus(self) -> (r: bool)
        ensures
            r == !kind_is_singleton(self),
    {
        !self.is_singleton()
    }

    /// Singleton kinds (AI Chat, Position, Execution) are toggled from the
    /// toolbar and never duplicated.
    pub fn is_singleton(self) -> (r: bool)
        ensures
            r == kind_is_singleton(self),
    {
        match self {
            Kind::AiChat | Kind::Position | Kind::Execution => true,
            _ => false,
        }
    }
}

/// Looking a kind up by its own identifier finds that kind.
pub proof fn lemma_kind_id_round_trip(k: Kind)
    ensures
        kind_for_id(kind_id(k)) == Some(k),
{
    assert(kind_id(k) == kind_id(k));
    let c = choose|c: Kind| kind_id(c) == kind_id(k);
    lemma_kind_ids_distinct(c, k);
}

/// Kinds offered by the "+ Panel" menu: every kind but the singletons, which
/// only the toolbar toggles may open.
pub open spec fn menu_kinds_spec() -> Seq<Kind> {
    all_kinds().filter(|k: Kind| !kind_is_singleton(k))
}

/// See [`menu_kinds_spec`].
pub fn menu_kinds() -> (r: Vec<Kind>)
    ensures
        r@ == menu_kinds_spec(),
        forall|i: int| 0 <= i < r@.len() ==> !kind_is_singleton(#[trigger] r@[i]),
{
    let all = Kind::all();
    let mut r: Vec<Kind> = Vec::new();
    let mut i: usize = 0;
    while i < all.len()
        invariant
            all@ == all_kinds(),
            i <= all@.len(),
            r@ == all@.take(i as int).filter(|k: Kind| !kind_is_singleton(k)),
        decreases all@.len() - i,
    {
        proof {
            reveal(Seq::filter);
            assert(all@.take(i + 1).drop_last() =~= all@.take(i as int));
        }
        if !all[i].is_singleton() {
            r.push(all[i]);
        }
        i = i + 1;
    }
    proof {
        assert(all@.take(all@.len() as int) =~= all@);
        broadcast use vstd::seq_lib::group_filter_ensures;
    }
    r
}

// ---------------------------------------------------------------------------
// Chart symbols
// ---------------------------------------------------------------------------

/// The symbols the chart can show: (symbol, company name, exchange). The
/// first is the default.
pub open spec fn chart_symbol_table() -> Seq<(Seq<char>, Seq<char>, Seq<char>)> {
    seq![
        ("AAPL"@, "Apple Inc."@, "NASDAQ"@),
        ("MSFT"@, "Microsoft Corp."@, "NASDAQ"@),
        ("NVDA"@, "NVIDIA Corp."@, "NASDAQ"@),
        ("GOOGL"@, "Alphabet Inc."@, "NASDAQ"@),
        ("TSLA"@, "Tesla, Inc."@, "NASDAQ"@),
        ("META"@, "Meta Platforms"@, "NASDAQ"@),
        ("AMZN"@, "Amazon.com"@, "NASDAQ"@),
        ("BRK.B"@, "Berkshire Hathaway"@, "NYSE"@),
    ]
}

/// The first table entry from index `i` on whose symbol is `sym`; the default
/// entry when there is none.
pub open spec fn chart_symbol_from(sym: Seq<char>, i: nat) -> (Seq<char>, Seq<char>, Seq<char>)
    decreases chart_symbol_table().len() - i,
{
    if i >= chart_symbol_table().len() {
        chart_symbol_table()[0]
    } else if chart_symbol_table()[i as int].0 == sym {
        chart_symbol_table()[i as int]
    } else {
        chart_symbol_from(sym, i + 1)
    }
}

/// Every listed symbol trades on NASDAQ but Berkshire Hathaway's, which
/// trades on NYSE.
pub proof fn lemma_chart_exchanges()
    ensures
        forall|i: int| 0 <= i < chart_symbol_table().len() ==> (#[trigger] chart_symbol_table()[i]).2 == if chart_symbol_table()[i].0 == "BRK.B"@ {
            "NYSE"@
        } else {
            "NASDAQ"@
        },
{
    reveal_strlit("AAPL");
    reveal_strlit("MSFT");
    reveal_strlit("NVDA");
    reveal_strlit("GOOGL");
    reveal_strlit("TSLA");
    reveal_strlit("META");
    reveal_strlit("AMZN");
    reveal_strlit("BRK.B");
    assert forall|i: int| 0 <= i < chart_symbol_table().len() implies (#[trigger] chart_symbol_table()[i]).2 == if chart_symbol_table()[i].0 == "BRK.B"@ {
        "NYSE"@
    } else {
        "NASDAQ"@
    } by {
        if i < 7 {
            assert(chart_symbol_table()[i].0[0] != 'B');
        }
    }
}

/// The lookup from index `i` on gives the entry whose symbol is `sym`, or the
/// default entry when no entry from `i` on has that symbol.
proof fn lemma_chart_symbol_from(sym: Seq<char>, i: nat)
    ensures
        chart_symbol_from(sym, i).0 == sym || chart_symbol_from(sym, i) == chart_symbol_table()[0],
        exists|j: int| 0 <= j < chart_symbol_table().len() && chart_symbol_from(sym, i)
            == #[trigger] chart_symbol_table()[j],
    decreases chart_symbol_table().len() - i,
{
    if i >= chart_symbol_table().len() {
        assert(chart_symbol_from(sym, i) == chart_symbol_table()[0]);
    } else if chart_symbol_table()[i as int].0 == sym {
        assert(chart_symbol_from(sym, i) == chart_symbol_table()[i as int]);
    } else {
        lemma_chart_symbol_from(sym, i + 1);
    }
}

/// The chart-symbol entries, in menu order.
pub fn chart_symbols() -> (r: Vec<(&'static str, &'static str, &'static str)>)
    ensures
        r@.len() == chart_symbol_table().len(),
        forall|i: int| 0 <= i < r@.len() ==> (#[trigger] r@[i].0@, r@[i].1@, r@[i].2@) == chart_symbol_table()[i],
        r@.len() == 8,
        (r@[0].0@, r@[0].1@, r@[0].2@) == ("AAPL"@, "Apple Inc."@, "NASDAQ"@),
        (r@[1].0@, r@[1].1@, r@[1].2@) == ("MSFT"@, "Microsoft Corp."@, "NASDAQ"@),
        (r@[2].0@, r@[2].1@, r@[2].2@) == ("NVDA"@, "NVIDIA Corp."@, "NASDAQ"@),
        (r@[3].0@, r@[3].1@, r@[3].2@) == ("GOOGL"@, "Alphabet Inc."@, "NASDAQ"@),
        (r@[4].0@, r@[4].1@, r@[4].2@) == ("TSLA"@, "Tesla, Inc."@, "NASDAQ"@),
        (r@[5].0@, r@[5].1@, r@[5].2@) == ("META"@, "Meta Platforms"@, "NASDAQ"@),
        (r@[6].0@, r@[6].1@, r@[6].2@) == ("AMZN"@, "Amazon.com"@, "NASDAQ"@),
        (r@[7].0@, r@[7].1@, r@[7].2@) == ("BRK.B"@, "Berkshire Hathaway"@, "NYSE"@),
        forall|i: int| 0 <= i < r@.len() ==> (#[trigger] r@[i]).2@ == if r@[i].0@ == "BRK.B"@ {
            "NYSE"@
        } else {
            "NASDAQ"@
        },
{
    proof {
        lemma_chart_exchanges();
    }
    let r = vec![
        ("AAPL", "Apple Inc.", "NASDAQ"),
        ("MSFT", "Microsoft Corp.", "NASDAQ"),
        ("NVDA", "NVIDIA Corp.", "NASDAQ"),
        ("GOOGL", "Alphabet Inc.", "NASDAQ"),
        ("TSLA", "Tesla, Inc.", "NASDAQ"),
        ("META", "Meta Platforms", "NASDAQ"),
        ("AMZN", "Amazon.com", "NASDAQ"),
        ("BRK.B", "Berkshire Hathaway", "NYSE"),
    ];
    proof {
        assert forall|i: int| 0 <= i < r@.len() implies (#[trigger] r@[i]).2@ == if r@[i].0@
            == "BRK.B"@ {
            "NYSE"@
        } else {
            "NASDAQ"@
        } by {
            assert(chart_symbol_table()[i] == (r@[i].0@, r@[i].1@, r@[i].2@));
        }
    }
    r
}

/// The entry a chart opens for `symbol`: its table entry, or the default
/// (first) entry for an unknown symbol.
pub fn chart_symbol(symbol: &str) -> (r: (&'static str, &'static str, &'static str))
    ensures
        (r.0@, r.1@, r.2@) == chart_symbol_from(symbol@, 0),
        r.2@ == if r.0@ == "BRK.B"@ {
            "NYSE"@
        } else {
            "NASDAQ"@
        },
        r.0@ == symbol@ || (r.0@, r.1@, r.2@) == ("AAPL"@, "Apple Inc."@, "NASDAQ"@),
{
    proof {
        lemma_chart_exchanges();
        lemma_chart_symbol_from(symbol@, 0);
        let j = choose|j: int| 0 <= j < chart_symbol_table().len() && chart_symbol_from(symbol@, 0)
            == #[trigger] chart_symbol_table()[j];
        assert(chart_symbol_table()[j].2 == if chart_symbol_table()[j].0 == "BRK.B"@ {
            "NYSE"@
        } else {
            "NASDAQ"@
        });
    }
    let table = chart_symbols();
    let mut i: usize = 0;
    while i < table.len()
        invariant
            table@.len() == chart_symbol_table().len(),
            forall|j: int| 0 <= j < table@.len() ==> (#[trigger] table@[j].0@, table@[j].1@, table@[j].2@) == chart_symbol_table()[j],
            i <= table@.len(),
            chart_symbol_from(symbol@, 0) == chart_symbol_from(symbol@, i as nat),
            chart_symbol_from(symbol@, 0).2 == if chart_symbol_from(symbol@, 0).0 == "BRK.B"@ {
                "NYSE"@
            } else {
                "NASDAQ"@
            },
            chart_symbol_from(symbol@, 0).0 == symbol@ || chart_symbol_from(symbol@, 0)
                == chart_symbol_table()[0],
        decreases table@.len() - i,
    {
        if str_eq(table[i].0, symbol) {
            return table[i];
        }
        i = i + 1;
    }
    table[0]
}

// ---------------------------------------------------------------------------
// Synthetic candle series
// ---------------------------------------------------------------------------

/// Offset basis of 64-bit FNV-1a.
pub const FNV_OFFSET: u64 = 0xcbf29ce484222325;
/// Prime of 64-bit FNV-1a.
pub const FNV_PRIME: u64 = 0x100000001b3;
/// Number of candles synthesized for a symbol without fetched data.
pub const CHART_FALLBACK_CANDLES: usize = 240;

/// 64-bit FNV-1a hash of a byte string.
pub open spec fn fnv1a(bytes: Seq<u8>) -> u64
    decreases bytes.len(),
{
    if bytes.len() == 0 {
        FNV_OFFSET
    } else {
        vstd::wrapping::u64_specs::wrapping_mul(fnv1a(bytes.drop_last()) ^ (bytes.last() as u64), FNV_PRIME)
    }
}

/// Seed of a symbol's synthetic price series: the FNV-1a hash of its bytes.
pub fn candle_seed(symbol: &str) -> (r: u64)
    ensures
        r == fnv1a(symbol.spec_bytes()),
{
    let bytes = symbol.as_bytes();
    let mut seed: u64 = FNV_OFFSET;
    let mut i: usize = 0;
    while i < bytes.len()
        invariant
            bytes@ == symbol.spec_bytes(),
            i <= bytes@.len(),
            seed == fnv1a(bytes@.take(i as int)),
        decreases bytes@.len() - i,
    {
        proof {
            assert(bytes@.take(i + 1).drop_last() =~= bytes@.take(i as int));
        }
        seed = seed ^ (bytes[i] as u64);
        seed = seed.wrapping_mul(FNV_PRIME);
        i = i + 1;
    }
    proof {
        assert(bytes@.take(bytes@.len() as int) =~= bytes@);
    }
    seed
}

/// The integer shape of a synthetic series, derived from its seed: the base
/// price, whether the drift rises, the drift's size in steps and the phase
/// of the open-price wobble.
#[derive(Clone, Copy, Debug, PartialEq, Eq, Structural)]
pub struct SeriesShape {
    pub base: u64,
    pub rising: bool,
    pub trend_steps: u64,
    pub phase: u64,
}

/// See [`SeriesShape`].
pub fn series_shape(seed: u64) -> (r: SeriesShape)
    ensures
        r.base == 50 + seed % 800,
        r.rising == ((seed >> 17u64) & 1 == 0),
        r.trend_steps == (seed >> 9u64) % 7,
        r.phase == seed % 13,
{
    SeriesShape {
        base: 50 + seed % 800,
        rising: (seed >> 17u64) & 1 == 0,
        trend_steps: (seed >> 9u64) % 7,
        phase: seed % 13,
    }
}

/// The 16 low bits of the seed advanced by `i` golden-ratio steps: the
/// pseudo-random jitter of candle `i`.
pub fn candle_jitter(seed: u64, i: u64) -> (r: u64)
    requires
        i * 2654435761 <= u64::MAX,
    ensures
        r == vstd::wrapping::u64_specs::wrapping_add(seed, (i * 2654435761) as u64) & 0xffff,
        r <= 0xffff,
{
    let w: u64 = seed.wrapping_add(i * 2654435761);
    assert(w & 0xffff <= 0xffff) by (bit_vector);
    w & 0xffff
}

// ---------------------------------------------------------------------------
// Orders and prompts
// ---------------------------------------------------------------------------

/// Why an order is not placed.
#[derive(Clone, Copy, Debug, PartialEq, Eq, Structural)]
pub enum OrderRejected {
    /// Symbol or quantity is blank.
    MissingSymbolOrQuantity,
}

/// The confirmation text of an order: side, quantity, symbol and limit, each
/// trimmed ("BUY 100 AAPL @ 192.15").
pub open spec fn order_text(side: Seq<char>, symbol: Seq<char>, qty: Seq<char>, limit: Seq<char>) -> Seq<char> {
    side + " "@ + trim_spec(qty) + " "@ + trim_spec(symbol) + " @ "@ + trim_spec(limit)
}

/// Validate the quick-order form and build its confirmation: rejected when
/// the symbol or the quantity is blank.
pub fn order_summary(side: &str, symbol: &str, qty: &str, limit: &str) -> (r: Result<String, OrderRejected>)
    ensures
        r is Err <==> trim_spec(symbol@).len() == 0 || trim_spec(qty@).len() == 0,
        r matches Ok(s) ==> s@ == order_text(side@, symbol@, qty@, limit@),
{
    let sym = trim(symbol);
    let q = trim(qty);
    if sym.unicode_len() == 0 || q.unicode_len() == 0 {
        return Err(OrderRejected::MissingSymbolOrQuantity);
    }
    let l = trim(limit);
    let mut s = String::from_str(side);
    s.append(" ");
    s.append(q);
    s.append(" ");
    s.append(sym);
    s.append(" @ ");
    s.append(l);
    proof {
        assert(s@ =~= order_text(side@, symbol@, qty@, limit@));
    }
    Ok(s)
}

/// A news headline with its details.
pub struct NewsItem {
    pub time: &'static str,
    pub tag: &'static str,
    pub headline: &'static str,
    pub source: &'static str,
    pub body: &'static str,
    pub link: &'static str,
}

/// The "Ask AI" prompt prefilled for a news item.
pub open spec fn ask_ai_text(headline: Seq<char>, tag: Seq<char>, link: Seq<char>) -> Seq<char> {
    "What is the implication behind this news and how it affects my position?\n\n"@ + headline + " ("@
        + tag + ")\nSource: "@ + link
}

/// See [`ask_ai_text`].
pub fn ask_ai_prompt(n: &NewsItem) -> (r: String)
    ensures
        r@ == ask_ai_text(n.headline@, n.tag@, n.link@),
{
    let mut s = String::from_str(
        "What is the implication behind this news and how it affects my position?\n\n",
    );
    s.append(n.headline);
    s.append(" (");
    s.append(n.tag);
    s.append(")\nSource: ");
    s.append(n.link);
    proof {
        assert(s@ =~= ask_ai_text(n.headline@, n.tag@, n.link@));
    }
    s
}

} // verus!
