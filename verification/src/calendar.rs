//! The economic-calendar panel's logic: event impact levels, the impact
//! filter the user toggles, which events are listed for the selected date,
//! the panel's labels, and how a reported figure ("3.3%", "218K", "1,250.5")
//! splits into its number and its scale.
use vstd::prelude::*;

use crate::text::{decimal, push_decimal, remove_commas, trim, trim_spec, without_commas};

verus! {

/// How strongly an economic release is expected to move markets.
#[derive(Clone, Copy, Debug, PartialEq, Eq, Hash, Structural)]
pub enum Impact {
    High,
    Medium,
    Low,
    Holiday,
}

pub open spec fn impact_label(i: Impact) -> Seq<char> {
    match i {
        Impact::High => "High"@,
        Impact::Medium => "Medium"@,
        Impact::Low => "Low"@,
        Impact::Holiday => "Holiday"@,
    }
}

impl Impact {
    /// Every impact level, in chip order.
    pub fn all() -> (r: Vec<Impact>)
        ensures
            r@ == seq![Impact::High, Impact::Medium, Impact::Low, Impact::Holiday],
    {
        let r = vec![Impact::High, Impact::Medium, Impact::Low, Impact::Holiday];
        assert(r@ =~= seq![Impact::High, Impact::Medium, Impact::Low, Impact::Holiday]);
        r
    }

    /// Chip label of the impact level.
    pub fn label(self) -> (r: &'static str)
        ensures
            r@ == impact_label(self),
    {
        match self {
            Impact::High => "High",
            Impact::Medium => "Medium",
            Impact::Low => "Low",
            Impact::Holiday => "Holiday",
        }
    }
}

/// One scheduled economic release.
pub struct EconomicEvent {
    pub date: &'static str,
    pub time: &'static str,
    pub currency: &'static str,
    pub impact: Impact,
    pub title: &'static str,
    pub actual: &'static str,
    pub forecast: &'static str,
    pub previous: &'static str,
}

/// The set of impact levels whose events are listed.
#[derive(Clone, Copy, Debug)]
pub struct ImpactFilter {
    high: bool,
    medium: bool,
    low: bool,
    holiday: bool,
}

/// The set after toggling `i`: removed when present, added otherwise.
pub open spec fn toggled(s: Set<Impact>, i: Impact) -> Set<Impact> {
    if s.contains(i) {
        s.remove(i)
    } else {
        s.insert(i)
    }
}

/// Toggling the same level twice restores the filter.
pub proof fn lemma_toggle_twice(s: Set<Impact>, i: Impact)
    ensures
        toggled(toggled(s, i), i) == s,
{
    assert(toggled(toggled(s, i), i) =~= s);
}

impl View for ImpactFilter {
    type V = Set<Impact>;

    closed spec fn view(&self) -> Set<Impact> {
        Set::new(
            |i: Impact|
                match i {
                    Impact::High => self.high,
                    Impact::Medium => self.medium,
                    Impact::Low => self.low,
                    Impact::Holiday => self.holiday,
                },
        )
    }
}

impl ImpactFilter {
    /// The filter a new panel starts with: high, medium and low impact shown,
    /// holidays hidden.
    pub fn new() -> (r: Self)
        ensures
            r@ == set![Impact::High, Impact::Medium, Impact::Low],
    {
        let r = ImpactFilter { high: true, medium: true, low: true, holiday: false };
        assert(r@ =~= set![Impact::High, Impact::Medium, Impact::Low]);
        r
    }

    /// Whether events of level `i` are listed.
    pub fn contains(&self, i: Impact) -> (r: bool)
        ensures
            r == self@.contains(i),
    {
        match i {
            Impact::High => self.high,
            Impact::Medium => self.medium,
            Impact::Low => self.low,
            Impact::Holiday => self.holiday,
        }
    }

    /// Add level `i` to the filter; returns whether it was absent.
    pub fn insert(&mut self, i: Impact) -> (r: bool)
        ensures
            r == !old(self)@.contains(i),
            final(self)@ == old(self)@.insert(i),
    {
        let was = self.contains(i);
        match i {
            Impact::High => self.high = true,
            Impact::Medium => self.medium = true,
            Impact::Low => self.low = true,
            Impact::Holiday => self.holiday = true,
        }
        assert(self@ =~= old(self)@.insert(i));
        !was
    }

    /// Remove level `i` from the filter; returns whether it was present.
    pub fn remove(&mut self, i: Impact) -> (r: bool)
        ensures
            r == old(self)@.contains(i),
            final(self)@ == old(self)@.remove(i),
    {
        let was = self.contains(i);
        match i {
            Impact::High => self.high = false,
            Impact::Medium => self.medium = false,
            Impact::Low => self.low = false,
            Impact::Holiday => self.holiday = false,
        }
        assert(self@ =~= old(self)@.remove(i));
        was
    }

    /// Flip whether level `i` is listed (the impact chips' click action).
    pub fn toggle_impact(&mut self, i: Impact)
        ensures
            final(self)@ == toggled(old(self)@, i),
    {
        if !self.insert(i) {
            self.remove(i);
        }
    }
}

/// An event is listed when it falls on the selected date (any date when none
/// is selected) and its impact level passes the filter.
pub open spec fn event_listed(e: EconomicEvent, selected: Option<Seq<char>>, filter: Set<Impact>) -> bool {
    &&& match selected {
        Some(d) => e.date@ == d,
        None => true,
    }
    &&& filter.contains(e.impact)
}

/// Indices of the listed events, in calendar order.
pub open spec fn listed_indices(
    events: Seq<EconomicEvent>,
    selected: Option<Seq<char>>,
    filter: Set<Impact>,
) -> Seq<usize>
    decreases events.len(),
{
    if events.len() == 0 {
        Seq::empty()
    } else {
        let prev = listed_indices(events.drop_last(), selected, filter);
        if event_listed(events.last(), selected, filter) {
            prev.push((events.len() - 1) as usize)
        } else {
            prev
        }
    }
}


/// The listed indices are increasing, and an event is listed exactly when it
/// falls on the selected date and passes the impact filter.
pub proof fn lemma_listed_exactly(events: Seq<EconomicEvent>, selected: Option<Seq<char>>, filter: Set<Impact>)
    requires
        events.len() <= usize::MAX,
    ensures
        forall|a: int, b: int|
            0 <= a < b < listed_indices(events, selected, filter).len() ==> #[trigger] listed_indices(events, selected, filter)[a]
                < #[trigger] listed_indices(events, selected, filter)[b],
        forall|a: int| 0 <= a < listed_indices(events, selected, filter).len() ==> (#[trigger] listed_indices(events, selected, filter)[a]) < events.len(),
        forall|j: int|
            0 <= j < events.len() ==> (listed_indices(events, selected, filter).contains(j as usize)
                <==> event_listed(#[trigger] events[j], selected, filter)),
    decreases events.len(),
{
    if events.len() > 0 {
        let prev = events.drop_last();
        lemma_listed_exactly(prev, selected, filter);
        let l = listed_indices(events, selected, filter);
        let lp = listed_indices(prev, selected, filter);
        assert forall|a: int| 0 <= a < l.len() implies (#[trigger] l[a]) < events.len() by {
            if a < lp.len() {
                assert(l[a] == lp[a]);
            }
        }
        assert forall|a: int, b: int| 0 <= a < b < l.len() implies #[trigger] l[a] < #[trigger] l[b] by {
            if b < lp.len() {
                assert(l[a] == lp[a]);
                assert(l[b] == lp[b]);
            } else {
                assert(l[a] == lp[a]);
                assert(lp[a] < prev.len());
            }
        }
        assert forall|j: int| 0 <= j < events.len() implies (l.contains(j as usize)
            <==> event_listed(#[trigger] events[j], selected, filter)) by {
            if j < events.len() - 1 {
                assert(prev[j] == events[j]);
                if l.contains(j as usize) {
                    let a = choose|a: int| 0 <= a < l.len() && l[a] == j as usize;
                    if a < lp.len() {
                        assert(lp[a] == j as usize);
                    }
                }
                if lp.contains(j as usize) {
                    let a = choose|a: int| 0 <= a < lp.len() && lp[a] == j as usize;
                    assert(l[a] == j as usize);
                }
            } else {
                if event_listed(events.last(), selected, filter) {
                    assert(l[l.len() - 1] == j as usize);
                } else {
                    if l.contains(j as usize) {
                        let a = choose|a: int| 0 <= a < l.len() && l[a] == j as usize;
                        assert(lp[a] < prev.len());
                    }
                }
            }
        }
    }
}

pub open spec fn opt_str_view(o: Option<&str>) -> Option<Seq<char>> {
    match o {
        Some(s) => Some(s@),
        None => None,
    }
}

/// The events shown for the selected date and impact filter, as indices
/// into `events`.
pub fn listed_events(events: &[EconomicEvent], selected: Option<&str>, filter: &ImpactFilter) -> (r:
    Vec<usize>)
    ensures
        r@ == listed_indices(events@, opt_str_view(selected), filter@),
        forall|k: int| 0 <= k < r@.len() ==> (#[trigger] r@[k]) < events@.len(),
        forall|a: int, b: int| 0 <= a < b < r@.len() ==> #[trigger] r@[a] < #[trigger] r@[b],
        forall|k: int|
            0 <= k < r@.len() ==> filter@.contains(events@[#[trigger] r@[k] as int].impact),
        forall|k: int|
            0 <= k < r@.len() ==> (selected matches Some(d) ==> events@[#[trigger] r@[k] as int].date@
                == d@),
        forall|j: int|
            0 <= j < events@.len() && filter@.contains(#[trigger] events@[j].impact) && (
            selected matches Some(d) ==> events@[j].date@ == d@) ==> r@.contains(j as usize),
{
    let n_events: usize = events.len();
    proof {
        assert(events@.len() == n_events);
        lemma_listed_exactly(events@, opt_str_view(selected), filter@);
    }
    let mut r: Vec<usize> = Vec::new();
    let mut i: usize = 0;
    while i < events.len()
        invariant
            i <= events@.len(),
            r@ == listed_indices(events@.take(i as int), opt_str_view(selected), filter@),
        decreases events@.len() - i,
    {
        let e = &events[i];
        let date_ok = match selected {
            Some(d) => crate::text::str_eq(e.date, d),
            None => true,
        };
        proof {
            assert(events@.take(i + 1).drop_last() =~= events@.take(i as int));
            assert(events@.take(i + 1).last() == events@[i as int]);
        }
        if date_ok && filter.contains(e.impact) {
            r.push(i);
        }
        i = i + 1;
    }
    proof {
        assert(events@.take(events@.len() as int) =~= events@);
        let l = listed_indices(events@, opt_str_view(selected), filter@);
        assert forall|k: int| 0 <= k < r@.len() implies filter@.contains(
            events@[#[trigger] r@[k] as int].impact,
        ) && (selected matches Some(d) ==> events@[r@[k] as int].date@ == d@) by {
            assert(l.contains(r@[k]));
            let j = r@[k] as int;
            assert(j as usize == r@[k]);
            assert(event_listed(events@[j], opt_str_view(selected), filter@));
        }
        assert forall|j: int|
            0 <= j < events@.len() && filter@.contains(#[trigger] events@[j].impact) && (
            selected matches Some(d) ==> events@[j].date@ == d@) implies r@.contains(j as usize) by {
            assert(event_listed(events@[j], opt_str_view(selected), filter@));
        }
    }
    r
}

/// Heading above the event rows.
pub fn header_label(selected: Option<&str>) -> (r: String)
    ensures
        r@ == match selected {
            Some(d) => "Events · "@ + d@,
            None => "All events"@,
        },
{
    match selected {
        Some(d) => String::from_str("Events · ").concat(d),
        None => String::from_str("All events"),
    }
}

/// Number of listed events, as shown beside the heading ("3 match").
pub fn count_label(n: usize) -> (r: String)
    ensures
        r@ == decimal(n as nat) + " match"@,
{
    let mut r = String::new();
    push_decimal(&mut r, n);
    r.append(" match");
    proof {
        assert(Seq::<char>::empty() + decimal(n as nat) =~= decimal(n as nat));
    }
    r
}

/// Label of the button that folds the date picker: a chevron showing
/// whether it is open, then "Calendar" and the selected date if any.
pub fn calendar_toggle_label(open: bool, selected: Option<&str>) -> (r: String)
    ensures
        r@ == (if open { "▾"@ } else { "▸"@ }) + "  "@ + match selected {
            Some(d) => "Calendar · "@ + d@,
            None => "Calendar"@,
        },
{
    let mut r = String::from_str(if open { "▾" } else { "▸" });
    r.append("  ");
    r.append("Calendar");
    proof {
        reveal_strlit("Calendar");
        reveal_strlit("Calendar · ");
        reveal_strlit(" · ");
    }
    match selected {
        Some(d) => {
            r.append(" · ");
            r.append(d);
            proof {
                assert("Calendar"@ + " · "@ =~= "Calendar · "@);
            }
        },
        None => {},
    }
    r
}

/// A figure as displayed in a row: a dash when it is not reported.
pub fn figure_text(v: &'static str) -> (r: &'static str)
    ensures
        v@.len() == 0 ==> r@ == "—"@,
        v@.len() > 0 ==> r == v,
{
    if v.is_empty() {
        "—"
    } else {
        v
    }
}

/// How a reported figure is scaled: thousands, millions, billions, or as
/// written (plain numbers and percentages).
#[derive(Clone, Copy, Debug, PartialEq, Eq, Structural)]
pub enum Scale {
    Unit,
    Thousands,
    Millions,
    Billions,
}

/// The scale a figure's final character denotes, if it is a suffix.
pub open spec fn suffix_scale(c: char) -> Option<Scale> {
    if c == 'K' {
        Some(Scale::Thousands)
    } else if c == 'M' {
        Some(Scale::Millions)
    } else if c == 'B' {
        Some(Scale::Billions)
    } else if c == '%' {
        Some(Scale::Unit)
    } else {
        None
    }
}

/// Split a reported figure into the number to parse and its scale: the text
/// is trimmed, one trailing `K`, `M`, `B` or `%` is taken off as the scale,
/// and thousands separators (commas) are dropped from the rest.
pub open spec fn split_figure_spec(s: Seq<char>) -> (Seq<char>, Scale) {
    let t = trim_spec(s);
    if t.len() > 0 && suffix_scale(t.last()) is Some {
        (without_commas(t.drop_last()), suffix_scale(t.last())->0)
    } else {
        (without_commas(t), Scale::Unit)
    }
}

/// See [`split_figure_spec`]: the number text and the scale of a figure
/// such as "3.3%", "-17.2" or "218K".
pub fn split_figure(s: &str) -> (r: (String, Scale))
    ensures
        (r.0@, r.1) == split_figure_spec(s@),
{
    let t = trim(s);
    let n: usize = t.unicode_len();
    if n > 0 {
        let c = t.get_char(n - 1);
        let scale = if c == 'K' {
            Some(Scale::Thousands)
        } else if c == 'M' {
            Some(Scale::Millions)
        } else if c == 'B' {
            Some(Scale::Billions)
        } else if c == '%' {
            Some(Scale::Unit)
        } else {
            None
        };
        if let Some(sc) = scale {
            let body = t.substring_char(0, n - 1);
            proof {
                assert(body@ =~= t@.drop_last());
            }
            return (remove_commas(body), sc);
        }
    }
    (remove_commas(t), Scale::Unit)
}

} // verus!
