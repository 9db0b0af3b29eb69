use terminal_demo::calendar::{
    calendar_toggle_label, count_label, figure_text, header_label, listed_events, split_figure,
    EconomicEvent, Impact, ImpactFilter, Scale,
};

fn ev(date: &'static str, impact: Impact) -> EconomicEvent {
    EconomicEvent {
        date,
        time: "08:30",
        currency: "USD",
        impact,
        title: "Initial Jobless Claims",
        actual: "218K",
        forecast: "232K",
        previous: "",
    }
}

#[test]
fn impact_labels() {
    let labels: Vec<&str> = Impact::all().into_iter().map(|i| i.label()).collect();
    assert_eq!(labels, vec!["High", "Medium", "Low", "Holiday"]);
}

#[test]
fn default_filter_hides_holidays() {
    let f = ImpactFilter::new();
    assert!(f.contains(Impact::High));
    assert!(f.contains(Impact::Medium));
    assert!(f.contains(Impact::Low));
    assert!(!f.contains(Impact::Holiday));
}

#[test]
fn toggling_twice_restores_the_filter() {
    let mut f = ImpactFilter::new();
    f.toggle_impact(Impact::High);
    assert!(!f.contains(Impact::High));
    f.toggle_impact(Impact::Holiday);
    assert!(f.contains(Impact::Holiday));
    f.toggle_impact(Impact::High);
    f.toggle_impact(Impact::Holiday);
    assert!(f.contains(Impact::High));
    assert!(!f.contains(Impact::Holiday));
    assert!(f.contains(Impact::Medium) && f.contains(Impact::Low));
}

#[test]
fn insert_and_remove_report_membership() {
    let mut f = ImpactFilter::new();
    assert!(!f.insert(Impact::High));
    assert!(f.insert(Impact::Holiday));
    assert!(f.remove(Impact::Low));
    assert!(!f.remove(Impact::Low));
}

#[test]
fn events_filtered_by_date_and_impact() {
    let events = [
        ev("2026-05-06", Impact::High),
        ev("2026-05-06", Impact::Holiday),
        ev("2026-05-07", Impact::Low),
        ev("2026-05-06", Impact::Medium),
    ];
    let f = ImpactFilter::new();
    assert_eq!(listed_events(&events, Some("2026-05-06"), &f), vec![0, 3]);
    assert_eq!(listed_events(&events, None, &f), vec![0, 2, 3]);
    assert_eq!(listed_events(&events, Some("2026-05-08"), &f), Vec::<usize>::new());
    let mut g = f;
    g.toggle_impact(Impact::Holiday);
    assert_eq!(listed_events(&events, Some("2026-05-06"), &g), vec![0, 1, 3]);
}

#[test]
fn panel_labels() {
    assert_eq!(header_label(Some("2026-05-06")), "Events · 2026-05-06");
    assert_eq!(header_label(None), "All events");
    assert_eq!(count_label(0), "0 match");
    assert_eq!(count_label(7), "7 match");
    assert_eq!(count_label(1204), "1204 match");
    assert_eq!(calendar_toggle_label(true, Some("2026-05-06")), "▾  Calendar · 2026-05-06");
    assert_eq!(calendar_toggle_label(false, None), "▸  Calendar");
    assert_eq!(figure_text(""), "—");
    assert_eq!(figure_text("3.3%"), "3.3%");
}

#[test]
fn figures_split_into_number_and_scale() {
    assert_eq!(split_figure("3.3%"), ("3.3".to_string(), Scale::Unit));
    assert_eq!(split_figure("-17.2"), ("-17.2".to_string(), Scale::Unit));
    assert_eq!(split_figure("218K"), ("218".to_string(), Scale::Thousands));
    assert_eq!(split_figure(" 1,250.5M "), ("1250.5".to_string(), Scale::Millions));
    assert_eq!(split_figure("2B"), ("2".to_string(), Scale::Billions));
    assert_eq!(split_figure(""), ("".to_string(), Scale::Unit));
    assert_eq!(split_figure("1,000"), ("1000".to_string(), Scale::Unit));
}
