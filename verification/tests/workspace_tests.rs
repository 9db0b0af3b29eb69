use terminal_demo::panels::Kind;
use terminal_demo::workspace::{plan_add_panel, AddPanelPlan, SingletonSlots, TradingToggle};

#[test]
fn first_adopted_singleton_wins() {
    let mut s: SingletonSlots<&str> = SingletonSlots::new();
    assert_eq!(s.adopt(Kind::AiChat, "chat-1"), None);
    assert_eq!(s.adopt(Kind::AiChat, "chat-2"), Some("chat-2"));
    assert_eq!(s.adopt(Kind::Chart, "chart"), Some("chart"));
    assert_eq!(s.get(Kind::AiChat), &Some("chat-1"));
    assert_eq!(s.get(Kind::Position), &None);
}

#[test]
fn take_put_and_clear() {
    let mut s: SingletonSlots<u32> = SingletonSlots::new();
    s.put(Kind::Position, 7);
    assert_eq!(s.take(Kind::Position), Some(7));
    assert_eq!(s.take(Kind::Position), None);
    s.put(Kind::Execution, 9);
    s.clear();
    assert_eq!(s.get(Kind::Execution), &None);
}

#[test]
fn trading_toggle_closes_open_panels_or_opens_the_pair() {
    let mut s: SingletonSlots<u32> = SingletonSlots::new();
    assert!(matches!(s.toggle_trading(), TradingToggle::Open));
    s.put(Kind::Position, 1);
    s.put(Kind::Execution, 2);
    s.put(Kind::AiChat, 3);
    match s.toggle_trading() {
        TradingToggle::Close(v) => assert_eq!(v, vec![1, 2]),
        TradingToggle::Open => panic!("expected close"),
    }
    assert_eq!(s.get(Kind::Position), &None);
    assert_eq!(s.get(Kind::AiChat), &Some(3));
    s.put(Kind::Execution, 4);
    match s.toggle_trading() {
        TradingToggle::Close(v) => assert_eq!(v, vec![4]),
        TradingToggle::Open => panic!("expected close"),
    }
}

#[test]
fn add_panel_plans() {
    let mut s: SingletonSlots<&str> = SingletonSlots::new();
    assert!(matches!(plan_add_panel(&s, "Nope"), AddPanelPlan::Ignore));
    assert!(matches!(
        plan_add_panel(&s, "Chart"),
        AddPanelPlan::Create { kind: Kind::Chart, track: false }
    ));
    assert!(matches!(
        plan_add_panel(&s, "AiChat"),
        AddPanelPlan::Create { kind: Kind::AiChat, track: true }
    ));
    s.put(Kind::AiChat, "chat");
    match plan_add_panel(&s, "AiChat") {
        AddPanelPlan::FocusExisting(e) => assert_eq!(*e, "chat"),
        _ => panic!("expected the open chat to be focused"),
    }
}
