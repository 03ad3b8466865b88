use std::cell::Cell;
use std::rc::Rc;

use rust_state_machine::{
    ConfigError, ConfigLoader, Dispatch, EventListener, JsonFileLoader, SimpleEventListener,
    StateMachine, StateMachineConfig, Transition,
};

type Callback = Box<dyn Fn()>;

fn rule(event: &str, from: &str, to: &str, action: Option<&str>) -> Transition {
    Transition::new(
        event.to_string(),
        from.to_string(),
        to.to_string(),
        action.map(|a| a.to_string()),
    )
}

fn order_config() -> StateMachineConfig {
    StateMachineConfig::new(
        "Created".to_string(),
        vec![
            rule("Pay", "Created", "Paid", Some("process_payment")),
            rule("Ship", "Paid", "Shipped", Some("send_shipping_notification")),
            rule("Deliver", "Shipped", "Delivered", Some("update_inventory")),
            rule("Cancel", "Paid", "Cancelled", Some("refund_payment")),
        ],
    )
}

fn event(name: &str) -> Option<String> {
    Some(name.to_string())
}

struct FixedLoader {
    fail: bool,
}

impl ConfigLoader for FixedLoader {
    fn load_config(&self) -> Result<StateMachineConfig, ConfigError> {
        if self.fail {
            Err(ConfigError::Unreachable("no such source".to_string()))
        } else {
            Ok(order_config())
        }
    }
}

#[test]
fn starts_in_initial_state() {
    let m: StateMachine<Callback> = StateMachine::from_config(order_config());
    assert_eq!(m.get_current_state(), "Created");
    assert!(m.is_running());
}

#[test]
fn new_uses_the_loader() {
    let m: StateMachine<Callback> = match StateMachine::new(&FixedLoader { fail: false }) {
        Ok(m) => m,
        Err(_) => panic!("the loader succeeds"),
    };
    assert_eq!(m.get_current_state(), "Created");
}

#[test]
fn new_passes_loader_failure_on() {
    let r: Result<StateMachine<Callback>, ConfigError> = StateMachine::new(&FixedLoader { fail: true });
    match r {
        Err(ConfigError::Unreachable(msg)) => assert_eq!(msg, "no such source"),
        _ => panic!("the loader's error is expected"),
    }
}

#[test]
fn from_loaded_passes_malformed_on() {
    let r: Result<StateMachine<Callback>, ConfigError> =
        StateMachine::from_loaded(Err(ConfigError::Malformed("bad".to_string())));
    assert!(matches!(r, Err(ConfigError::Malformed(m)) if m == "bad"));
}

#[test]
fn matching_event_moves_and_runs_action_once() {
    let mut m: StateMachine<Callback> = StateMachine::from_config(order_config());
    let count = Rc::new(Cell::new(0u32));
    let c = count.clone();
    m.register_action("process_payment", Box::new(move || c.set(c.get() + 1)));
    match m.dispatch(event("Pay")) {
        Dispatch::Moved { from, to, action } => {
            assert_eq!(from, "Created");
            assert_eq!(to, "Paid");
            assert_eq!(action.as_deref(), Some("process_payment"));
            let callback = m.action(&action.unwrap()).expect("registered");
            callback();
        }
        _ => panic!("Pay fires in Created"),
    }
    assert_eq!(m.get_current_state(), "Paid");
    assert_eq!(count.get(), 1);
}

#[test]
fn unmatched_event_keeps_state() {
    let mut m: StateMachine<Callback> = StateMachine::from_config(order_config());
    match m.dispatch(event("Ship")) {
        Dispatch::Unmatched { event, state } => {
            assert_eq!(event, "Ship");
            assert_eq!(state, "Created");
        }
        _ => panic!("Ship does not fire in Created"),
    }
    assert_eq!(m.get_current_state(), "Created");
}

#[test]
fn earlier_duplicate_rule_wins() {
    let config = StateMachineConfig::new(
        "A".to_string(),
        vec![rule("Go", "A", "B", None), rule("Go", "A", "C", None)],
    );
    let mut m: StateMachine<Callback> = StateMachine::from_config(config);
    m.dispatch(event("Go"));
    assert_eq!(m.get_current_state(), "B");
}

#[test]
fn find_transition_picks_first() {
    let table = vec![
        rule("Go", "A", "B", None),
        rule("Go", "X", "Y", None),
        rule("Go", "X", "Z", None),
    ];
    let t = StateMachine::<Callback>::find_transition(&table, "X", "Go").expect("a rule fires");
    assert_eq!(t.to, "Y");
    assert!(StateMachine::<Callback>::find_transition(&table, "B", "Go").is_none());
    assert!(StateMachine::<Callback>::find_transition(&[], "A", "Go").is_none());
}

#[test]
fn observation_is_stable() {
    let mut m: StateMachine<Callback> = StateMachine::from_config(order_config());
    m.dispatch(event("Pay"));
    let first = m.get_current_state();
    let second = m.get_current_state();
    assert_eq!(first, second);
    assert_eq!(first, "Paid");
}

#[test]
fn pay_then_ship_through_channel() {
    let config = StateMachineConfig::new(
        "Created".to_string(),
        vec![rule("Pay", "Created", "Paid", None), rule("Ship", "Paid", "Shipped", None)],
    );
    let mut m: StateMachine<Callback> = StateMachine::from_config(config);
    let (listener, sender) = SimpleEventListener::new();
    sender.send("Pay".to_string()).unwrap();
    sender.send("Ship".to_string()).unwrap();
    drop(sender);
    let mut rounds = 0;
    loop {
        match m.dispatch(listener.listen()) {
            Dispatch::Stopped => break,
            _ => rounds += 1,
        }
    }
    assert_eq!(rounds, 2);
    assert_eq!(m.get_current_state(), "Shipped");
}

#[test]
fn stopped_machine_ignores_events() {
    let mut m: StateMachine<Callback> = StateMachine::from_config(order_config());
    m.stop();
    assert!(!m.is_running());
    assert!(matches!(m.dispatch(event("Pay")), Dispatch::Stopped));
    assert_eq!(m.get_current_state(), "Created");
}

#[test]
fn exhausted_source_ends_loop() {
    let mut m: StateMachine<Callback> = StateMachine::from_config(order_config());
    let (listener, sender) = SimpleEventListener::new();
    drop(sender);
    assert!(listener.listen().is_none());
    assert!(matches!(m.dispatch(None), Dispatch::Stopped));
    assert_eq!(m.get_current_state(), "Created");
}

#[test]
fn missing_action_still_moves() {
    let mut m: StateMachine<Callback> = StateMachine::from_config(order_config());
    match m.dispatch(event("Pay")) {
        Dispatch::Moved { action, .. } => assert!(action.is_none()),
        _ => panic!("Pay fires in Created"),
    }
    assert_eq!(m.get_current_state(), "Paid");
}

#[test]
fn later_registration_replaces_earlier() {
    let mut m: StateMachine<u32> = StateMachine::from_config(order_config());
    m.register_action("refund_payment", 1);
    m.register_action("update_inventory", 2);
    m.register_action("refund_payment", 3);
    assert_eq!(m.action("refund_payment"), Some(&3));
    assert_eq!(m.action("update_inventory"), Some(&2));
    assert_eq!(m.action("process_payment"), None);
}

#[test]
fn full_order_path() {
    let mut m: StateMachine<u32> = StateMachine::from_config(order_config());
    m.register_action("update_inventory", 7);
    m.dispatch(event("Pay"));
    m.dispatch(event("Ship"));
    match m.dispatch(event("Deliver")) {
        Dispatch::Moved { from, to, action } => {
            assert_eq!(from, "Shipped");
            assert_eq!(to, "Delivered");
            assert_eq!(action.as_deref(), Some("update_inventory"));
        }
        _ => panic!("Deliver fires in Shipped"),
    }
    assert_eq!(m.get_current_state(), "Delivered");
}

#[test]
fn json_loader_keeps_path() {
    let loader = JsonFileLoader::new("example-json.json".to_string());
    assert_eq!(loader.path(), "example-json.json");
}
