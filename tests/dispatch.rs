use lua_ui::dispatch::{Action, Dispatch, DispatchError, Event, Operation, Phase};
use lua_ui::value::{JsonValue, LuaKey, LuaValue};

fn view_table() -> LuaValue {
    LuaValue::Table(vec![(LuaKey::Text("screen".to_string()), LuaValue::Text("home".to_string()))])
}

#[test]
fn input_change_runs_handler_then_render() {
    let op = Operation::InputChange {
        screen_id: "s".to_string(),
        field_id: "f".to_string(),
        value: "v".to_string(),
    };
    let mut d = Dispatch::new(op);
    assert!(matches!(d.step(Event::Locked), Action::LoadModule));
    match d.step(Event::Loaded) {
        Action::Handler(Operation::InputChange { screen_id, field_id, value }) => {
            assert_eq!((screen_id.as_str(), field_id.as_str(), value.as_str()), ("s", "f", "v"));
        }
        _ => panic!("expected the input handler"),
    }
    assert!(matches!(d.step(Event::Returned), Action::Render));
    match d.step(Event::Viewed(view_table())) {
        Action::Finish(Ok(JsonValue::Object(members))) => {
            assert_eq!(members.len(), 1);
            assert_eq!(members[0].0, "screen");
            assert!(matches!(members[0].1, JsonValue::String(ref s) if s == "home"));
        }
        _ => panic!("expected the converted view"),
    }
    assert!(d.phase == Phase::Done);
    assert!(!d.accepts(&Event::Returned));
}

#[test]
fn raising_handler_skips_render() {
    let op = Operation::ButtonClick { screen_id: "s".to_string(), button_id: "b".to_string() };
    let mut d = Dispatch::new(op);
    d.step(Event::Locked);
    assert!(matches!(d.step(Event::Loaded), Action::Handler(Operation::ButtonClick { .. })));
    match d.step(Event::Raised("boom".to_string())) {
        Action::Finish(Err(DispatchError::ScriptFault(m))) => assert_eq!(m, "boom"),
        _ => panic!("expected the script fault"),
    }
    assert!(d.phase == Phase::Done);
    assert!(!d.accepts(&Event::Viewed(LuaValue::Nil)));
}

#[test]
fn view_request_initializes_state_first() {
    let mut d = Dispatch::new(Operation::GetView);
    d.step(Event::Locked);
    assert!(matches!(d.step(Event::Loaded), Action::Handler(Operation::GetView)));
    assert!(matches!(d.step(Event::Returned), Action::Render));
}

#[test]
fn poisoned_lock_is_runtime_unavailable() {
    let mut d = Dispatch::new(Operation::GetView);
    assert!(d.accepts(&Event::Poisoned));
    match d.step(Event::Poisoned) {
        Action::Finish(Err(e)) => {
            assert!(matches!(e, DispatchError::RuntimeUnavailable));
            assert_eq!(e.message(), "could not lock the script runtime");
        }
        _ => panic!("expected a failure"),
    }
}

#[test]
fn module_load_failure_is_script_fault() {
    let mut d = Dispatch::new(Operation::GetView);
    d.step(Event::Locked);
    match d.step(Event::Raised("module not found".to_string())) {
        Action::Finish(Err(e)) => assert_eq!(e.message(), "module not found"),
        _ => panic!("expected a failure"),
    }
}

#[test]
fn unconvertible_view_is_conversion_error() {
    let mut d = Dispatch::new(Operation::GetView);
    d.step(Event::Locked);
    d.step(Event::Loaded);
    d.step(Event::Returned);
    match d.step(Event::Viewed(LuaValue::Bytes(vec![0xff]))) {
        Action::Finish(Err(e)) => {
            assert!(matches!(e, DispatchError::Conversion(_)));
            assert_eq!(e.message(), "the view holds a string that is not valid UTF-8");
        }
        _ => panic!("expected a failure"),
    }
}

#[test]
fn render_failure_is_surfaced() {
    let mut d = Dispatch::new(Operation::GetView);
    d.step(Event::Locked);
    d.step(Event::Loaded);
    d.step(Event::Returned);
    assert!(matches!(
        d.step(Event::Raised("bad view".to_string())),
        Action::Finish(Err(DispatchError::ScriptFault(_)))
    ));
}

#[test]
fn phases_accept_only_their_events() {
    let d = Dispatch::new(Operation::GetView);
    assert!(d.accepts(&Event::Locked));
    assert!(!d.accepts(&Event::Loaded));
    assert!(!d.accepts(&Event::Raised("x".to_string())));
}
