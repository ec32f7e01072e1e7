//! The value flattener on concrete system states.

use csv_recorder::state::{
    BangBangState, ControllerState, IoState, PidState, RecVals, SystemState,
};
use csv_recorder::value::Value;

fn enc(m: &csv_recorder::value::ValueMap, key: &str) -> Option<String> {
    m.get(&key.to_string()).map(|v| v.encode())
}

#[test]
fn io_state_merges_three_namespaces() {
    let io = IoState {
        inputs: vec![("a".to_string(), Value::Integer(1))],
        outputs: vec![("b".to_string(), Value::Bit(true))],
        mem: vec![("c".to_string(), Value::Text("x".to_string()))],
    };
    let m = io.rec_vals();
    assert_eq!(enc(&m, "in.a"), Some("1".to_string()));
    assert_eq!(enc(&m, "out.b"), Some("true".to_string()));
    assert_eq!(enc(&m, "mem.c"), Some("x".to_string()));
    assert_eq!(enc(&m, "a"), None);
}

fn base_state() -> SystemState {
    SystemState {
        io: IoState {
            inputs: vec![("x".to_string(), Value::Decimal(5.25f64.to_string()))],
            outputs: vec![],
            mem: vec![],
        },
        setpoints: vec![("L1".to_string(), Value::Decimal(10.0f64.to_string()))],
        rules: vec![],
        state_machines: vec![],
        controllers: vec![],
    }
}

#[test]
fn system_state_setpoints_and_io() {
    let m = base_state().rec_vals();
    assert_eq!(enc(&m, "in.x"), Some("5.25".to_string()));
    assert_eq!(enc(&m, "setpoint.L1"), Some("10".to_string()));
}

#[test]
fn active_rules_join_in_collection_order() {
    let mut s = base_state();
    s.rules = vec![
        ("r1".to_string(), true),
        ("r2".to_string(), false),
        ("r3".to_string(), true),
    ];
    let m = s.rec_vals();
    assert_eq!(enc(&m, "rules"), Some("r1,r3".to_string()));
}

#[test]
fn no_active_rules_joins_to_empty_text() {
    let mut s = base_state();
    s.rules = vec![("r1".to_string(), false)];
    let m = s.rec_vals();
    assert_eq!(enc(&m, "rules"), Some("".to_string()));
}

#[test]
fn state_machines_render_as_text() {
    let mut s = base_state();
    s.state_machines = vec![("door".to_string(), "open".to_string())];
    let m = s.rec_vals();
    assert_eq!(enc(&m, "fsm.door"), Some("open".to_string()));
}

#[test]
fn pid_controller_without_prev_value_omits_the_key() {
    let mut s = base_state();
    s.controllers = vec![(
        "L1".to_string(),
        ControllerState::Pid(PidState {
            target: 1.5f64.to_string(),
            prev_value: None,
            p: 0.1f64.to_string(),
            i: 0.2f64.to_string(),
            d: 0.3f64.to_string(),
        }),
    )];
    let m = s.rec_vals();
    assert_eq!(enc(&m, "controller.L1.pid.target"), Some("1.5".to_string()));
    assert_eq!(enc(&m, "controller.L1.pid.prev_value"), None);
    assert_eq!(enc(&m, "controller.L1.pid.p"), Some("0.1".to_string()));
    assert_eq!(enc(&m, "controller.L1.pid.i"), Some("0.2".to_string()));
    assert_eq!(enc(&m, "controller.L1.pid.d"), Some("0.3".to_string()));
}

#[test]
fn pid_controller_with_prev_value_emits_it() {
    let mut s = base_state();
    s.controllers = vec![(
        "L1".to_string(),
        ControllerState::Pid(PidState {
            target: 1.5f64.to_string(),
            prev_value: Some(4.75f64.to_string()),
            p: 0f64.to_string(),
            i: 0f64.to_string(),
            d: 0f64.to_string(),
        }),
    )];
    let m = s.rec_vals();
    assert_eq!(enc(&m, "controller.L1.pid.prev_value"), Some("4.75".to_string()));
}

#[test]
fn bang_bang_controller_entries() {
    let mut s = base_state();
    s.controllers = vec![(
        "hot".to_string(),
        ControllerState::BangBang(BangBangState {
            threshold: 21.5f64.to_string(),
            current: true,
        }),
    )];
    let m = s.rec_vals();
    assert_eq!(enc(&m, "controller.hot.bb.threshold"), Some("21.5".to_string()));
    assert_eq!(enc(&m, "controller.hot.bb.current"), Some("true".to_string()));
}
