//! The key enumerator on concrete topologies.

use csv_recorder::topology::{ControllerConfig, Loop, RecKeys, Runtime};

fn pid_loop() -> Loop {
    Loop {
        id: "L1".to_string(),
        inputs: vec!["i1".to_string()],
        outputs: vec!["o1".to_string()],
        controller: ControllerConfig::Pid,
    }
}

#[test]
fn pid_loop_keys_exact_set() {
    let mut keys = pid_loop().rec_keys();
    let mut expected = vec![
        "setpoint.L1".to_string(),
        "in.i1".to_string(),
        "out.o1".to_string(),
        "controller.L1.pid.target".to_string(),
        "controller.L1.pid.prev_value".to_string(),
        "controller.L1.pid.p".to_string(),
        "controller.L1.pid.i".to_string(),
        "controller.L1.pid.d".to_string(),
    ];
    keys.sort();
    expected.sort();
    assert_eq!(keys, expected);
}

#[test]
fn bang_bang_loop_keys() {
    let l = Loop {
        id: "heat".to_string(),
        inputs: vec![],
        outputs: vec!["relay".to_string()],
        controller: ControllerConfig::BangBang,
    };
    assert_eq!(
        l.rec_keys(),
        vec![
            "setpoint.heat".to_string(),
            "out.relay".to_string(),
            "controller.heat.bb.threshold".to_string(),
            "controller.heat.bb.current".to_string(),
        ]
    );
}

#[test]
fn runtime_keys_sorted_and_deduplicated() {
    let rt = Runtime {
        loops: vec![pid_loop(), pid_loop()],
        state_machines: vec!["fsm_b".to_string(), "fsm_a".to_string()],
    };
    let keys = rt.rec_keys();
    assert_eq!(
        keys,
        vec![
            "controller.L1.pid.d".to_string(),
            "controller.L1.pid.i".to_string(),
            "controller.L1.pid.p".to_string(),
            "controller.L1.pid.prev_value".to_string(),
            "controller.L1.pid.target".to_string(),
            "fsm.fsm_a".to_string(),
            "fsm.fsm_b".to_string(),
            "in.i1".to_string(),
            "out.o1".to_string(),
            "rules".to_string(),
            "setpoint.L1".to_string(),
        ]
    );
}

#[test]
fn empty_runtime_has_only_rules_key() {
    let rt = Runtime { loops: vec![], state_machines: vec![] };
    assert_eq!(rt.rec_keys(), vec!["rules".to_string()]);
}
