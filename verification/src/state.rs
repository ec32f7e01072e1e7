//! The value flattener: one instantaneous system state turned into a flat
//! mapping from namespaced column names to recordable values.

use vstd::prelude::*;
use crate::value::{SpecValue, Value, ValueMap};

verus! {

/// The internal state of a proportional-integral-derivative controller.
/// Numeric fields are carried as decimal text; the previous value is absent
/// on the controller's first cycle.
pub struct PidState {
    pub target: String,
    pub prev_value: Option<String>,
    pub p: String,
    pub i: String,
    pub d: String,
}

/// The internal state of a threshold (bang-bang) controller: the threshold
/// as decimal text, and the current two-state reading.
pub struct BangBangState {
    pub threshold: String,
    pub current: bool,
}

/// The internal state of one controller.
pub enum ControllerState {
    Pid(PidState),
    BangBang(BangBangState),
}

/// The momentary values of the runtime's inputs, outputs and memory cells.
pub struct IoState {
    pub inputs: Vec<(String, Value)>,
    pub outputs: Vec<(String, Value)>,
    pub mem: Vec<(String, Value)>,
}

/// The full state of the system at one instant.
pub struct SystemState {
    pub io: IoState,
    pub setpoints: Vec<(String, Value)>,
    pub rules: Vec<(String, bool)>,
    pub state_machines: Vec<(String, String)>,
    pub controllers: Vec<(String, ControllerState)>,
}

/// Produces a recordable flat mapping of values.
pub trait RecVals {
    /// The exact flat mapping.
    spec fn spec_rec_vals(&self) -> Map<Seq<char>, SpecValue>;

    /// Flattens this state into a mapping from column name to value.
    fn rec_vals(&self) -> (r: ValueMap)
        ensures
            r@ == self.spec_rec_vals(),
    ;
}

/// Entries added to a map under a namespace prefix, in order, later entries
/// overriding earlier ones.
pub open spec fn prefixed_entries(
    m: Map<Seq<char>, SpecValue>,
    prefix: Seq<char>,
    es: Seq<(String, Value)>,
) -> Map<Seq<char>, SpecValue>
    decreases es.len(),
{
    if es.len() == 0 {
        m
    } else {
        prefixed_entries(m, prefix, es.drop_last()).insert(prefix + es.last().0@, es.last().1@)
    }
}

/// The identifiers of the active rules, in collection order.
pub open spec fn active_rule_ids(rules: Seq<(String, bool)>) -> Seq<Seq<char>>
    decreases rules.len(),
{
    if rules.len() == 0 {
        Seq::empty()
    } else {
        let rest = active_rule_ids(rules.drop_last());
        if rules.last().1 {
            rest.push(rules.last().0@)
        } else {
            rest
        }
    }
}

/// Identifiers joined with commas: empty for none, no trailing separator.
pub open spec fn join_ids(ids: Seq<Seq<char>>) -> Seq<char>
    decreases ids.len(),
{
    if ids.len() == 0 {
        Seq::empty()
    } else if ids.len() == 1 {
        ids[0]
    } else {
        join_ids(ids.drop_last()) + seq![','] + ids.last()
    }
}

/// One `fsm.` entry per state machine, holding its current state as text.
pub open spec fn fsm_entries(
    m: Map<Seq<char>, SpecValue>,
    es: Seq<(String, String)>,
) -> Map<Seq<char>, SpecValue>
    decreases es.len(),
{
    if es.len() == 0 {
        m
    } else {
        fsm_entries(m, es.drop_last()).insert(
            "fsm."@ + es.last().0@,
            SpecValue::Text(es.last().1@),
        )
    }
}

/// The namespaced entries of one controller's internal state. A controller
/// without a previous value contributes no `prev_value` entry.
pub open spec fn controller_state_entries(
    m: Map<Seq<char>, SpecValue>,
    id: Seq<char>,
    c: ControllerState,
) -> Map<Seq<char>, SpecValue> {
    match c {
        ControllerState::Pid(s) => {
            let m1 = m.insert(
                "controller."@ + id + ".pid.target"@,
                SpecValue::Decimal(s.target@),
            );
            let m2 = match s.prev_value {
                Some(v) => m1.insert(
                    "controller."@ + id + ".pid.prev_value"@,
                    SpecValue::Decimal(v@),
                ),
                None => m1,
            };
            m2.insert("controller."@ + id + ".pid.p"@, SpecValue::Decimal(s.p@)).insert(
                "controller."@ + id + ".pid.i"@,
                SpecValue::Decimal(s.i@),
            ).insert("controller."@ + id + ".pid.d"@, SpecValue::Decimal(s.d@))
        },
        ControllerState::BangBang(s) => {
            m.insert(
                "controller."@ + id + ".bb.threshold"@,
                SpecValue::Decimal(s.threshold@),
            ).insert("controller."@ + id + ".bb.current"@, SpecValue::Bit(s.current))
        },
    }
}

/// The entries of every controller, in collection order.
pub open spec fn controllers_entries(
    m: Map<Seq<char>, SpecValue>,
    es: Seq<(String, ControllerState)>,
) -> Map<Seq<char>, SpecValue>
    decreases es.len(),
{
    if es.len() == 0 {
        m
    } else {
        controller_state_entries(
            controllers_entries(m, es.drop_last()),
            es.last().0@,
            es.last().1,
        )
    }
}

/// Adds every entry of `es` to `map` under `prefix`.
fn insert_prefixed(map: &mut ValueMap, prefix: &str, es: &Vec<(String, Value)>)
    ensures
        final(map)@ == prefixed_entries(old(map)@, prefix@, es@),
{
    let ghost m0 = map@;
    let mut i: usize = 0;
    while i < es.len()
        invariant
            i <= es@.len(),
            map@ == prefixed_entries(m0, prefix@, es@.take(i as int)),
        decreases es@.len() - i,
    {
        let mut key = prefix.to_owned();
        key.append(es[i].0.as_str());
        let v = es[i].1.duplicate();
        map.insert(key, v);
        proof {
            assert(es@.take(i + 1).drop_last() =~= es@.take(i as int));
            assert(es@.take(i + 1).last() == es@[i as int]);
        }
        i = i + 1;
    }
    proof {
        assert(es@.take(i as int) =~= es@);
    }
}

impl RecVals for IoState {
    open spec fn spec_rec_vals(&self) -> Map<Seq<char>, SpecValue> {
        prefixed_entries(
            prefixed_entries(
                prefixed_entries(Map::empty(), "in."@, self.inputs@),
                "out."@,
                self.outputs@,
            ),
            "mem."@,
            self.mem@,
        )
    }

    fn rec_vals(&self) -> (r: ValueMap) {
        let mut map = ValueMap::new();
        insert_prefixed(&mut map, "in.", &self.inputs);
        insert_prefixed(&mut map, "out.", &self.outputs);
        insert_prefixed(&mut map, "mem.", &self.mem);
        map
    }
}

/// Builds the comma-joined identifiers of the active rules.
fn join_active_rules(rules: &Vec<(String, bool)>) -> (r: String)
    ensures
        r@ == join_ids(active_rule_ids(rules@)),
{
    let mut out = String::new();
    let mut first: bool = true;
    let ghost all = active_rule_ids(rules@);
    let mut i: usize = 0;
    proof {
        assert(rules@.take(0) =~= Seq::<(String, bool)>::empty());
        assert(out@ =~= join_ids(active_rule_ids(rules@.take(0))));
    }
    while i < rules.len()
        invariant
            i <= rules@.len(),
            out@ == join_ids(active_rule_ids(rules@.take(i as int))),
            first <==> active_rule_ids(rules@.take(i as int)).len() == 0,
        decreases rules@.len() - i,
    {
        let ghost prev = active_rule_ids(rules@.take(i as int));
        proof {
            assert(rules@.take(i + 1).drop_last() =~= rules@.take(i as int));
            assert(rules@.take(i + 1).last() == rules@[i as int]);
            if rules@[i as int].1 {
                assert(active_rule_ids(rules@.take(i + 1)) =~= prev.push(rules@[i as int].0@));
            } else {
                assert(active_rule_ids(rules@.take(i + 1)) =~= prev);
            }
        }
        if rules[i].1 {
            if first {
                out.append(rules[i].0.as_str());
                first = false;
                proof {
                    assert(prev.push(rules@[i as int].0@).len() == 1);
                    assert(out@ =~= join_ids(prev.push(rules@[i as int].0@)));
                }
            } else {
                out.append(",");
                out.append(rules[i].0.as_str());
                proof {
                    reveal_strlit(",");
                    let cur = prev.push(rules@[i as int].0@);
                    assert(cur.drop_last() =~= prev);
                    assert(out@ =~= join_ids(prev) + ","@ + rules@[i as int].0@);
                    assert(","@ =~= seq![',']);
                    assert(out@ =~= join_ids(cur));
                }
            }
        }
        i = i + 1;
    }
    proof {
        assert(rules@.take(i as int) =~= rules@);
    }
    out
}

impl RecVals for SystemState {
    open spec fn spec_rec_vals(&self) -> Map<Seq<char>, SpecValue> {
        controllers_entries(
            fsm_entries(
                prefixed_entries(self.io.spec_rec_vals(), "setpoint."@, self.setpoints@).insert(
                    "rules"@,
                    SpecValue::Text(join_ids(active_rule_ids(self.rules@))),
                ),
                self.state_machines@,
            ),
            self.controllers@,
        )
    }

    fn rec_vals(&self) -> (r: ValueMap) {
        let mut map = self.io.rec_vals();
        insert_prefixed(&mut map, "setpoint.", &self.setpoints);
        let joined = join_active_rules(&self.rules);
        map.insert("rules".to_owned(), Value::Text(joined));
        let ghost m_rules = map@;
        let mut i: usize = 0;
        while i < self.state_machines.len()
            invariant
                i <= self.state_machines@.len(),
                map@ == fsm_entries(m_rules, self.state_machines@.take(i as int)),
            decreases self.state_machines@.len() - i,
        {
            let mut key = "fsm.".to_owned();
            key.append(self.state_machines[i].0.as_str());
            map.insert(key, Value::Text(self.state_machines[i].1.clone()));
            proof {
                assert(self.state_machines@.take(i + 1).drop_last() =~= self.state_machines@.take(
                    i as int,
                ));
                assert(self.state_machines@.take(i + 1).last() == self.state_machines@[i as int]);
            }
            i = i + 1;
        }
        proof {
            assert(self.state_machines@.take(i as int) =~= self.state_machines@);
        }
        let ghost m_fsm = map@;
        let mut i: usize = 0;
        while i < self.controllers.len()
            invariant
                i <= self.controllers@.len(),
                map@ == controllers_entries(m_fsm, self.controllers@.take(i as int)),
            decreases self.controllers@.len() - i,
        {
            let id = &self.controllers[i].0;
            match &self.controllers[i].1 {
                ControllerState::Pid(s) => {
                    let mut key = "controller.".to_owned();
                    key.append(id.as_str());
                    key.append(".pid.");
                    let mut k_target = key.clone();
                    k_target.append("target");
                    map.insert(k_target, Value::Decimal(s.target.clone()));
                    match &s.prev_value {
                        Some(v) => {
                            let mut k_prev = key.clone();
                            k_prev.append("prev_value");
                            map.insert(k_prev, Value::Decimal(v.clone()));
                        },
                        None => {},
                    }
                    let mut k_p = key.clone();
                    k_p.append("p");
                    map.insert(k_p, Value::Decimal(s.p.clone()));
                    let mut k_i = key.clone();
                    k_i.append("i");
                    map.insert(k_i, Value::Decimal(s.i.clone()));
                    let mut k_d = key.clone();
                    k_d.append("d");
                    map.insert(k_d, Value::Decimal(s.d.clone()));
                    proof {
                        reveal_strlit(".pid.");
                        reveal_strlit("target");
                        reveal_strlit("prev_value");
                        reveal_strlit("p");
                        reveal_strlit("i");
                        reveal_strlit("d");
                        reveal_strlit(".pid.target");
                        reveal_strlit(".pid.prev_value");
                        reveal_strlit(".pid.p");
                        reveal_strlit(".pid.i");
                        reveal_strlit(".pid.d");
                        assert(key@ + "target"@ =~= "controller."@ + id@ + ".pid.target"@);
                        assert(key@ + "prev_value"@ =~= "controller."@ + id@ + ".pid.prev_value"@);
                        assert(key@ + "p"@ =~= "controller."@ + id@ + ".pid.p"@);
                        assert(key@ + "i"@ =~= "controller."@ + id@ + ".pid.i"@);
                        assert(key@ + "d"@ =~= "controller."@ + id@ + ".pid.d"@);
                    }
                },
                ControllerState::BangBang(s) => {
                    let mut key = "controller.".to_owned();
                    key.append(id.as_str());
                    key.append(".bb.");
                    let mut k_t = key.clone();
                    k_t.append("threshold");
                    map.insert(k_t, Value::Decimal(s.threshold.clone()));
                    let mut k_c = key.clone();
                    k_c.append("current");
                    map.insert(k_c, Value::Bit(s.current));
                    proof {
                        reveal_strlit(".bb.");
                        reveal_strlit("threshold");
                        reveal_strlit("current");
                        reveal_strlit(".bb.threshold");
                        reveal_strlit(".bb.current");
                        assert(key@ + "threshold"@ =~= "controller."@ + id@ + ".bb.threshold"@);
                        assert(key@ + "current"@ =~= "controller."@ + id@ + ".bb.current"@);
                    }
                },
            }
            proof {
                assert(self.controllers@.take(i + 1).drop_last() =~= self.controllers@.take(
                    i as int,
                ));
                assert(self.controllers@.take(i + 1).last() == self.controllers@[i as int]);
            }
            i = i + 1;
        }
        proof {
            assert(self.controllers@.take(i as int) =~= self.controllers@);
        }
        map
    }
}

} // verus!
