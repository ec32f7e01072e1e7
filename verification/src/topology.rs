//! The key enumerator: the deterministic, sorted, deduplicated set of
//! recordable column names derived from the static topology of loops,
//! controllers and state machines.

use vstd::prelude::*;
use crate::text::{lemma_lex_connected, lemma_lex_transitive, lex_lt, str_lt};

verus! {

/// The controller variant of a loop; each variant owns its field schema.
pub enum ControllerConfig {
    /// A proportional-integral-derivative controller.
    Pid,
    /// A threshold (bang-bang) controller.
    BangBang,
}

/// A control loop: an identifier, declared inputs and outputs, and one
/// controller.
pub struct Loop {
    pub id: String,
    pub inputs: Vec<String>,
    pub outputs: Vec<String>,
    pub controller: ControllerConfig,
}

/// The static topology of a runtime: its loops and the identifiers of its
/// tracked state machines.
pub struct Runtime {
    pub loops: Vec<Loop>,
    pub state_machines: Vec<String>,
}

/// Produces the recordable column names of a piece of topology.
pub trait RecKeys {
    /// The exact sequence of recordable column names.
    spec fn spec_rec_keys(&self) -> Seq<Seq<char>>;

    /// Enumerates the recordable column names.
    fn rec_keys(&self) -> (r: Vec<String>)
        ensures
            r.deep_view() == self.spec_rec_keys(),
    ;
}

/// The namespace tag of a controller variant.
pub open spec fn controller_tag(c: ControllerConfig) -> Seq<char> {
    match c {
        ControllerConfig::Pid => "pid"@,
        ControllerConfig::BangBang => "bb"@,
    }
}

/// The recordable fields of a controller variant.
pub open spec fn controller_fields(c: ControllerConfig) -> Seq<Seq<char>> {
    match c {
        ControllerConfig::Pid => seq!["target"@, "prev_value"@, "p"@, "i"@, "d"@],
        ControllerConfig::BangBang => seq!["threshold"@, "current"@],
    }
}

/// The column names of one loop: its setpoint, one name per input and
/// output, and one per controller field.
pub open spec fn loop_keys(l: Loop) -> Seq<Seq<char>> {
    seq!["setpoint."@ + l.id@] + l.inputs.deep_view().map_values(|i: Seq<char>| "in."@ + i)
        + l.outputs.deep_view().map_values(|o: Seq<char>| "out."@ + o) + controller_fields(
        l.controller,
    ).map_values(|f: Seq<char>| "controller."@ + l.id@ + "."@ + controller_tag(l.controller) + "."@ + f)
}

/// The concatenated column names of a sequence of loops.
pub open spec fn loops_keys(ls: Seq<Loop>) -> Seq<Seq<char>>
    decreases ls.len(),
{
    if ls.len() == 0 {
        Seq::empty()
    } else {
        loops_keys(ls.drop_last()) + loop_keys(ls.last())
    }
}

/// Every column name of a runtime, before ordering: every loop's names in
/// declaration order, one `fsm.` name per state machine, and `rules`.
pub open spec fn runtime_raw_keys(rt: Runtime) -> Seq<Seq<char>> {
    loops_keys(rt.loops@) + rt.state_machines.deep_view().map_values(|i: Seq<char>| "fsm."@ + i)
        + seq!["rules"@]
}

/// Insertion of a name into an ordered, duplicate-free sequence: before the
/// first name it precedes, and dropped when already present.
pub open spec fn sorted_insert_key(s: Seq<Seq<char>>, k: Seq<char>) -> Seq<Seq<char>>
    decreases s.len(),
{
    if s.len() == 0 {
        seq![k]
    } else if lex_lt(s[0], k) {
        seq![s[0]] + sorted_insert_key(s.skip(1), k)
    } else if s[0] == k {
        s
    } else {
        seq![k] + s
    }
}

/// The ordered, deduplicated form of a sequence of names.
pub open spec fn sorted_dedup(s: Seq<Seq<char>>) -> Seq<Seq<char>>
    decreases s.len(),
{
    if s.len() == 0 {
        Seq::empty()
    } else {
        sorted_insert_key(sorted_dedup(s.drop_last()), s.last())
    }
}

/// Strict lexicographic ascent: ordered, with no duplicates.
pub open spec fn strictly_sorted_keys(s: Seq<Seq<char>>) -> bool {
    forall|i: int, j: int| 0 <= i < j < s.len() ==> lex_lt(s[i], s[j])
}

/// Inserting into an ordered, duplicate-free sequence keeps it so, and adds
/// exactly the inserted name to its contents.
pub proof fn lemma_sorted_insert_key_props(s: Seq<Seq<char>>, k: Seq<char>)
    requires
        strictly_sorted_keys(s),
    ensures
        strictly_sorted_keys(sorted_insert_key(s, k)),
        forall|y: Seq<char>|
            #[trigger] sorted_insert_key(s, k).contains(y) <==> s.contains(y) || y == k,
    decreases s.len(),
{
    let post = sorted_insert_key(s, k);
    if s.len() == 0 {
        assert forall|y: Seq<char>| #[trigger] post.contains(y) implies y == k by {
            assert(post[choose|i: int| 0 <= i < post.len() && post[i] == y] == k);
        }
        assert(post.contains(k)) by {
            assert(post[0] == k);
        }
    } else if lex_lt(s[0], k) {
        let tail = s.skip(1);
        assert(strictly_sorted_keys(tail)) by {
            assert(forall|i: int, j: int|
                0 <= i < j < tail.len() ==> lex_lt(#[trigger] tail[i], #[trigger] tail[j]));
        }
        lemma_sorted_insert_key_props(tail, k);
        let rec = sorted_insert_key(tail, k);
        assert(post =~= seq![s[0]] + rec);
        assert forall|i: int, j: int| 0 <= i < j < post.len() implies lex_lt(post[i], post[j]) by {
            if i == 0 {
                assert(rec.contains(post[j])) by {
                    assert(rec[j - 1] == post[j]);
                }
                if post[j] == k {
                } else {
                    let m = choose|m: int| 0 <= m < tail.len() && tail[m] == post[j];
                    assert(lex_lt(s[0], s[m + 1]));
                }
            } else {
                assert(post[i] == rec[i - 1] && post[j] == rec[j - 1]);
            }
        }
        assert forall|y: Seq<char>| #[trigger] post.contains(y) implies s.contains(y) || y == k by {
            let m = choose|m: int| 0 <= m < post.len() && post[m] == y;
            if m == 0 {
                assert(s.contains(s[0])) by {
                    assert(s[0] == s[0]);
                }
            } else {
                assert(rec.contains(y)) by {
                    assert(rec[m - 1] == y);
                }
                if y != k {
                    let n = choose|n: int| 0 <= n < tail.len() && tail[n] == y;
                    assert(s[n + 1] == y);
                }
            }
        }
        assert forall|y: Seq<char>| s.contains(y) || y == k implies #[trigger] post.contains(y) by {
            if s.contains(y) {
                let m = choose|m: int| 0 <= m < s.len() && s[m] == y;
                if m == 0 {
                    assert(post[0] == y);
                } else {
                    assert(tail.contains(y)) by {
                        assert(tail[m - 1] == y);
                    }
                    assert(rec.contains(y));
                    let n = choose|n: int| 0 <= n < rec.len() && rec[n] == y;
                    assert(post[n + 1] == y);
                }
            } else {
                assert(rec.contains(k));
                let n = choose|n: int| 0 <= n < rec.len() && rec[n] == k;
                assert(post[n + 1] == k);
            }
        }
    } else if s[0] == k {
        assert(post =~= s);
    } else {
        lemma_lex_connected(s[0], k);
        assert(lex_lt(k, s[0]));
        assert(post =~= seq![k] + s);
        assert forall|i: int, j: int| 0 <= i < j < post.len() implies lex_lt(post[i], post[j]) by {
            if i == 0 {
                if j > 1 {
                    lemma_lex_transitive(k, s[0], s[j - 1]);
                }
            }
        }
        assert forall|y: Seq<char>| #[trigger] post.contains(y) implies s.contains(y) || y == k by {
            let m = choose|m: int| 0 <= m < post.len() && post[m] == y;
            if m > 0 {
                assert(s[m - 1] == y);
            }
        }
        assert forall|y: Seq<char>| s.contains(y) || y == k implies #[trigger] post.contains(y) by {
            if s.contains(y) {
                let m = choose|m: int| 0 <= m < s.len() && s[m] == y;
                assert(post[m + 1] == y);
            } else {
                assert(post[0] == k);
            }
        }
    }
}

/// The ordered, deduplicated form is ordered, duplicate-free, and holds
/// exactly the names of its input.
pub proof fn lemma_sorted_dedup_props(s: Seq<Seq<char>>)
    ensures
        strictly_sorted_keys(sorted_dedup(s)),
        forall|y: Seq<char>| #[trigger] sorted_dedup(s).contains(y) <==> s.contains(y),
    decreases s.len(),
{
    if s.len() == 0 {
    } else {
        lemma_sorted_dedup_props(s.drop_last());
        lemma_sorted_insert_key_props(sorted_dedup(s.drop_last()), s.last());
        assert forall|y: Seq<char>| #[trigger] sorted_dedup(s).contains(y) implies s.contains(
            y,
        ) by {
            if s.drop_last().contains(y) {
                let m = choose|m: int| 0 <= m < s.drop_last().len() && s.drop_last()[m] == y;
                assert(s[m] == y);
            } else {
                assert(s[s.len() - 1] == y);
            }
        }
        assert forall|y: Seq<char>| s.contains(y) implies #[trigger] sorted_dedup(s).contains(
            y,
        ) by {
            let m = choose|m: int| 0 <= m < s.len() && s[m] == y;
            if m < s.len() - 1 {
                assert(s.drop_last()[m] == y);
            }
        }
    }
}

/// Splitting the insertion at a prefix of names that all precede the new
/// one.
proof fn lemma_sorted_insert_key_split(s: Seq<Seq<char>>, k: Seq<char>, j: int)
    requires
        0 <= j <= s.len(),
        forall|m: int| 0 <= m < j ==> lex_lt(#[trigger] s[m], k),
    ensures
        sorted_insert_key(s, k) =~= s.take(j) + sorted_insert_key(s.skip(j), k),
    decreases j,
{
    if j == 0 {
        assert(s.skip(0) =~= s);
        assert(s.take(0) + sorted_insert_key(s, k) =~= sorted_insert_key(s, k));
    } else {
        lemma_sorted_insert_key_split(s.skip(1), k, j - 1);
        assert(s.skip(1).take(j - 1) =~= s.take(j).skip(1));
        assert(s.skip(1).skip(j - 1) =~= s.skip(j));
        assert(seq![s[0]] + (s.skip(1).take(j - 1) + sorted_insert_key(s.skip(j), k)) =~= s.take(
            j,
        ) + sorted_insert_key(s.skip(j), k));
    }
}

/// Inserts one name into an ordered, duplicate-free vector of names.
fn insert_key(dst: &mut Vec<String>, k: String)
    ensures
        final(dst).deep_view() == sorted_insert_key(old(dst).deep_view(), k@),
{
    let ghost pre = dst.deep_view();
    let mut j: usize = 0;
    while j < dst.len() && str_lt(dst[j].as_str(), k.as_str())
        invariant
            j <= dst@.len(),
            pre == dst.deep_view(),
            forall|m: int| 0 <= m < j ==> lex_lt(#[trigger] pre[m], k@),
        decreases dst@.len() - j,
    {
        j = j + 1;
    }
    proof {
        lemma_sorted_insert_key_split(pre, k@, j as int);
    }
    if j < dst.len() {
        if dst[j].eq(&k) {
            proof {
                assert(pre.skip(j as int)[0] == pre[j as int]);
                assert(sorted_insert_key(pre.skip(j as int), k@) =~= pre.skip(j as int));
                assert(pre.take(j as int) + pre.skip(j as int) =~= pre);
                assert(dst.deep_view() =~= sorted_insert_key(pre, k@));
            }
            return ;
        }
        dst.insert(j, k);
        proof {
            assert(pre.skip(j as int)[0] == pre[j as int]);
            assert(sorted_insert_key(pre.skip(j as int), k@) =~= seq![k@] + pre.skip(j as int));
            assert(dst.deep_view() =~= pre.take(j as int) + (seq![k@] + pre.skip(j as int)));
        }
    } else {
        dst.insert(j, k);
        proof {
            assert(pre.skip(j as int) =~= Seq::<Seq<char>>::empty());
            assert(dst.deep_view() =~= pre.take(j as int) + seq![k@]);
        }
    }
}

impl RecKeys for Loop {
    open spec fn spec_rec_keys(&self) -> Seq<Seq<char>> {
        loop_keys(*self)
    }

    fn rec_keys(&self) -> (r: Vec<String>) {
        let mut keys: Vec<String> = Vec::new();
        let mut sp = "setpoint.".to_owned();
        sp.append(self.id.as_str());
        keys.push(sp);
        let ghost base = seq!["setpoint."@ + self.id@];
        proof {
            assert(keys.deep_view() =~= base);
        }
        let ghost in_keys = self.inputs.deep_view().map_values(|i: Seq<char>| "in."@ + i);
        let mut i: usize = 0;
        while i < self.inputs.len()
            invariant
                i <= self.inputs@.len(),
                in_keys == self.inputs.deep_view().map_values(|ii: Seq<char>| "in."@ + ii),
                keys.deep_view() =~= base + in_keys.take(i as int),
            decreases self.inputs@.len() - i,
        {
            let ghost dpre = keys.deep_view();
            let mut s = "in.".to_owned();
            s.append(self.inputs[i].as_str());
            keys.push(s);
            proof {
                assert(keys.deep_view() =~= dpre.push(in_keys[i as int]));
                assert(keys.deep_view() =~= base + in_keys.take(i + 1));
            }
            i = i + 1;
        }
        proof {
            assert(in_keys.take(i as int) =~= in_keys);
        }
        let ghost base2 = base + in_keys;
        let ghost out_keys = self.outputs.deep_view().map_values(|o: Seq<char>| "out."@ + o);
        let mut i: usize = 0;
        while i < self.outputs.len()
            invariant
                i <= self.outputs@.len(),
                out_keys == self.outputs.deep_view().map_values(|oo: Seq<char>| "out."@ + oo),
                keys.deep_view() =~= base2 + out_keys.take(i as int),
            decreases self.outputs@.len() - i,
        {
            let ghost dpre = keys.deep_view();
            let mut s = "out.".to_owned();
            s.append(self.outputs[i].as_str());
            keys.push(s);
            proof {
                assert(keys.deep_view() =~= dpre.push(out_keys[i as int]));
                assert(keys.deep_view() =~= base2 + out_keys.take(i + 1));
            }
            i = i + 1;
        }
        proof {
            assert(out_keys.take(i as int) =~= out_keys);
        }
        let ghost base3 = base2 + out_keys;
        let mut cfields: Vec<&str> = Vec::new();
        let tag: &str = match self.controller {
            ControllerConfig::Pid => {
                cfields.push("target");
                cfields.push("prev_value");
                cfields.push("p");
                cfields.push("i");
                cfields.push("d");
                "pid"
            },
            ControllerConfig::BangBang => {
                cfields.push("threshold");
                cfields.push("current");
                "bb"
            },
        };
        proof {
            assert(cfields.deep_view() =~= controller_fields(self.controller));
            assert(tag@ == controller_tag(self.controller));
        }
        let mut prefix = "controller.".to_owned();
        prefix.append(self.id.as_str());
        prefix.append(".");
        prefix.append(tag);
        prefix.append(".");
        let ghost c_keys = controller_fields(self.controller).map_values(
            |f: Seq<char>| "controller."@ + self.id@ + "."@ + controller_tag(self.controller) + "."@
                + f,
        );
        let mut i: usize = 0;
        while i < cfields.len()
            invariant
                i <= cfields@.len(),
                cfields.deep_view() == controller_fields(self.controller),
                prefix@ == "controller."@ + self.id@ + "."@ + controller_tag(self.controller)
                    + "."@,
                c_keys == controller_fields(self.controller).map_values(
                    |f: Seq<char>| "controller."@ + self.id@ + "."@ + controller_tag(
                        self.controller,
                    ) + "."@ + f,
                ),
                keys.deep_view() =~= base3 + c_keys.take(i as int),
            decreases cfields@.len() - i,
        {
            let ghost dpre = keys.deep_view();
            let mut s = prefix.clone();
            s.append(cfields[i]);
            keys.push(s);
            proof {
                assert(keys.deep_view() =~= dpre.push(c_keys[i as int]));
                assert(keys.deep_view() =~= base3 + c_keys.take(i + 1));
            }
            i = i + 1;
        }
        proof {
            assert(c_keys.take(i as int) =~= c_keys);
            assert(keys.deep_view() =~= loop_keys(*self));
        }
        keys
    }
}

impl RecKeys for Runtime {
    open spec fn spec_rec_keys(&self) -> Seq<Seq<char>> {
        sorted_dedup(runtime_raw_keys(*self))
    }

    fn rec_keys(&self) -> (r: Vec<String>) {
        let mut raw: Vec<String> = Vec::new();
        let mut i: usize = 0;
        while i < self.loops.len()
            invariant
                i <= self.loops@.len(),
                raw.deep_view() =~= loops_keys(self.loops@.take(i as int)),
            decreases self.loops@.len() - i,
        {
            let ghost dpre = raw.deep_view();
            let mut ks = self.loops[i].rec_keys();
            raw.append(&mut ks);
            proof {
                assert(self.loops@.take(i + 1).drop_last() =~= self.loops@.take(i as int));
                assert(raw.deep_view() =~= dpre + loop_keys(self.loops@[i as int]));
            }
            i = i + 1;
        }
        proof {
            assert(self.loops@.take(i as int) =~= self.loops@);
        }
        let ghost base = loops_keys(self.loops@);
        let ghost sm_keys = self.state_machines.deep_view().map_values(|s: Seq<char>| "fsm."@ + s);
        let mut i: usize = 0;
        while i < self.state_machines.len()
            invariant
                i <= self.state_machines@.len(),
                sm_keys == self.state_machines.deep_view().map_values(
                    |s: Seq<char>| "fsm."@ + s,
                ),
                raw.deep_view() =~= base + sm_keys.take(i as int),
            decreases self.state_machines@.len() - i,
        {
            let ghost dpre = raw.deep_view();
            let mut s = "fsm.".to_owned();
            s.append(self.state_machines[i].as_str());
            raw.push(s);
            proof {
                assert(raw.deep_view() =~= dpre.push(sm_keys[i as int]));
                assert(raw.deep_view() =~= base + sm_keys.take(i + 1));
            }
            i = i + 1;
        }
        proof {
            assert(sm_keys.take(i as int) =~= sm_keys);
        }
        raw.push("rules".to_owned());
        proof {
            assert(raw.deep_view() =~= runtime_raw_keys(*self));
        }
        let ghost rawseq = raw.deep_view();
        let ghost total = rawseq.len();
        let mut out: Vec<String> = Vec::new();
        while raw.len() > 0
            invariant
                raw.deep_view().len() <= total,
                rawseq.len() == total,
                raw.deep_view() =~= rawseq.skip(total - raw.deep_view().len()),
                out.deep_view() =~= sorted_dedup(rawseq.take(total - raw.deep_view().len())),
            decreases raw.deep_view().len(),
        {
            let ghost done = total - raw.deep_view().len();
            let ghost rpre = raw.deep_view();
            let x = raw.remove(0);
            insert_key(&mut out, x);
            proof {
                assert(raw.deep_view() =~= rpre.skip(1));
                assert(raw.deep_view() =~= rawseq.skip(done + 1));
                assert(x@ == rpre[0]);
                assert(x@ == rawseq[done]);
                assert(rawseq.take(done + 1).drop_last() =~= rawseq.take(done));
                assert(rawseq.take(done + 1).last() == rawseq[done]);
                assert(out.deep_view() =~= sorted_dedup(rawseq.take(done + 1)));
            }
        }
        proof {
            assert(rawseq.take(total as int) =~= rawseq);
        }
        out
    }
}

} // verus!
