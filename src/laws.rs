use vstd::prelude::*;

use crate::arena::{arena_ok, gate_at, gate_ok, in_degree_at_most_one, input_at, input_ok, output_at, wire_at, wire_ok, Data};
use crate::element::{gate_after, gate_clicked, gate_drive, gate_eval, Gate, Logical};
use crate::engine::{driven, gate_inputs, lemma_step_shape, step};
use crate::interaction::click_gate;
use crate::kind::{arity, GateKind, PrimitiveKind};
use crate::primitive::{evaluate, Eval, SimError};

verus! {

/// The two-input kinds follow the standard truth tables on every pair of
/// inputs, and show their output as their state.
pub proof fn truth_tables(a: bool, b: bool, state: bool)
    ensures
        evaluate(PrimitiveKind::AND, seq![a, b], state) == Ok::<Eval, SimError>(
            Eval { output: Some(a && b), state: a && b },
        ),
        evaluate(PrimitiveKind::OR, seq![a, b], state) == Ok::<Eval, SimError>(
            Eval { output: Some(a || b), state: a || b },
        ),
        evaluate(PrimitiveKind::XOR, seq![a, b], state) == Ok::<Eval, SimError>(
            Eval { output: Some(a != b), state: a != b },
        ),
        evaluate(PrimitiveKind::NAND, seq![a, b], state) == Ok::<Eval, SimError>(
            Eval { output: Some(!(a && b)), state: !(a && b) },
        ),
        evaluate(PrimitiveKind::NOR, seq![a, b], state) == Ok::<Eval, SimError>(
            Eval { output: Some(!(a || b)), state: !(a || b) },
        ),
{
    crate::primitive::lemma_small_seq(seq![a, b]);
}

/// Ticking a two-input gate with an output follows the truth tables, and
/// its state shows the result.
pub proof fn tick_truth_tables(g: Gate, a: bool, b: bool)
    requires
        g.outs@.len() > 0,
    ensures
        gate_eval(Gate { kind: GateKind::Primitive(PrimitiveKind::AND), ..g }, seq![a, b])
            == Ok::<Eval, SimError>(Eval { output: Some(a && b), state: a && b }),
        gate_eval(Gate { kind: GateKind::Primitive(PrimitiveKind::OR), ..g }, seq![a, b])
            == Ok::<Eval, SimError>(Eval { output: Some(a || b), state: a || b }),
        gate_eval(Gate { kind: GateKind::Primitive(PrimitiveKind::XOR), ..g }, seq![a, b])
            == Ok::<Eval, SimError>(Eval { output: Some(a != b), state: a != b }),
        gate_eval(Gate { kind: GateKind::Primitive(PrimitiveKind::NAND), ..g }, seq![a, b])
            == Ok::<Eval, SimError>(Eval { output: Some(!(a && b)), state: !(a && b) }),
        gate_eval(Gate { kind: GateKind::Primitive(PrimitiveKind::NOR), ..g }, seq![a, b])
            == Ok::<Eval, SimError>(Eval { output: Some(!(a || b)), state: !(a || b) }),
{
    truth_tables(a, b, g.state);
}

/// Ticking a primitive gate with more inputs than its kind accepts fails
/// with an arity error and changes nothing.
pub proof fn tick_arity_guard(g: Gate, k: PrimitiveKind, ins: Seq<bool>)
    requires
        g.kind == GateKind::Primitive(k),
        ins.len() > arity(k),
    ensures
        gate_eval(g, ins) == Err::<Eval, SimError>(SimError::InvalidInputArity),
        gate_after(g, ins) == g,
{
}

/// Ticking a PULSE gate with an output emits its state once and leaves it
/// at rest: high then reset after a click, low when at rest.
pub proof fn tick_pulse(g: Gate)
    requires
        g.kind == GateKind::Primitive(PrimitiveKind::PULSE),
        g.outs@.len() > 0,
    ensures
        gate_drive(g, Seq::<bool>::empty()) == Some(g.state),
        !gate_after(g, Seq::<bool>::empty()).state,
        gate_drive(gate_after(g, Seq::<bool>::empty()), Seq::<bool>::empty()) == Some(false),
{
}

/// Ticking a TOGGLE gate with an output emits its state and keeps it.
pub proof fn tick_toggle(g: Gate)
    requires
        g.kind == GateKind::Primitive(PrimitiveKind::TOGGLE),
        g.outs@.len() > 0,
    ensures
        gate_drive(g, Seq::<bool>::empty()) == Some(g.state),
        gate_after(g, Seq::<bool>::empty()) == g,
{
    assert(Gate { state: g.state, ..g } == g);
}

/// More inputs than a kind accepts is always an arity error.
pub proof fn arity_guard(k: PrimitiveKind, ins: Seq<bool>, state: bool)
    requires
        ins.len() > arity(k),
    ensures
        evaluate(k, ins, state) == Err::<Eval, SimError>(SimError::InvalidInputArity),
{
}

/// In every well-formed session, and so after any sequence of handled
/// events, no input has more than one wire ending at it.
pub proof fn in_degree_holds(d: Data)
    requires
        d.wf(),
    ensures
        in_degree_at_most_one(d.live_data@),
{
    let s = d.live_data@;
    assert forall|a: int, b: int|
        #[trigger] wire_at(s, a) is Some && #[trigger] wire_at(s, b) is Some && wire_at(s, a)->Some_0.dest
            is Some && wire_at(s, a)->Some_0.dest == wire_at(s, b)->Some_0.dest implies a == b by {
        assert(wire_ok(s, a, wire_at(s, a)->Some_0));
        assert(wire_ok(s, b, wire_at(s, b)->Some_0));
    }
}

/// After an evaluation cycle, an input is high only through a connected
/// wire ending at it; so no input is high through a disconnected wire `w`.
pub proof fn disconnect_clears(s: Seq<Option<Logical>>, w: int)
    requires
        arena_ok(s),
        wire_at(s, w) is Some,
        !wire_at(s, w)->Some_0.connected,
    ensures
        forall|i: int|
            #[trigger] input_at(step(s), i) is Some && input_at(step(s), i)->Some_0.signal ==> {
                let src = input_at(step(s), i)->Some_0.source_wire_id;
                &&& src is Some
                &&& src != Some(w as usize)
                &&& wire_at(step(s), src->Some_0 as int) is Some
                &&& wire_at(step(s), src->Some_0 as int)->Some_0.connected
                &&& wire_at(step(s), src->Some_0 as int)->Some_0.dest == Some(i as usize)
            },
{
    assert(wire_ok(s, w, wire_at(s, w)->Some_0));
    assert forall|i: int|
        #[trigger] input_at(step(s), i) is Some && input_at(step(s), i)->Some_0.signal implies {
            let src = input_at(step(s), i)->Some_0.source_wire_id;
            &&& src is Some
            &&& src != Some(w as usize)
            &&& wire_at(step(s), src->Some_0 as int) is Some
            &&& wire_at(step(s), src->Some_0 as int)->Some_0.connected
            &&& wire_at(step(s), src->Some_0 as int)->Some_0.dest == Some(i as usize)
        } by {
        assert(input_at(s, i) is Some);
        let inp = input_at(s, i)->Some_0;
        assert(input_ok(s, i, inp));
        if inp.source_wire_id is Some {
            let v = inp.source_wire_id->Some_0 as int;
            assert(wire_at(s, v) is Some);
            assert(wire_ok(s, v, wire_at(s, v)->Some_0));
        }
    }
}

/// A click on a PULSE gate at rest makes its output high for exactly one
/// evaluation cycle: the next two cycles show high, then low.
pub proof fn pulse_one_shot(s: Seq<Option<Logical>>, g: int)
    requires
        arena_ok(s),
        gate_at(s, g) is Some,
        gate_at(s, g)->Some_0.kind == GateKind::Primitive(PrimitiveKind::PULSE),
        !gate_at(s, g)->Some_0.state,
        gate_at(s, g)->Some_0.outs@.len() > 0,
    ensures
        ({
            let o = gate_at(s, g)->Some_0.outs@[0] as int;
            let s1 = step(click_gate(s, g));
            let s2 = step(s1);
            &&& output_at(s1, o) is Some
            &&& output_at(s1, o)->Some_0.signal
            &&& output_at(s2, o) is Some
            &&& !output_at(s2, o)->Some_0.signal
        }),
{
    let gt = gate_at(s, g)->Some_0;
    let o = gt.outs@[0] as int;
    assert(gate_ok(s, g, gt));
    assert(output_at(s, o) is Some);
    let s0 = click_gate(s, g);
    let g0 = gate_clicked(gt);
    assert(gate_at(s0, g) == Some(g0));
    assert(output_at(s0, o) == output_at(s, o));
    assert(gate_inputs(s0, g0) =~= Seq::<bool>::empty());
    assert(driven(s0, o) == Some(true));
    let s1 = step(s0);
    let g1 = Gate { state: false, ..g0 };
    assert(gate_at(s1, g) == Some(g1));
    assert(gate_inputs(s1, g1) =~= Seq::<bool>::empty());
    assert(driven(s1, o) == Some(false));
}

/// The arena after `n` evaluation cycles.
pub open spec fn steps(s: Seq<Option<Logical>>, n: nat) -> Seq<Option<Logical>>
    decreases n,
{
    if n == 0 {
        s
    } else {
        step(steps(s, (n - 1) as nat))
    }
}

proof fn lemma_toggle_kept(s: Seq<Option<Logical>>, g: int, n: nat)
    requires
        arena_ok(s),
        gate_at(s, g) is Some,
        gate_at(s, g)->Some_0.kind == GateKind::Primitive(PrimitiveKind::TOGGLE),
        gate_at(s, g)->Some_0.outs@.len() > 0,
    ensures
        arena_ok(steps(s, n)),
        gate_at(steps(s, n), g) == gate_at(s, g),
        n > 0 ==> output_at(steps(s, n), gate_at(s, g)->Some_0.outs@[0] as int) is Some
            && output_at(steps(s, n), gate_at(s, g)->Some_0.outs@[0] as int)->Some_0.signal
            == gate_at(s, g)->Some_0.state,
    decreases n,
{
    if n > 0 {
        let p = steps(s, (n - 1) as nat);
        lemma_toggle_kept(s, g, (n - 1) as nat);
        lemma_step_shape(p, None);
        let gt = gate_at(p, g)->Some_0;
        let o = gt.outs@[0] as int;
        assert(gate_ok(p, g, gt));
        assert(output_at(p, o) is Some);
        assert(gate_inputs(p, gt) =~= Seq::<bool>::empty());
        assert(driven(p, o) == Some(gt.state));
        assert(Gate { state: gt.state, ..gt } == gt);
    }
}

/// Without clicks, a TOGGLE gate's output shows its state after every
/// number of evaluation cycles from the first on.
pub proof fn toggle_persists(s: Seq<Option<Logical>>, g: int, n: nat)
    requires
        arena_ok(s),
        gate_at(s, g) is Some,
        gate_at(s, g)->Some_0.kind == GateKind::Primitive(PrimitiveKind::TOGGLE),
        gate_at(s, g)->Some_0.outs@.len() > 0,
        n > 0,
    ensures
        output_at(steps(s, n), gate_at(s, g)->Some_0.outs@[0] as int) is Some,
        output_at(steps(s, n), gate_at(s, g)->Some_0.outs@[0] as int)->Some_0.signal == output_at(
            steps(s, 1),
            gate_at(s, g)->Some_0.outs@[0] as int,
        )->Some_0.signal,
{
    lemma_toggle_kept(s, g, n);
    lemma_toggle_kept(s, g, 1);
}

} // verus!
