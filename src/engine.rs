use vstd::prelude::*;

use crate::arena::{arena_ok, gate_at, holding_ok, input_at, output_at, wire_at, Data};
use crate::element::{gate_after, gate_drive, Gate, Input, Logical, Output, Wire};

verus! {

/// The signal at input port `k`; false where there is none.
pub open spec fn input_signal(s: Seq<Option<Logical>>, k: int) -> bool {
    match input_at(s, k) {
        Some(i) => i.signal,
        None => false,
    }
}

/// The signals at a gate's inputs, in the order of its input list.
pub open spec fn gate_inputs(s: Seq<Option<Logical>>, g: Gate) -> Seq<bool> {
    g.ins@.map_values(|i: usize| input_signal(s, i as int))
}

/// The signal output port `o` is driven with in this cycle: its parent
/// gate's result, when `o` is that gate's first output and that gate's
/// evaluation succeeds.
pub open spec fn driven(s: Seq<Option<Logical>>, o: int) -> Option<bool> {
    match output_at(s, o) {
        Some(out) => match out.parent_id {
            Some(p) => match gate_at(s, p as int) {
                Some(g) => if g.outs@.len() > 0 && g.outs@[0] == o {
                    gate_drive(g, gate_inputs(s, g))
                } else {
                    None
                },
                None => None,
            },
            None => None,
        },
        None => None,
    }
}

/// The signal input port `i` receives: that of the output driving its
/// source wire, or low when it has no wire or the wire's source is not driven.
pub open spec fn fed(s: Seq<Option<Logical>>, i: Input) -> bool {
    match i.source_wire_id {
        Some(w) => match wire_at(s, w as int) {
            Some(wr) => match driven(s, wr.source_id as int) {
                Some(v) => v,
                None => false,
            },
            None => false,
        },
        None => false,
    }
}

/// Element `k` after gates are evaluated.
pub open spec fn gates_done(s: Seq<Option<Logical>>, k: int) -> Option<Logical> {
    match s[k] {
        Some(Logical::Gate(g)) => Some(Logical::Gate(gate_after(g, gate_inputs(s, g)))),
        _ => s[k],
    }
}

/// Element `k` after gates, outputs and wires are updated.
pub open spec fn signals_done(s: Seq<Option<Logical>>, k: int) -> Option<Logical> {
    match s[k] {
        Some(Logical::Output(o)) => match driven(s, k) {
            Some(v) => Some(Logical::Output(Output { signal: v, ..o })),
            None => s[k],
        },
        Some(Logical::Wire(w)) => match driven(s, w.source_id as int) {
            Some(v) => Some(Logical::Wire(Wire { signal: v, ..w })),
            None => s[k],
        },
        _ => gates_done(s, k),
    }
}

/// Element `k` after one full evaluation cycle.
pub open spec fn step_elem(s: Seq<Option<Logical>>, k: int) -> Option<Logical> {
    match s[k] {
        Some(Logical::Input(i)) => Some(Logical::Input(Input { signal: fed(s, i), ..i })),
        _ => signals_done(s, k),
    }
}

/// The arena after one evaluation cycle.
pub open spec fn step(s: Seq<Option<Logical>>) -> Seq<Option<Logical>> {
    Seq::new(s.len(), |k: int| step_elem(s, k))
}

/// `b` is `a` with at most its signal, gate state or drawn line changed.
pub open spec fn same_shape(a: Option<Logical>, b: Option<Logical>) -> bool {
    match (a, b) {
        (Some(Logical::Gate(x)), Some(Logical::Gate(y))) => y == Gate { state: y.state, ..x },
        (Some(Logical::Wire(x)), Some(Logical::Wire(y))) => y == Wire { signal: y.signal, line: y.line, ..x },
        (Some(Logical::Input(x)), Some(Logical::Input(y))) => y == Input { signal: y.signal, ..x },
        (Some(Logical::Output(x)), Some(Logical::Output(y))) => y == Output { signal: y.signal, ..x },
        _ => a == b,
    }
}

/// Changing only signals, gate states and drawn lines, and appending empty
/// slots or chips under their own ids, keeps the invariant.
pub proof fn lemma_same_shape(s: Seq<Option<Logical>>, t: Seq<Option<Logical>>, h: Option<usize>)
    requires
        arena_ok(s),
        holding_ok(s, h),
        s.len() <= t.len(),
        forall|k: int| 0 <= k < s.len() ==> same_shape(#[trigger] s[k], t[k]),
        forall|k: int|
            s.len() <= k < t.len() ==> (#[trigger] t[k]) is None || (t[k]->Some_0 is Chip
                && crate::element::elem_id(t[k]->Some_0) == k),
    ensures
        arena_ok(t),
        holding_ok(t, h),
{
    assert forall|k: int| 0 <= k < t.len() && #[trigger] t[k] is Some implies crate::element::elem_id(
        t[k]->Some_0,
    ) == k by {
        if k < s.len() {
            assert(same_shape(s[k], t[k]));
            assert(s[k] is Some);
        }
    }
    assert forall|k: int| s.len() <= k < t.len() implies (#[trigger] gate_at(t, k)) is None
        && wire_at(t, k) is None && input_at(t, k) is None && output_at(t, k) is None by {
        assert(t[k] is None || t[k]->Some_0 is Chip);
    }
    assert forall|k: int| 0 <= k < s.len() implies (#[trigger] gate_at(t, k) is Some) == (gate_at(s, k) is Some)
        && (wire_at(t, k) is Some) == (wire_at(s, k) is Some) && (input_at(t, k) is Some) == (input_at(s, k) is Some)
        && (output_at(t, k) is Some) == (output_at(s, k) is Some)
        && (gate_at(t, k) is Some ==> gate_at(t, k)->Some_0.ins == gate_at(s, k)->Some_0.ins
            && gate_at(t, k)->Some_0.outs == gate_at(s, k)->Some_0.outs)
        && (wire_at(t, k) is Some ==> wire_at(t, k)->Some_0.source_id == wire_at(s, k)->Some_0.source_id
            && wire_at(t, k)->Some_0.dest == wire_at(s, k)->Some_0.dest
            && wire_at(t, k)->Some_0.connected == wire_at(s, k)->Some_0.connected)
        && (input_at(t, k) is Some ==> input_at(t, k)->Some_0.source_wire_id == input_at(s, k)->Some_0.source_wire_id)
        && (output_at(t, k) is Some ==> output_at(t, k)->Some_0.out_wire_ids == output_at(s, k)->Some_0.out_wire_ids
            && output_at(t, k)->Some_0.parent_id == output_at(s, k)->Some_0.parent_id) by {
        assert(same_shape(s[k], t[k]));
    }
    assert forall|k: int| #[trigger] gate_at(t, k) is Some implies crate::arena::gate_ok(t, k, gate_at(t, k)->Some_0) by {
        let g = gate_at(s, k)->Some_0;
        assert(gate_at(s, k) is Some);
        assert forall|j: int| 0 <= j < g.ins@.len() implies (#[trigger] input_at(t, g.ins@[j] as int)) is Some && input_at(t, g.ins@[j] as int)->Some_0.parent_id == Some(k as usize) by {
            assert(input_at(s, g.ins@[j] as int) is Some);
        }
        assert forall|j: int| 0 <= j < g.outs@.len() implies (#[trigger] output_at(t, g.outs@[j] as int)) is Some
            && output_at(t, g.outs@[j] as int)->Some_0.parent_id == Some(k as usize) by {
            assert(output_at(s, g.outs@[j] as int) is Some);
        }
    }
    assert forall|k: int| #[trigger] wire_at(t, k) is Some implies crate::arena::wire_ok(t, k, wire_at(t, k)->Some_0) by {
        let w = wire_at(s, k)->Some_0;
        assert(wire_at(s, k) is Some);
        assert(output_at(s, w.source_id as int) is Some);
        if w.dest is Some {
            assert(input_at(s, w.dest->Some_0 as int) is Some);
        }
    }
    assert forall|k: int| #[trigger] input_at(t, k) is Some implies crate::arena::input_ok(t, k, input_at(t, k)->Some_0) by {
        let i = input_at(s, k)->Some_0;
        assert(input_at(s, k) is Some);
        if i.source_wire_id is Some {
            assert(wire_at(s, i.source_wire_id->Some_0 as int) is Some);
        }
    }
    assert forall|k: int| #[trigger] output_at(t, k) is Some implies crate::arena::output_ok(t, k, output_at(t, k)->Some_0) by {
        let o = output_at(s, k)->Some_0;
        assert(output_at(s, k) is Some);
        assert forall|j: int| 0 <= j < o.out_wire_ids@.len() implies (#[trigger] wire_at(t, o.out_wire_ids@[j] as int)) is Some
            && wire_at(t, o.out_wire_ids@[j] as int)->Some_0.source_id == k by {
            assert(wire_at(s, o.out_wire_ids@[j] as int) is Some);
        }
    }
    if h is Some {
        assert(wire_at(s, h->Some_0 as int) is Some);
    }
}

/// `driven(s, o)` for outputs whose parent gate comes before `k`.
pub open spec fn driven_upto(s: Seq<Option<Logical>>, o: int, k: int) -> Option<bool> {
    match output_at(s, o) {
        Some(out) => match out.parent_id {
            Some(p) => if p < k {
                driven(s, o)
            } else {
                None
            },
            None => None,
        },
        None => None,
    }
}

/// The signal recorded for input port `i` during the wire phase: that of
/// its source wire, when the wire's source output is driven.
pub open spec fn feed_of(s: Seq<Option<Logical>>, i: int) -> Option<bool> {
    match input_at(s, i) {
        Some(inp) => match inp.source_wire_id {
            Some(w) => match wire_at(s, w as int) {
                Some(wr) => driven(s, wr.source_id as int),
                None => None,
            },
            None => None,
        },
        None => None,
    }
}

/// `feed_of(s, i)` for inputs whose source wire comes before `k`.
pub open spec fn feed_upto(s: Seq<Option<Logical>>, i: int, k: int) -> Option<bool> {
    match input_at(s, i) {
        Some(inp) => match inp.source_wire_id {
            Some(w) => if w < k {
                feed_of(s, i)
            } else {
                None
            },
            None => None,
        },
        None => None,
    }
}

/// The signals a gate reads from a snapshot of the input ports.
fn gate_input_values(g: &Gate, input_states: &Vec<bool>) -> (r: Vec<bool>)
    ensures
        r@ == g.ins@.map_values(
            |i: usize|
                if i < input_states@.len() {
                    input_states@[i as int]
                } else {
                    false
                },
        ),
{
    let mut r: Vec<bool> = Vec::new();
    let mut j: usize = 0;
    while j < g.ins.len()
        invariant
            j <= g.ins@.len(),
            r@ == g.ins@.subrange(0, j as int).map_values(
                |i: usize|
                    if i < input_states@.len() {
                        input_states@[i as int]
                    } else {
                        false
                    },
            ),
        decreases g.ins@.len() - j,
    {
        let id = g.ins[j];
        let v = if id < input_states.len() {
            input_states[id]
        } else {
            false
        };
        r.push(v);
        j = j + 1;
        assert(r@ =~= g.ins@.subrange(0, j as int).map_values(
            |i: usize|
                if i < input_states@.len() {
                    input_states@[i as int]
                } else {
                    false
                },
        ));
    }
    assert(g.ins@.subrange(0, j as int) =~= g.ins@);
    r
}

impl Data {
    /// First phase: the signal of every input port, indexed by id.
    fn collect_input_states(&self) -> (r: Vec<bool>)
        ensures
            r@.len() == self.live_data@.len(),
            forall|k: int| 0 <= k < r@.len() ==> r@[k] == input_signal(self.live_data@, k),
    {
        let mut r: Vec<bool> = Vec::new();
        let n = self.live_data.len();
        let mut k: usize = 0;
        while k < n
            invariant
                n == self.live_data@.len(),
                k <= n,
                r@.len() == k,
                forall|j: int| 0 <= j < k ==> r@[j] == input_signal(self.live_data@, j),
            decreases n - k,
        {
            let v = match &self.live_data[k] {
                Some(Logical::Input(i)) => i.signal,
                _ => false,
            };
            r.push(v);
            k = k + 1;
        }
        r
    }

    /// Second phase: evaluates every gate on the snapshot, updating gate
    /// states, and returns the signal each output port is driven with.
    fn process_gates(&mut self, input_states: &Vec<bool>) -> (drive: Vec<Option<bool>>)
        requires
            arena_ok(old(self).live_data@),
            input_states@.len() == old(self).live_data@.len(),
            forall|k: int|
                0 <= k < input_states@.len() ==> input_states@[k] == input_signal(old(self).live_data@, k),
        ensures
            final(self).live_data@.len() == old(self).live_data@.len(),
            final(self).holding_wire == old(self).holding_wire,
            forall|k: int|
                0 <= k < old(self).live_data@.len() ==> final(self).live_data@[k] == gates_done(
                    old(self).live_data@,
                    k,
                ),
            drive@.len() == old(self).live_data@.len(),
            forall|k: int| 0 <= k < drive@.len() ==> drive@[k] == driven(old(self).live_data@, k),
    {
        let ghost s = self.live_data@;
        let n = self.live_data.len();
        let mut drive: Vec<Option<bool>> = Vec::new();
        let mut k: usize = 0;
        while k < n
            invariant
                k <= n,
                drive@.len() == k,
                forall|j: int| 0 <= j < k ==> drive@[j] is None,
            decreases n - k,
        {
            drive.push(None);
            k = k + 1;
        }
        k = 0;
        while k < n
            invariant
                n == s.len(),
                k <= n,
                arena_ok(s),
                self.live_data@.len() == n,
                self.holding_wire == old(self).holding_wire,
                s == old(self).live_data@,
                input_states@.len() == n,
                forall|j: int| 0 <= j < n ==> input_states@[j] == input_signal(s, j),
                forall|j: int| 0 <= j < k ==> self.live_data@[j] == gates_done(s, j),
                forall|j: int| k <= j < n ==> self.live_data@[j] == s[j],
                drive@.len() == n,
                forall|o: int| 0 <= o < n ==> drive@[o] == driven_upto(s, o, k as int),
            decreases n - k,
        {
            let ins = match &self.live_data[k] {
                Some(Logical::Gate(g)) => gate_input_values(g, input_states),
                _ => Vec::new(),
            };
            let mut outcome: Option<(usize, bool)> = None;
            match &mut self.live_data[k] {
                Some(Logical::Gate(g)) => {
                    proof {
                        assert(ins@ =~= gate_inputs(s, *g));
                    }
                    match g.tick(&ins) {
                        Ok(Some(p)) => {
                            outcome = Some(p);
                        },
                        _ => {},
                    }
                },
                _ => {},
            }
            match outcome {
                Some((o, v)) => {
                    if o < n {
                        drive.set(o, Some(v));
                    }
                },
                None => {},
            }
            proof {
                assert forall|o: int| 0 <= o < n implies drive@[o] == driven_upto(s, o, k + 1) by {
                    if output_at(s, o) is Some && output_at(s, o)->Some_0.parent_id == Some(k) {
                        match gate_at(s, k as int) {
                            Some(g) => {
                                assert(crate::arena::gate_ok(s, k as int, g));
                                if g.outs@.len() > 0 {
                                    assert(output_at(s, g.outs@[0] as int) is Some);
                                }
                            },
                            None => {},
                        }
                    }
                }
            }
            k = k + 1;
        }
        drive
    }

    /// Third phase: writes each driven signal to its output port and to the
    /// wires that output drives, and returns the signal recorded for each
    /// input at the end of such a wire. Every wire is listed by its source
    /// output, so going through the wires by id reaches the same wires as
    /// going through each output's wire list.
    fn update_outputs_and_wires(&mut self, drive: &Vec<Option<bool>>, Ghost(s): Ghost<Seq<Option<Logical>>>) -> (feed: Vec<Option<bool>>)
        requires
            arena_ok(s),
            old(self).live_data@.len() == s.len(),
            forall|k: int| 0 <= k < s.len() ==> old(self).live_data@[k] == gates_done(s, k),
            drive@.len() == s.len(),
            forall|k: int| 0 <= k < s.len() ==> drive@[k] == driven(s, k),
        ensures
            final(self).live_data@.len() == s.len(),
            final(self).holding_wire == old(self).holding_wire,
            forall|k: int| 0 <= k < s.len() ==> final(self).live_data@[k] == signals_done(s, k),
            feed@.len() == s.len(),
            forall|i: int| 0 <= i < s.len() ==> feed@[i] == feed_of(s, i),
    {
        let n = self.live_data.len();
        let mut k: usize = 0;
        while k < n
            invariant
                n == s.len(),
                k <= n,
                self.live_data@.len() == n,
                self.holding_wire == old(self).holding_wire,
                drive@.len() == n,
                forall|j: int| 0 <= j < n ==> drive@[j] == driven(s, j),
                forall|j: int|
                    0 <= j < k ==> self.live_data@[j] == (match s[j] {
                        Some(Logical::Output(_)) => signals_done(s, j),
                        _ => gates_done(s, j),
                    }),
                forall|j: int| k <= j < n ==> self.live_data@[j] == gates_done(s, j),
            decreases n - k,
        {
            match drive[k] {
                Some(v) => {
                    match &mut self.live_data[k] {
                        Some(Logical::Output(o)) => {
                            o.signal = v;
                        },
                        _ => {},
                    }
                },
                None => {},
            }
            k = k + 1;
        }
        let mut feed: Vec<Option<bool>> = Vec::new();
        k = 0;
        while k < n
            invariant
                k <= n,
                feed@.len() == k,
                forall|j: int| 0 <= j < k ==> feed@[j] is None,
            decreases n - k,
        {
            feed.push(None);
            k = k + 1;
        }
        k = 0;
        while k < n
            invariant
                n == s.len(),
                k <= n,
                arena_ok(s),
                self.live_data@.len() == n,
                self.holding_wire == old(self).holding_wire,
                drive@.len() == n,
                forall|j: int| 0 <= j < n ==> drive@[j] == driven(s, j),
                forall|j: int| 0 <= j < k ==> self.live_data@[j] == signals_done(s, j),
                forall|j: int|
                    k <= j < n ==> self.live_data@[j] == (match s[j] {
                        Some(Logical::Output(_)) => signals_done(s, j),
                        _ => gates_done(s, j),
                    }),
                feed@.len() == n,
                forall|i: int| 0 <= i < n ==> feed@[i] == feed_upto(s, i, k as int),
            decreases n - k,
        {
            let mut record: Option<(usize, bool)> = None;
            match &mut self.live_data[k] {
                Some(Logical::Wire(w)) => {
                    if w.source_id < n {
                        match drive[w.source_id] {
                            Some(v) => {
                                w.signal = v;
                                match w.dest {
                                    Some(i) => {
                                        record = Some((i, v));
                                    },
                                    None => {},
                                }
                            },
                            None => {},
                        }
                    }
                },
                _ => {},
            }
            match record {
                Some((i, v)) => {
                    if i < n {
                        feed.set(i, Some(v));
                    }
                },
                None => {},
            }
            proof {
                assert forall|i: int| 0 <= i < n implies feed@[i] == feed_upto(s, i, k + 1) by {
                    match input_at(s, i) {
                        Some(inp) => {
                            assert(crate::arena::input_ok(s, i, inp));
                        },
                        None => {},
                    }
                    match wire_at(s, k as int) {
                        Some(w) => {
                            assert(crate::arena::wire_ok(s, k as int, w));
                        },
                        None => {},
                    }
                }
            }
            k = k + 1;
        }
        feed
    }

    /// Fourth phase: every input port takes the signal recorded for it, or
    /// goes low when none was recorded.
    fn apply_wire_signals_to_inputs(&mut self, feed: &Vec<Option<bool>>, Ghost(s): Ghost<Seq<Option<Logical>>>)
        requires
            old(self).live_data@.len() == s.len(),
            forall|k: int| 0 <= k < s.len() ==> old(self).live_data@[k] == signals_done(s, k),
            feed@.len() == s.len(),
            forall|i: int| 0 <= i < s.len() ==> feed@[i] == feed_of(s, i),
        ensures
            final(self).holding_wire == old(self).holding_wire,
            final(self).live_data@ == step(s),
    {
        let n = self.live_data.len();
        let mut k: usize = 0;
        while k < n
            invariant
                n == s.len(),
                k <= n,
                self.live_data@.len() == n,
                self.holding_wire == old(self).holding_wire,
                feed@.len() == n,
                forall|i: int| 0 <= i < n ==> feed@[i] == feed_of(s, i),
                forall|j: int| 0 <= j < k ==> self.live_data@[j] == step_elem(s, j),
                forall|j: int| k <= j < n ==> self.live_data@[j] == signals_done(s, j),
            decreases n - k,
        {
            let v = match feed[k] {
                Some(v) => v,
                None => false,
            };
            match &mut self.live_data[k] {
                Some(Logical::Input(i)) => {
                    i.signal = v;
                },
                _ => {},
            }
            proof {
                match s[k as int] {
                    Some(Logical::Input(i)) => {
                        assert(input_at(s, k as int) == Some(i));
                        assert(feed@[k as int] == feed_of(s, k as int));
                        assert(v == fed(s, i));
                    },
                    _ => {},
                }
            }
            k = k + 1;
        }
        assert(self.live_data@ =~= step(s));
    }

    /// Advances the circuit by one evaluation cycle: snapshot the inputs,
    /// evaluate every gate, drive outputs and wires, then set every input
    /// from its wire (low when nothing drives it). Feedback through a loop
    /// is seen one cycle later.
    pub fn update_logicals(&mut self)
        requires
            old(self).wf(),
        ensures
            final(self).wf(),
            final(self).holding_wire == old(self).holding_wire,
            final(self).live_data@ == step(old(self).live_data@),
    {
        let ghost s = self.live_data@;
        let input_states = self.collect_input_states();
        let drive = self.process_gates(&input_states);
        let feed = self.update_outputs_and_wires(&drive, Ghost(s));
        self.apply_wire_signals_to_inputs(&feed, Ghost(s));
        proof {
            lemma_step_shape(s, self.holding_wire);
        }
    }
}

/// An evaluation cycle keeps the invariant.
pub proof fn lemma_step_shape(s: Seq<Option<Logical>>, h: Option<usize>)
    requires
        arena_ok(s),
        holding_ok(s, h),
    ensures
        arena_ok(step(s)),
        holding_ok(step(s), h),
{
    assert forall|k: int| 0 <= k < s.len() implies same_shape(#[trigger] s[k], step(s)[k]) by {}
    lemma_same_shape(s, step(s), h);
}


} // verus!
