use vstd::prelude::*;

use crate::arena::{arena_ok, gate_at, holding_ok, input_at, input_ok, output_at, output_ok, wire_at, wire_ok, gate_ok, Data};
use crate::element::{elem_id, gate_clicked, GridVec2, Input, Logical, Output, Wire, WireLine};
use crate::engine::{lemma_same_shape, same_shape};
use crate::primitive::SimError;

verus! {

/// A user gesture, naming the element it landed on, where it landed, and
/// whether it was a primary (true) or secondary (false) click.
#[derive(Clone, Copy, Debug, PartialEq, Eq, Structural)]
pub enum UiEvent {
    ClickedGate(usize, GridVec2, bool),
    ClickedWire(usize, GridVec2, bool),
    ClickedIO(usize, GridVec2, bool),
}

/// The arena after a click on element `g`: a gate's click effect, nothing
/// for anything else.
pub open spec fn click_gate(s: Seq<Option<Logical>>, g: int) -> Seq<Option<Logical>> {
    match gate_at(s, g) {
        Some(gt) => s.update(g, Some(Logical::Gate(gate_clicked(gt)))),
        None => s,
    }
}

/// `t` is `s` with held wire `w` bound to input `i`.
pub open spec fn wire_bound(s: Seq<Option<Logical>>, t: Seq<Option<Logical>>, w: int, i: int) -> bool {
    let wr = wire_at(s, w)->Some_0;
    let inp = input_at(s, i)->Some_0;
    t == s.update(w, Some(Logical::Wire(Wire { dest: Some(i as usize), connected: true, ..wr }))).update(
        i,
        Some(Logical::Input(Input { source_wire_id: Some(w as usize), ..inp })),
    )
}

/// `t` is `s` with wire `w` lifted off input `i`.
pub open spec fn wire_detached(s: Seq<Option<Logical>>, t: Seq<Option<Logical>>, w: int, i: int) -> bool {
    let wr = wire_at(s, w)->Some_0;
    let inp = input_at(s, i)->Some_0;
    t == s.update(w, Some(Logical::Wire(Wire { dest: None, connected: false, ..wr }))).update(
        i,
        Some(Logical::Input(Input { source_wire_id: None, ..inp })),
    )
}

/// Holds of the ids other than `x`.
pub open spec fn other_than(x: usize) -> spec_fn(usize) -> bool {
    |y: usize| y != x
}

/// `l` with every occurrence of `x` taken out.
pub open spec fn without(l: Seq<usize>, x: usize) -> Seq<usize> {
    l.filter(other_than(x))
}

/// `t` is `s` with a new held wire from output `o`: the wire takes the next
/// id, starts and ends at `pos`, and `o` lists it last.
pub open spec fn wire_started(s: Seq<Option<Logical>>, t: Seq<Option<Logical>>, o: int, pos: GridVec2) -> bool {
    let n = s.len();
    let out = output_at(s, o)->Some_0;
    &&& t.len() == n + 1
    &&& t[n as int] == Some(
        Logical::Wire(
            Wire {
                id: n as usize,
                signal: false,
                source_id: o as usize,
                dest: None,
                connected: false,
                line: WireLine { p1: pos, p2: pos, smoothing: false },
            },
        ),
    )
    &&& output_at(t, o) is Some
    &&& output_at(t, o)->Some_0 == Output { out_wire_ids: output_at(t, o)->Some_0.out_wire_ids, ..out }
    &&& output_at(t, o)->Some_0.out_wire_ids@ == out.out_wire_ids@.push(n as usize)
    &&& forall|k: int| 0 <= k < n && k != o ==> #[trigger] t[k] == s[k]
}

/// `t` is `s` with held wire `w` moved from its source output to output
/// `o`: the old source stops listing it, then `o` lists it last.
pub open spec fn wire_reanchored(s: Seq<Option<Logical>>, t: Seq<Option<Logical>>, w: int, o: int) -> bool {
    let wr = wire_at(s, w)->Some_0;
    let src = wr.source_id as int;
    let old_src = output_at(s, src)->Some_0;
    let old_o = output_at(s, o)->Some_0;
    &&& t.len() == s.len()
    &&& t[w] == Some(Logical::Wire(Wire { source_id: o as usize, ..wr }))
    &&& output_at(t, src) is Some
    &&& output_at(t, o) is Some
    &&& output_at(t, src)->Some_0 == Output { out_wire_ids: output_at(t, src)->Some_0.out_wire_ids, ..old_src }
    &&& output_at(t, o)->Some_0 == Output { out_wire_ids: output_at(t, o)->Some_0.out_wire_ids, ..old_o }
    &&& if src == o {
        output_at(t, o)->Some_0.out_wire_ids@ == without(old_o.out_wire_ids@, w as usize).push(w as usize)
    } else {
        &&& output_at(t, src)->Some_0.out_wire_ids@ == without(old_src.out_wire_ids@, w as usize)
        &&& output_at(t, o)->Some_0.out_wire_ids@ == old_o.out_wire_ids@.push(w as usize)
    }
    &&& forall|k: int| 0 <= k < s.len() && k != w && k != src && k != o ==> #[trigger] t[k] == s[k]
}

/// `t` is `s` with wire `w` removed: from the arena, from its source
/// output's list, and from its destination input, if it has one.
pub open spec fn wire_deleted(s: Seq<Option<Logical>>, t: Seq<Option<Logical>>, w: int) -> bool {
    let wr = wire_at(s, w)->Some_0;
    let src = wr.source_id as int;
    let old_src = output_at(s, src)->Some_0;
    &&& t.len() == s.len()
    &&& t[w] is None
    &&& output_at(t, src) is Some
    &&& output_at(t, src)->Some_0 == Output { out_wire_ids: output_at(t, src)->Some_0.out_wire_ids, ..old_src }
    &&& output_at(t, src)->Some_0.out_wire_ids@ == without(old_src.out_wire_ids@, w as usize)
    &&& match wr.dest {
        Some(i) => t[i as int] == Some(
            Logical::Input(Input { source_wire_id: None, ..input_at(s, i as int)->Some_0 }),
        ),
        None => true,
    }
    &&& forall|k: int|
        0 <= k < s.len() && k != w && k != src && wr.dest != Some(k as usize) ==> #[trigger] t[k] == s[k]
}

/// Which side of a port a clicked element is.
#[derive(Clone, Copy, PartialEq, Eq, Structural)]
enum Port {
    In,
    Out,
    NotAPort,
}

/// Whether `id` names no element of the arena.
pub open spec fn missing(s: Seq<Option<Logical>>, id: int) -> bool {
    !(0 <= id < s.len() && s[id] is Some)
}

/// What handling event `ev` does to arena `s` and held wire `h`, giving
/// arena `t`, held wire `h2` and the diagnostic result `r`. Every rejected
/// event leaves the arena and the held wire as they were.
pub open spec fn event_outcome(
    s: Seq<Option<Logical>>,
    h: Option<usize>,
    ev: UiEvent,
    t: Seq<Option<Logical>>,
    h2: Option<usize>,
    r: Result<(), SimError>,
) -> bool {
    let unchanged = t == s && h2 == h;
    match ev {
        UiEvent::ClickedGate(id, _, true) => if missing(s, id as int) {
            unchanged && r == Err::<(), SimError>(SimError::MissingElement)
        } else if gate_at(s, id as int) is Some {
            t == click_gate(s, id as int) && h2 == h && r is Ok
        } else {
            unchanged && r == Err::<(), SimError>(SimError::InvalidOperation)
        },
        UiEvent::ClickedGate(_, _, false) | UiEvent::ClickedWire(_, _, _) => unchanged && r is Ok,
        UiEvent::ClickedIO(id, pos, true) => if missing(s, id as int) {
            unchanged && r == Err::<(), SimError>(SimError::MissingElement)
        } else if input_at(s, id as int) is Some {
            if h is None {
                unchanged && r == Err::<(), SimError>(SimError::InvalidOperation)
            } else if input_at(s, id as int)->Some_0.source_wire_id is Some {
                unchanged && r == Err::<(), SimError>(SimError::ConstraintViolation)
            } else {
                wire_bound(s, t, h->Some_0 as int, id as int) && h2 is None && r is Ok
            }
        } else if output_at(s, id as int) is Some {
            if h is None {
                wire_started(s, t, id as int, pos) && h2 == Some(s.len() as usize) && r is Ok
            } else {
                wire_reanchored(s, t, h->Some_0 as int, id as int) && h2 == h && r is Ok
            }
        } else {
            unchanged && r == Err::<(), SimError>(SimError::InvalidOperation)
        },
        UiEvent::ClickedIO(id, _, false) => if missing(s, id as int) {
            unchanged && r == Err::<(), SimError>(SimError::MissingElement)
        } else if input_at(s, id as int) is Some && h is None && input_at(
            s,
            id as int,
        )->Some_0.source_wire_id is Some {
            let w = input_at(s, id as int)->Some_0.source_wire_id;
            wire_detached(s, t, w->Some_0 as int, id as int) && h2 == w && r is Ok
        } else if output_at(s, id as int) is Some && h is Some && wire_at(s, h->Some_0 as int)->Some_0.source_id
            == id {
            wire_deleted(s, t, h->Some_0 as int) && h2 is None && r is Ok
        } else {
            unchanged && r == Err::<(), SimError>(SimError::InvalidOperation)
        },
    }
}

/// Takes every occurrence of `x` out of `v`, keeping the order of the rest.
fn remove_id(v: &mut Vec<usize>, x: usize)
    ensures
        final(v)@ == without(old(v)@, x),
{
    let mut r: Vec<usize> = Vec::new();
    let mut j: usize = 0;
    while j < v.len()
        invariant
            j <= v@.len(),
            r@ == without(v@.subrange(0, j as int), x),
        decreases v@.len() - j,
    {
        if v[j] != x {
            r.push(v[j]);
        }
        j = j + 1;
        let ghost sub = v@.subrange(0, j as int);
        proof {
            reveal(Seq::filter);
        }
        assert(sub.drop_last() =~= v@.subrange(0, j as int - 1));
        assert(sub.last() == v@[j - 1]);
        assert(without(sub, x) == (if v@[j - 1] != x {
            without(sub.drop_last(), x).push(sub.last())
        } else {
            without(sub.drop_last(), x)
        }));
    }
    assert(v@.subrange(0, j as int) =~= v@);
    *v = r;
}

impl Wire {
    /// A new wire from output `output_id`, with no destination, drawn as a
    /// point at `position`.
    pub fn from_io(output_id: usize, position: GridVec2, id: usize) -> (r: Wire)
        ensures
            r == (Wire {
                id,
                signal: false,
                source_id: output_id,
                dest: None,
                connected: false,
                line: WireLine { p1: position, p2: position, smoothing: false },
            }),
    {
        Wire {
            id,
            signal: false,
            source_id: output_id,
            dest: None,
            connected: false,
            line: WireLine::new(position, position, false),
        }
    }
}

impl Data {
    /// Applies a click to element `id`: TOGGLE and PULSE gates flip their
    /// state; anything else is left alone.
    pub fn click_gate(&mut self, id: usize)
        requires
            old(self).wf(),
        ensures
            final(self).wf(),
            final(self).holding_wire == old(self).holding_wire,
            final(self).live_data@ == click_gate(old(self).live_data@, id as int),
    {
        let ghost s = self.live_data@;
        if id < self.live_data.len() {
            match &mut self.live_data[id] {
                Some(Logical::Gate(g)) => {
                    g.click_on();
                },
                _ => {},
            }
        }
        proof {
            assert(self.live_data@ =~= click_gate(s, id as int));
            assert forall|k: int| 0 <= k < s.len() implies same_shape(#[trigger] s[k], self.live_data@[k]) by {}
            lemma_same_shape(s, self.live_data@, self.holding_wire);
        }
    }

    /// Binds the held wire to input `i`, which has no wire yet.
    fn bind_wire(&mut self, i: usize)
        requires
            old(self).wf(),
            old(self).holding_wire is Some,
            input_at(old(self).live_data@, i as int) is Some,
            input_at(old(self).live_data@, i as int)->Some_0.source_wire_id is None,
        ensures
            final(self).wf(),
            final(self).holding_wire is None,
            wire_bound(old(self).live_data@, final(self).live_data@, old(self).holding_wire->Some_0 as int, i as int),
    {
        let ghost s = self.live_data@;
        let w = match self.holding_wire {
            Some(w) => w,
            None => 0,
        };
        match &mut self.live_data[w] {
            Some(Logical::Wire(wr)) => {
                wr.dest = Some(i);
                wr.connected = true;
            },
            _ => {},
        }
        match &mut self.live_data[i] {
            Some(Logical::Input(inp)) => {
                inp.source_wire_id = Some(w);
            },
            _ => {},
        }
        self.holding_wire = None;
        proof {
            lemma_bind_ok(s, self.live_data@, w as int, i as int);
        }
    }

    /// Lifts the wire off input `i` and holds it.
    fn detach_wire(&mut self, i: usize)
        requires
            old(self).wf(),
            old(self).holding_wire is None,
            input_at(old(self).live_data@, i as int) is Some,
            input_at(old(self).live_data@, i as int)->Some_0.source_wire_id is Some,
        ensures
            final(self).wf(),
            final(self).holding_wire == input_at(old(self).live_data@, i as int)->Some_0.source_wire_id,
            wire_detached(
                old(self).live_data@,
                final(self).live_data@,
                final(self).holding_wire->Some_0 as int,
                i as int,
            ),
    {
        let ghost s = self.live_data@;
        let w = match &self.live_data[i] {
            Some(Logical::Input(inp)) => match inp.source_wire_id {
                Some(w) => w,
                None => 0,
            },
            _ => 0,
        };
        proof {
            assert(input_ok(s, i as int, input_at(s, i as int)->Some_0));
        }
        match &mut self.live_data[w] {
            Some(Logical::Wire(wr)) => {
                wr.dest = None;
                wr.connected = false;
            },
            _ => {},
        }
        match &mut self.live_data[i] {
            Some(Logical::Input(inp)) => {
                inp.source_wire_id = None;
            },
            _ => {},
        }
        self.holding_wire = Some(w);
        proof {
            lemma_detach_ok(s, self.live_data@, w as int, i as int);
        }
    }
    /// Starts a new wire at output `o` and holds it.
    fn start_wire(&mut self, o: usize, pos: GridVec2)
        requires
            old(self).wf(),
            old(self).holding_wire is None,
            output_at(old(self).live_data@, o as int) is Some,
            old(self).live_data@.len() < usize::MAX,
        ensures
            final(self).wf(),
            final(self).holding_wire == Some(old(self).live_data@.len() as usize),
            wire_started(old(self).live_data@, final(self).live_data@, o as int, pos),
    {
        let ghost s = self.live_data@;
        let n = self.live_data.len();
        match &mut self.live_data[o] {
            Some(Logical::Output(out)) => {
                out.out_wire_ids.push(n);
            },
            _ => {},
        }
        self.live_data.push(Some(Logical::Wire(Wire::from_io(o, pos, n))));
        self.holding_wire = Some(n);
        proof {
            lemma_start_ok(s, self.live_data@, o as int, pos);
        }
    }

    /// Moves the held wire's source to output `o`.
    fn reanchor_wire(&mut self, o: usize)
        requires
            old(self).wf(),
            old(self).holding_wire is Some,
            output_at(old(self).live_data@, o as int) is Some,
        ensures
            final(self).wf(),
            final(self).holding_wire == old(self).holding_wire,
            wire_reanchored(old(self).live_data@, final(self).live_data@, old(self).holding_wire->Some_0 as int, o as int),
    {
        let ghost s = self.live_data@;
        let w = match self.holding_wire {
            Some(w) => w,
            None => 0,
        };
        proof {
            assert(wire_ok(s, w as int, wire_at(s, w as int)->Some_0));
        }
        let src = match &self.live_data[w] {
            Some(Logical::Wire(wr)) => wr.source_id,
            _ => 0,
        };
        match &mut self.live_data[src] {
            Some(Logical::Output(out)) => {
                remove_id(&mut out.out_wire_ids, w);
            },
            _ => {},
        }
        match &mut self.live_data[w] {
            Some(Logical::Wire(wr)) => {
                wr.source_id = o;
            },
            _ => {},
        }
        match &mut self.live_data[o] {
            Some(Logical::Output(out)) => {
                out.out_wire_ids.push(w);
            },
            _ => {},
        }
        proof {
            lemma_reanchor_ok(s, self.live_data@, w as int, o as int);
        }
    }

    /// Removes wire `w` from the arena, together with the references its
    /// source output and its destination input hold to it. A held wire is
    /// dropped from the hand.
    pub fn remove_wire(&mut self, w: usize) -> (r: Result<(), SimError>)
        requires
            old(self).wf(),
        ensures
            final(self).wf(),
            missing(old(self).live_data@, w as int) ==> r == Err::<(), SimError>(SimError::MissingElement)
                && final(self).live_data@ == old(self).live_data@ && final(self).holding_wire
                == old(self).holding_wire,
            !missing(old(self).live_data@, w as int) && wire_at(old(self).live_data@, w as int) is None
                ==> r == Err::<(), SimError>(SimError::InvalidOperation) && final(self).live_data@
                == old(self).live_data@ && final(self).holding_wire == old(self).holding_wire,
            wire_at(old(self).live_data@, w as int) is Some ==> r is Ok && wire_deleted(
                old(self).live_data@,
                final(self).live_data@,
                w as int,
            ) && final(self).holding_wire == (if old(self).holding_wire == Some(w) {
                None
            } else {
                old(self).holding_wire
            }),
    {
        let ghost s = self.live_data@;
        if w >= self.live_data.len() {
            return Err(SimError::MissingElement);
        }
        let (src, dest) = match &self.live_data[w] {
            None => {
                return Err(SimError::MissingElement);
            },
            Some(Logical::Wire(wr)) => (wr.source_id, wr.dest),
            Some(_) => {
                return Err(SimError::InvalidOperation);
            },
        };
        proof {
            assert(wire_ok(s, w as int, wire_at(s, w as int)->Some_0));
        }
        match &mut self.live_data[src] {
            Some(Logical::Output(out)) => {
                remove_id(&mut out.out_wire_ids, w);
            },
            _ => {},
        }
        match dest {
            Some(i) => {
                match &mut self.live_data[i] {
                    Some(Logical::Input(inp)) => {
                        inp.source_wire_id = None;
                    },
                    _ => {},
                }
            },
            None => {},
        }
        self.live_data.set(w, None);
        if self.holding_wire == Some(w) {
            self.holding_wire = None;
        }
        proof {
            lemma_delete_ok(s, self.live_data@, w as int);
            match self.holding_wire {
                Some(h) => {
                    assert(wire_at(s, h as int) is Some);
                    assert(self.live_data@[h as int] == s[h as int]);
                },
                None => {},
            }
        }
        Ok(())
    }

    /// Handles one user gesture. Primary clicks on a TOGGLE or PULSE gate
    /// flip it; on an output they start a wire, or move the held wire there;
    /// on a free input they bind the held wire. Secondary clicks on a wired
    /// input pick its wire up; on the held wire's own source output they
    /// delete it. Anything else is rejected: nothing changes, and the result
    /// says why, for diagnostics only.
    pub fn apply_ui_event(&mut self, ev: UiEvent) -> (r: Result<(), SimError>)
        requires
            old(self).wf(),
            old(self).live_data@.len() < usize::MAX,
        ensures
            final(self).wf(),
            event_outcome(
                old(self).live_data@,
                old(self).holding_wire,
                ev,
                final(self).live_data@,
                final(self).holding_wire,
                r,
            ),
    {
        match ev {
            UiEvent::ClickedGate(id, _, primary) => {
                if !primary {
                    return Ok(());
                }
                if id >= self.live_data.len() {
                    return Err(SimError::MissingElement);
                }
                let is_gate = match &self.live_data[id] {
                    None => {
                        return Err(SimError::MissingElement);
                    },
                    Some(Logical::Gate(_)) => true,
                    Some(_) => false,
                };
                if !is_gate {
                    return Err(SimError::InvalidOperation);
                }
                self.click_gate(id);
                Ok(())
            },
            UiEvent::ClickedWire(_, _, _) => Ok(()),
            UiEvent::ClickedIO(id, pos, primary) => {
                if id >= self.live_data.len() {
                    return Err(SimError::MissingElement);
                }
                let (port, bound): (Port, Option<usize>) = match &self.live_data[id] {
                    None => {
                        return Err(SimError::MissingElement);
                    },
                    Some(Logical::Input(i)) => (Port::In, i.source_wire_id),
                    Some(Logical::Output(_)) => (Port::Out, None),
                    Some(_) => (Port::NotAPort, None),
                };
                if primary {
                    if port == Port::In {
                        if self.holding_wire.is_none() {
                            Err(SimError::InvalidOperation)
                        } else if bound.is_some() {
                            Err(SimError::ConstraintViolation)
                        } else {
                            self.bind_wire(id);
                            Ok(())
                        }
                    } else if port == Port::Out {
                        if self.holding_wire.is_none() {
                            self.start_wire(id, pos);
                        } else {
                            self.reanchor_wire(id);
                        }
                        Ok(())
                    } else {
                        Err(SimError::InvalidOperation)
                    }
                } else {
                    if port == Port::In && self.holding_wire.is_none() && bound.is_some() {
                        self.detach_wire(id);
                        Ok(())
                    } else if port == Port::Out {
                        match self.holding_wire {
                            Some(w) => {
                                let src = match &self.live_data[w] {
                                    Some(Logical::Wire(wr)) => wr.source_id,
                                    _ => id,
                                };
                                if src == id {
                                    self.remove_wire(w)
                                } else {
                                    Err(SimError::InvalidOperation)
                                }
                            },
                            None => Err(SimError::InvalidOperation),
                        }
                    } else {
                        Err(SimError::InvalidOperation)
                    }
                }
            },
        }
    }
    /// Handles queued gestures in order, as `apply_ui_event` does each one,
    /// and returns each one's result.
    pub fn apply_ui_events(&mut self, events: &Vec<UiEvent>) -> (r: Vec<Result<(), SimError>>)
        requires
            old(self).wf(),
            old(self).live_data@.len() + events@.len() < usize::MAX,
        ensures
            final(self).wf(),
            r@.len() == events@.len(),
            exists|states: Seq<(Seq<Option<Logical>>, Option<usize>)>|
                {
                    &&& states.len() == events@.len() + 1
                    &&& states[0] == (old(self).live_data@, old(self).holding_wire)
                    &&& states.last() == (final(self).live_data@, final(self).holding_wire)
                    &&& forall|i: int|
                        0 <= i < events@.len() ==> event_outcome(
                            #[trigger] states[i].0,
                            states[i].1,
                            events@[i],
                            states[i + 1].0,
                            states[i + 1].1,
                            r@[i],
                        )
                },
    {
        let mut r: Vec<Result<(), SimError>> = Vec::new();
        let ghost mut states: Seq<(Seq<Option<Logical>>, Option<usize>)> = seq![(self.live_data@, self.holding_wire)];
        let mut i: usize = 0;
        while i < events.len()
            invariant
                self.wf(),
                i <= events@.len(),
                self.live_data@.len() <= old(self).live_data@.len() + i,
                old(self).live_data@.len() + events@.len() < usize::MAX,
                r@.len() == i,
                states.len() == i + 1,
                states[0] == (old(self).live_data@, old(self).holding_wire),
                states.last() == (self.live_data@, self.holding_wire),
                forall|j: int|
                    0 <= j < i ==> event_outcome(
                        #[trigger] states[j].0,
                        states[j].1,
                        events@[j],
                        states[j + 1].0,
                        states[j + 1].1,
                        r@[j],
                    ),
            decreases events@.len() - i,
        {
            let ghost before = states;
            let res = self.apply_ui_event(events[i]);
            r.push(res);
            proof {
                states = states.push((self.live_data@, self.holding_wire));
                assert forall|j: int|
                    0 <= j < i + 1 implies event_outcome(
                        #[trigger] states[j].0,
                        states[j].1,
                        events@[j],
                        states[j + 1].0,
                        states[j + 1].1,
                        r@[j],
                    ) by {
                    if j < i {
                        assert(states[j] == before[j]);
                        assert(states[j + 1] == before[j + 1]);
                    }
                }
                if self.live_data@.len() > before.last().0.len() {
                    assert(self.live_data@.len() == before.last().0.len() + 1);
                }
            }
            i = i + 1;
        }
        r
    }
}

/// Binding a held wire to a free input keeps the invariant.
proof fn lemma_bind_ok(s: Seq<Option<Logical>>, t: Seq<Option<Logical>>, w: int, i: int)
    requires
        arena_ok(s),
        wire_at(s, w) is Some,
        wire_at(s, w)->Some_0.dest is None,
        input_at(s, i) is Some,
        input_at(s, i)->Some_0.source_wire_id is None,
        wire_bound(s, t, w, i),
    ensures
        arena_ok(t),
{
    assert forall|k: int| 0 <= k < t.len() && #[trigger] t[k] is Some implies elem_id(t[k]->Some_0) == k by {
        assert(s[k] is Some);
    }
    assert forall|k: int| #[trigger] gate_at(t, k) is Some implies gate_ok(t, k, gate_at(t, k)->Some_0) by {
        let g = gate_at(s, k)->Some_0;
        assert(gate_at(s, k) is Some);
        assert forall|j: int| 0 <= j < g.ins@.len() implies (#[trigger] input_at(t, g.ins@[j] as int)) is Some && input_at(t, g.ins@[j] as int)->Some_0.parent_id == Some(k as usize) by {
            assert(input_at(s, g.ins@[j] as int) is Some);
        }
        assert forall|j: int| 0 <= j < g.outs@.len() implies (#[trigger] output_at(t, g.outs@[j] as int)) is Some
            && output_at(t, g.outs@[j] as int)->Some_0.parent_id == Some(k as usize) by {
            assert(output_at(s, g.outs@[j] as int) is Some);
        }
    }
    assert forall|k: int| #[trigger] wire_at(t, k) is Some implies wire_ok(t, k, wire_at(t, k)->Some_0) by {
        let x = wire_at(s, k)->Some_0;
        assert(wire_at(s, k) is Some);
        assert(wire_ok(s, k, x));
        if x.dest is Some {
            assert(input_at(s, x.dest->Some_0 as int) is Some);
        }
    }
    assert forall|k: int| #[trigger] input_at(t, k) is Some implies input_ok(t, k, input_at(t, k)->Some_0) by {
        let x = input_at(s, k)->Some_0;
        assert(input_at(s, k) is Some);
        assert(input_ok(s, k, x));
        if x.source_wire_id is Some {
            assert(wire_at(s, x.source_wire_id->Some_0 as int) is Some);
        }
    }
    assert forall|k: int| #[trigger] output_at(t, k) is Some implies output_ok(t, k, output_at(t, k)->Some_0) by {
        let o = output_at(s, k)->Some_0;
        assert(output_at(s, k) is Some);
        assert forall|j: int| 0 <= j < o.out_wire_ids@.len() implies (#[trigger] wire_at(t, o.out_wire_ids@[j] as int)) is Some
            && wire_at(t, o.out_wire_ids@[j] as int)->Some_0.source_id == k by {
            assert(wire_at(s, o.out_wire_ids@[j] as int) is Some);
        }
    }
}

/// Lifting a wire off its input keeps the invariant.
proof fn lemma_detach_ok(s: Seq<Option<Logical>>, t: Seq<Option<Logical>>, w: int, i: int)
    requires
        arena_ok(s),
        wire_at(s, w) is Some,
        wire_at(s, w)->Some_0.dest == Some(i as usize),
        input_at(s, i) is Some,
        input_at(s, i)->Some_0.source_wire_id == Some(w as usize),
        wire_detached(s, t, w, i),
    ensures
        arena_ok(t),
        holding_ok(t, Some(w as usize)),
{
    assert forall|k: int| 0 <= k < t.len() && #[trigger] t[k] is Some implies elem_id(t[k]->Some_0) == k by {
        assert(s[k] is Some);
    }
    assert forall|k: int| #[trigger] gate_at(t, k) is Some implies gate_ok(t, k, gate_at(t, k)->Some_0) by {
        let g = gate_at(s, k)->Some_0;
        assert(gate_at(s, k) is Some);
        assert forall|j: int| 0 <= j < g.ins@.len() implies (#[trigger] input_at(t, g.ins@[j] as int)) is Some && input_at(t, g.ins@[j] as int)->Some_0.parent_id == Some(k as usize) by {
            assert(input_at(s, g.ins@[j] as int) is Some);
        }
        assert forall|j: int| 0 <= j < g.outs@.len() implies (#[trigger] output_at(t, g.outs@[j] as int)) is Some
            && output_at(t, g.outs@[j] as int)->Some_0.parent_id == Some(k as usize) by {
            assert(output_at(s, g.outs@[j] as int) is Some);
        }
    }
    assert forall|k: int| #[trigger] wire_at(t, k) is Some implies wire_ok(t, k, wire_at(t, k)->Some_0) by {
        let x = wire_at(s, k)->Some_0;
        assert(wire_at(s, k) is Some);
        assert(wire_ok(s, k, x));
        if x.dest is Some {
            assert(input_at(s, x.dest->Some_0 as int) is Some);
        }
    }
    assert forall|k: int| #[trigger] input_at(t, k) is Some implies input_ok(t, k, input_at(t, k)->Some_0) by {
        let x = input_at(s, k)->Some_0;
        assert(input_at(s, k) is Some);
        assert(input_ok(s, k, x));
        if x.source_wire_id is Some {
            assert(wire_at(s, x.source_wire_id->Some_0 as int) is Some);
        }
    }
    assert forall|k: int| #[trigger] output_at(t, k) is Some implies output_ok(t, k, output_at(t, k)->Some_0) by {
        let o = output_at(s, k)->Some_0;
        assert(output_at(s, k) is Some);
        assert forall|j: int| 0 <= j < o.out_wire_ids@.len() implies (#[trigger] wire_at(t, o.out_wire_ids@[j] as int)) is Some
            && wire_at(t, o.out_wire_ids@[j] as int)->Some_0.source_id == k by {
            assert(wire_at(s, o.out_wire_ids@[j] as int) is Some);
        }
    }
}

/// Starting a wire at an output keeps the invariant, and the new wire is
/// a valid held wire.
proof fn lemma_start_ok(s: Seq<Option<Logical>>, t: Seq<Option<Logical>>, o: int, pos: GridVec2)
    requires
        arena_ok(s),
        output_at(s, o) is Some,
        s.len() < usize::MAX,
        wire_started(s, t, o, pos),
    ensures
        arena_ok(t),
        holding_ok(t, Some(s.len() as usize)),
{
    let n = s.len() as int;
    assert forall|k: int| 0 <= k < t.len() && #[trigger] t[k] is Some implies elem_id(t[k]->Some_0) == k by {
        if k < n {
            assert(s[k] is Some);
        }
    }
    assert forall|k: int| #[trigger] gate_at(t, k) is Some implies gate_ok(t, k, gate_at(t, k)->Some_0) by {
        assert(k < n && k != o && t[k] == s[k]);
        let g = gate_at(s, k)->Some_0;
        assert(gate_at(s, k) is Some);
        assert forall|j: int| 0 <= j < g.ins@.len() implies (#[trigger] input_at(t, g.ins@[j] as int)) is Some && input_at(t, g.ins@[j] as int)->Some_0.parent_id == Some(k as usize) by {
            let x = g.ins@[j] as int;
            assert(input_at(s, x) is Some);
            assert(t[x] == s[x]);
        }
        assert forall|j: int| 0 <= j < g.outs@.len() implies (#[trigger] output_at(t, g.outs@[j] as int)) is Some
            && output_at(t, g.outs@[j] as int)->Some_0.parent_id == Some(k as usize) by {
            let y = g.outs@[j] as int;
            assert(output_at(s, y) is Some);
            if y != o {
                assert(t[y] == s[y]);
            }
        }
    }
    assert forall|k: int| #[trigger] wire_at(t, k) is Some implies wire_ok(t, k, wire_at(t, k)->Some_0) by {
        if k == n {
            assert(output_at(t, o)->Some_0.out_wire_ids@.last() == n as usize);
        } else {
            assert(k < n && k != o && t[k] == s[k]);
            let x = wire_at(s, k)->Some_0;
            assert(wire_at(s, k) is Some);
            assert(wire_ok(s, k, x));
            let src = x.source_id as int;
            if src == o {
                let l = output_at(s, o)->Some_0.out_wire_ids@;
                let jj = choose|jj: int| 0 <= jj < l.len() && l[jj] == k as usize;
                assert(output_at(t, o)->Some_0.out_wire_ids@[jj] == k as usize);
            } else {
                assert(t[src] == s[src]);
            }
            if x.dest is Some {
                let i = x.dest->Some_0 as int;
                assert(input_at(s, i) is Some);
                assert(t[i] == s[i]);
            }
        }
    }
    assert forall|k: int| #[trigger] input_at(t, k) is Some implies input_ok(t, k, input_at(t, k)->Some_0) by {
        assert(k < n && k != o && t[k] == s[k]);
        let x = input_at(s, k)->Some_0;
        assert(input_at(s, k) is Some);
        assert(input_ok(s, k, x));
        if x.source_wire_id is Some {
            let w = x.source_wire_id->Some_0 as int;
            assert(wire_at(s, w) is Some);
            assert(t[w] == s[w]);
        }
    }
    assert forall|k: int| #[trigger] output_at(t, k) is Some implies output_ok(t, k, output_at(t, k)->Some_0) by {
        assert(k < n);
        let x = output_at(s, k)->Some_0;
        assert(output_at(s, k) is Some);
        assert(output_ok(s, k, x));
        let l = output_at(t, k)->Some_0.out_wire_ids@;
        assert forall|j: int| 0 <= j < l.len() implies (#[trigger] wire_at(t, l[j] as int)) is Some
            && wire_at(t, l[j] as int)->Some_0.source_id == k by {
            if k == o && j == l.len() - 1 {
            } else {
                assert(l[j] == x.out_wire_ids@[j]);
                let y = l[j] as int;
                assert(wire_at(s, y) is Some);
                assert(t[y] == s[y]);
            }
        }
    }
}

/// Moving a held wire to another output keeps the invariant.
proof fn lemma_reanchor_ok(s: Seq<Option<Logical>>, t: Seq<Option<Logical>>, w: int, o: int)
    requires
        arena_ok(s),
        wire_at(s, w) is Some,
        wire_at(s, w)->Some_0.dest is None,
        output_at(s, o) is Some,
        wire_reanchored(s, t, w, o),
    ensures
        arena_ok(t),
        holding_ok(t, Some(w as usize)),
{
    let wr = wire_at(s, w)->Some_0;
    let src = wr.source_id as int;
    assert(wire_ok(s, w, wr));
    let pred = other_than(w as usize);
    assert forall|k: int| 0 <= k < t.len() && #[trigger] t[k] is Some implies elem_id(t[k]->Some_0) == k by {
        assert(s[k] is Some);
    }
    assert forall|k: int| #[trigger] gate_at(t, k) is Some implies gate_ok(t, k, gate_at(t, k)->Some_0) by {
        assert(t[k] == s[k]);
        let g = gate_at(s, k)->Some_0;
        assert(gate_at(s, k) is Some);
        assert forall|j: int| 0 <= j < g.ins@.len() implies (#[trigger] input_at(t, g.ins@[j] as int)) is Some && input_at(t, g.ins@[j] as int)->Some_0.parent_id == Some(k as usize) by {
            let x = g.ins@[j] as int;
            assert(input_at(s, x) is Some);
            assert(t[x] == s[x]);
        }
        assert forall|j: int| 0 <= j < g.outs@.len() implies (#[trigger] output_at(t, g.outs@[j] as int)) is Some
            && output_at(t, g.outs@[j] as int)->Some_0.parent_id == Some(k as usize) by {
            let y = g.outs@[j] as int;
            assert(output_at(s, y) is Some);
            if y != o && y != src {
                assert(t[y] == s[y]);
            }
        }
    }
    assert forall|k: int| #[trigger] wire_at(t, k) is Some implies wire_ok(t, k, wire_at(t, k)->Some_0) by {
        if k == w {
            assert(output_at(t, o)->Some_0.out_wire_ids@.last() == w as usize);
        } else {
            assert(t[k] == s[k]);
            let x = wire_at(s, k)->Some_0;
            assert(wire_at(s, k) is Some);
            assert(wire_ok(s, k, x));
            let xs = x.source_id as int;
            let l = output_at(s, xs)->Some_0.out_wire_ids@;
            let jj = choose|jj: int| 0 <= jj < l.len() && l[jj] == k as usize;
            if xs == src {
                l.lemma_filter_contains(pred, jj);
                let fl = without(l, w as usize);
                assert(fl.contains(k as usize));
                if xs == o {
                    let f2 = fl.push(w as usize);
                    let i2 = choose|i2: int| 0 <= i2 < fl.len() && fl[i2] == k as usize;
                    assert(f2[i2] == k as usize);
                }
            } else if xs == o {
                assert(output_at(t, o)->Some_0.out_wire_ids@[jj] == k as usize);
            } else {
                assert(t[xs] == s[xs]);
            }
            if x.dest is Some {
                let i = x.dest->Some_0 as int;
                assert(input_at(s, i) is Some);
                assert(t[i] == s[i]);
            }
        }
    }
    assert forall|k: int| #[trigger] input_at(t, k) is Some implies input_ok(t, k, input_at(t, k)->Some_0) by {
        assert(t[k] == s[k]);
        let x = input_at(s, k)->Some_0;
        assert(input_at(s, k) is Some);
        assert(input_ok(s, k, x));
        if x.source_wire_id is Some {
            let v = x.source_wire_id->Some_0 as int;
            assert(wire_at(s, v) is Some);
            if v != w {
                assert(t[v] == s[v]);
            }
        }
    }
    assert forall|k: int| #[trigger] output_at(t, k) is Some implies output_ok(t, k, output_at(t, k)->Some_0) by {
        let x = output_at(s, k)->Some_0;
        assert(output_at(s, k) is Some);
        assert(output_ok(s, k, x));
        let l = output_at(t, k)->Some_0.out_wire_ids@;
        let ol = x.out_wire_ids@;
        ol.filter_lemma(pred);
        assert forall|j: int| 0 <= j < l.len() implies (#[trigger] wire_at(t, l[j] as int)) is Some
            && wire_at(t, l[j] as int)->Some_0.source_id == k by {
            let y = l[j] as int;
            if k == o && j == l.len() - 1 {
            } else if k == src {
                let fl = without(ol, w as usize);
                assert(fl[j] == l[j]);
                assert(fl.contains(l[j]));
                ol.lemma_filter_contains_rev(pred, l[j]);
                let jj = choose|jj: int| 0 <= jj < ol.len() && ol[jj] == l[j];
                assert(wire_at(s, ol[jj] as int) is Some);
                assert(y != w);
                assert(t[y] == s[y]);
            } else if k == o {
                assert(l[j] == ol[j]);
                assert(wire_at(s, y) is Some);
                assert(wire_at(s, y)->Some_0.source_id == o);
                assert(y != w);
                assert(t[y] == s[y]);
            } else {
                assert(t[k] == s[k]);
                assert(wire_at(s, y) is Some);
                if y == w {
                    assert(false);
                }
                assert(t[y] == s[y]);
            }
        }
    }
}

/// Removing a wire keeps the invariant.
proof fn lemma_delete_ok(s: Seq<Option<Logical>>, t: Seq<Option<Logical>>, w: int)
    requires
        arena_ok(s),
        s.len() <= usize::MAX,
        wire_at(s, w) is Some,
        wire_deleted(s, t, w),
    ensures
        arena_ok(t),
{
    let wr = wire_at(s, w)->Some_0;
    let src = wr.source_id as int;
    assert(wire_ok(s, w, wr));
    let pred = other_than(w as usize);
    let d = wr.dest;
    if d is Some {
        assert(input_at(s, d->Some_0 as int) is Some);
    }
    assert forall|k: int| 0 <= k < t.len() && #[trigger] t[k] is Some implies elem_id(t[k]->Some_0) == k by {
        if d == Some(k as usize) {
            assert(input_at(s, k) is Some);
        } else if k == src {
            assert(output_at(s, k) is Some);
        } else {
            assert(t[k] == s[k]);
        }
        assert(s[k] is Some);
    }
    assert forall|k: int| #[trigger] gate_at(t, k) is Some implies gate_ok(t, k, gate_at(t, k)->Some_0) by {
        assert(d != Some(k as usize));
        assert(t[k] == s[k]);
        let g = gate_at(s, k)->Some_0;
        assert(gate_at(s, k) is Some);
        assert forall|j: int| 0 <= j < g.ins@.len() implies (#[trigger] input_at(t, g.ins@[j] as int)) is Some && input_at(t, g.ins@[j] as int)->Some_0.parent_id == Some(k as usize) by {
            let x = g.ins@[j] as int;
            assert(input_at(s, x) is Some);
            if d != Some(x as usize) {
                assert(t[x] == s[x]);
            }
        }
        assert forall|j: int| 0 <= j < g.outs@.len() implies (#[trigger] output_at(t, g.outs@[j] as int)) is Some
            && output_at(t, g.outs@[j] as int)->Some_0.parent_id == Some(k as usize) by {
            let y = g.outs@[j] as int;
            assert(output_at(s, y) is Some);
            if y != src {
                assert(t[y] == s[y]);
            }
        }
    }
    assert forall|k: int| #[trigger] wire_at(t, k) is Some implies wire_ok(t, k, wire_at(t, k)->Some_0) by {
        assert(k != w);
        assert(d != Some(k as usize));
        assert(t[k] == s[k]);
        let x = wire_at(s, k)->Some_0;
        assert(wire_at(s, k) is Some);
        assert(wire_ok(s, k, x));
        let xs = x.source_id as int;
        let l = output_at(s, xs)->Some_0.out_wire_ids@;
        let jj = choose|jj: int| 0 <= jj < l.len() && l[jj] == k as usize;
        if xs == src {
            l.lemma_filter_contains(pred, jj);
        } else {
            assert(t[xs] == s[xs]);
        }
        if x.dest is Some {
            let i = x.dest->Some_0 as int;
            assert(input_at(s, i) is Some);
            if d == Some(i as usize) {
                assert(input_ok(s, i, input_at(s, i)->Some_0));
                assert(false);
            }
            assert(t[i] == s[i]);
        }
    }
    assert forall|k: int| #[trigger] input_at(t, k) is Some implies input_ok(t, k, input_at(t, k)->Some_0) by {
        if d != Some(k as usize) {
            assert(t[k] == s[k]);
            let x = input_at(s, k)->Some_0;
            assert(input_at(s, k) is Some);
            assert(input_ok(s, k, x));
            if x.source_wire_id is Some {
                let v = x.source_wire_id->Some_0 as int;
                assert(wire_at(s, v) is Some);
                assert(v != w);
                assert(d != Some(v as usize));
                assert(t[v] == s[v]);
            }
        }
    }
    assert forall|k: int| #[trigger] output_at(t, k) is Some implies output_ok(t, k, output_at(t, k)->Some_0) by {
        let x = output_at(s, k)->Some_0;
        assert(output_at(s, k) is Some);
        assert(output_ok(s, k, x));
        let l = output_at(t, k)->Some_0.out_wire_ids@;
        let ol = x.out_wire_ids@;
        ol.filter_lemma(pred);
        assert forall|j: int| 0 <= j < l.len() implies (#[trigger] wire_at(t, l[j] as int)) is Some
            && wire_at(t, l[j] as int)->Some_0.source_id == k by {
            let y = l[j] as int;
            if k == src {
                let fl = without(ol, w as usize);
                assert(fl[j] == l[j]);
                assert(fl.contains(l[j]));
                ol.lemma_filter_contains_rev(pred, l[j]);
                let jj = choose|jj: int| 0 <= jj < ol.len() && ol[jj] == l[j];
                assert(wire_at(s, ol[jj] as int) is Some);
                assert(y != w);
                assert(d != Some(y as usize));
                assert(t[y] == s[y]);
            } else {
                assert(d != Some(k as usize));
                assert(t[k] == s[k]);
                assert(wire_at(s, y) is Some);
                if y == w {
                    assert(false);
                }
                assert(d != Some(y as usize));
                assert(t[y] == s[y]);
            }
        }
    }
}

} // verus!
