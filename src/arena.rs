use vstd::prelude::*;

use crate::element::{elem_id, ChipDefenition, Gate, GridVec2, Input, Logical, Output, Wire};
use crate::kind::{arity, kind_of_label, label_is, primitive_kind_from_label, label_of, n_outputs, GateKind, IOKind, LogicalKind, PrimitiveKind};
use crate::primitive::SimError;
use crate::engine::{lemma_same_shape, same_shape};

verus! {

/// Gate stored under `k`, if any.
pub open spec fn gate_at(s: Seq<Option<Logical>>, k: int) -> Option<Gate> {
    if 0 <= k < s.len() {
        match s[k] {
            Some(Logical::Gate(g)) => Some(g),
            _ => None,
        }
    } else {
        None
    }
}

/// The wire stored under `k`, if any.
pub open spec fn wire_at(s: Seq<Option<Logical>>, k: int) -> Option<Wire> {
    if 0 <= k < s.len() {
        match s[k] {
            Some(Logical::Wire(w)) => Some(w),
            _ => None,
        }
    } else {
        None
    }
}

/// The input port stored under `k`, if any.
pub open spec fn input_at(s: Seq<Option<Logical>>, k: int) -> Option<Input> {
    if 0 <= k < s.len() {
        match s[k] {
            Some(Logical::Input(i)) => Some(i),
            _ => None,
        }
    } else {
        None
    }
}

/// The output port stored under `k`, if any.
pub open spec fn output_at(s: Seq<Option<Logical>>, k: int) -> Option<Output> {
    if 0 <= k < s.len() {
        match s[k] {
            Some(Logical::Output(o)) => Some(o),
            _ => None,
        }
    } else {
        None
    }
}

/// Every element is stored under its own id.
pub open spec fn ids_ok(s: Seq<Option<Logical>>) -> bool {
    forall|k: int| 0 <= k < s.len() && #[trigger] s[k] is Some ==> elem_id(s[k]->Some_0) == k
}

/// A gate's ports exist and name it as their parent, and a gate of a known
/// primitive kind has as many inputs as the kind accepts.
pub open spec fn gate_ok(s: Seq<Option<Logical>>, k: int, g: Gate) -> bool {
    &&& (g.kind is Primitive && g.kind->Primitive_0 != PrimitiveKind::Unknown) ==> g.ins@.len() == arity(
        g.kind->Primitive_0,
    )
    &&& forall|j: int|
        0 <= j < g.ins@.len() ==> (#[trigger] input_at(s, g.ins@[j] as int)) is Some
            && input_at(s, g.ins@[j] as int)->Some_0.parent_id == Some(k as usize)
    &&& forall|j: int|
        0 <= j < g.outs@.len() ==> (#[trigger] output_at(s, g.outs@[j] as int)) is Some
            && output_at(s, g.outs@[j] as int)->Some_0.parent_id == Some(k as usize)
}

/// A wire is listed by its source, is connected exactly when it has a
/// destination, and its destination names it as its source wire.
pub open spec fn wire_ok(s: Seq<Option<Logical>>, k: int, w: Wire) -> bool {
    &&& output_at(s, w.source_id as int) is Some
    &&& output_at(s, w.source_id as int)->Some_0.out_wire_ids@.contains(k as usize)
    &&& w.connected == w.dest is Some
    &&& w.dest is Some ==> input_at(s, w.dest->Some_0 as int) is Some && input_at(
        s,
        w.dest->Some_0 as int,
    )->Some_0.source_wire_id == Some(k as usize)
}

/// An input's source wire ends at it.
pub open spec fn input_ok(s: Seq<Option<Logical>>, k: int, i: Input) -> bool {
    i.source_wire_id is Some ==> wire_at(s, i.source_wire_id->Some_0 as int) is Some && wire_at(
        s,
        i.source_wire_id->Some_0 as int,
    )->Some_0.dest == Some(k as usize)
}

/// Every wire an output lists starts at it.
pub open spec fn output_ok(s: Seq<Option<Logical>>, k: int, o: Output) -> bool {
    forall|j: int|
        0 <= j < o.out_wire_ids@.len() ==> (#[trigger] wire_at(s, o.out_wire_ids@[j] as int)) is Some
            && wire_at(s, o.out_wire_ids@[j] as int)->Some_0.source_id == k
}

/// The arena's invariant: ids match positions and all back-references agree.
pub open spec fn arena_ok(s: Seq<Option<Logical>>) -> bool {
    &&& ids_ok(s)
    &&& forall|k: int| #[trigger] gate_at(s, k) is Some ==> gate_ok(s, k, gate_at(s, k)->Some_0)
    &&& forall|k: int| #[trigger] wire_at(s, k) is Some ==> wire_ok(s, k, wire_at(s, k)->Some_0)
    &&& forall|k: int| #[trigger] input_at(s, k) is Some ==> input_ok(s, k, input_at(s, k)->Some_0)
    &&& forall|k: int|
        #[trigger] output_at(s, k) is Some ==> output_ok(s, k, output_at(s, k)->Some_0)
}

/// A held wire exists and has no destination.
pub open spec fn holding_ok(s: Seq<Option<Logical>>, h: Option<usize>) -> bool {
    h is Some ==> wire_at(s, h->Some_0 as int) is Some && wire_at(s, h->Some_0 as int)->Some_0.dest
        is None
}

/// No input has more than one wire ending at it.
pub open spec fn in_degree_at_most_one(s: Seq<Option<Logical>>) -> bool {
    forall|a: int, b: int|
        #[trigger] wire_at(s, a) is Some && #[trigger] wire_at(s, b) is Some && wire_at(s, a)->Some_0.dest
            is Some && wire_at(s, a)->Some_0.dest == wire_at(s, b)->Some_0.dest ==> a == b
}

/// The element store and the wire-interaction state of one session. An
/// element's id is its position in `live_data`; removed elements leave `None`,
/// so ids are never reused and the next id is the length.
pub struct Data {
    pub live_data: Vec<Option<Logical>>,
    pub holding_wire: Option<usize>,
}

/// A fresh input port.
pub open spec fn fresh_input(i: Input, parent: usize, index: usize, id: usize) -> bool {
    i == Input { id, index, name: None, parent_id: Some(parent), signal: false, source_wire_id: None }
}

/// A fresh output port.
pub open spec fn fresh_output(o: Output, parent: usize, index: usize, id: usize) -> bool {
    &&& o.id == id
    &&& o.index == index
    &&& o.name is None
    &&& o.parent_id == Some(parent)
    &&& !o.signal
    &&& o.out_wire_ids@ == Seq::<usize>::empty()
}

/// The label, input count and output count of a gate made from `t`.
pub open spec fn template_shape(t: GateKind) -> (Seq<char>, nat, nat) {
    match t {
        GateKind::Primitive(k) => if k == PrimitiveKind::Unknown {
            ("E: Not Found"@, 1, 1)
        } else {
            (label_of(k), arity(k), n_outputs(k))
        },
        _ => ("E: Not Found"@, 1, 1),
    }
}

/// Gate kind named by a label.
pub open spec fn gate_kind_of_label(s: Seq<char>) -> GateKind {
    if s == "Custom"@ {
        GateKind::Custom
    } else {
        GateKind::Primitive(kind_of_label(s))
    }
}

/// The kind of a gate made from `t`.
pub open spec fn template_kind(t: GateKind) -> GateKind {
    match t {
        GateKind::Primitive(k) => GateKind::Primitive(k),
        _ => GateKind::Primitive(PrimitiveKind::Unknown),
    }
}

impl Input {
    pub fn new(parent_id: usize, index: usize, id: usize) -> (r: Self)
        ensures
            fresh_input(r, parent_id, index, id),
    {
        Input { id, index, name: None, parent_id: Some(parent_id), signal: false, source_wire_id: None }
    }
}

impl Output {
    pub fn new(parent_id: usize, index: usize, id: usize) -> (r: Self)
        ensures
            fresh_output(r, parent_id, index, id),
    {
        Output {
            id,
            index,
            name: None,
            parent_id: Some(parent_id),
            signal: false,
            out_wire_ids: Vec::new(),
        }
    }

    pub fn name_output(&mut self, name: String)
        ensures
            *final(self) == (Output { name: Some(name), ..*old(self) }),
    {
        self.name = Some(name);
    }
}

impl Gate {
    /// A gate named `name` with no kind and no ports.
    pub fn new(name: String, id: usize) -> (r: Gate)
        ensures
            r.label == name,
            r.id == id,
            r.position == (GridVec2 { x: 0, y: 0 }),
            r.size == (GridVec2 { x: 150, y: 110 }),
            r.n_in == 0,
            r.n_out == 0,
            r.ins@ == Seq::<usize>::empty(),
            r.outs@ == Seq::<usize>::empty(),
            r.kind == GateKind::Unset,
            !r.state,
    {
        Gate {
            label: name,
            id,
            position: GridVec2::new(0, 0),
            size: GridVec2::new(150, 110),
            n_in: 0,
            ins: Vec::new(),
            n_out: 0,
            outs: Vec::new(),
            kind: GateKind::Unset,
            state: false,
        }
    }

    /// A gate whose kind is read from its label (`Custom` for a user-made
    /// composite), with the given port counts and no ports yet.
    pub fn generate(label: String, n_ins: usize, n_outs: usize, id: usize) -> (r: Gate)
        ensures
            r.label == label,
            r.id == id,
            r.kind == gate_kind_of_label(label@),
            r.position == (GridVec2 { x: 0, y: 0 }),
            r.size == (GridVec2 { x: 150, y: 110 }),
            r.n_in == n_ins,
            r.n_out == n_outs,
            r.ins@ == Seq::<usize>::empty(),
            r.outs@ == Seq::<usize>::empty(),
            !r.state,
    {
        proof {
            reveal_strlit("Custom");
        }
        let kind = if label_is(label.as_str(), "Custom") {
            GateKind::Custom
        } else {
            GateKind::Primitive(primitive_kind_from_label(label.as_str()))
        };
        Gate {
            label,
            id,
            position: GridVec2::new(0, 0),
            size: GridVec2::new(150, 110),
            n_in: n_ins,
            ins: Vec::new(),
            n_out: n_outs,
            outs: Vec::new(),
            kind,
            state: false,
        }
    }

    /// A gate made from a kind, at `pos`, with no ports yet.
    pub fn create_gate_from_template(t: GateKind, pos: GridVec2, id: usize) -> (r: Gate)
        ensures
            r.label@ == template_shape(t).0,
            r.n_in == template_shape(t).1,
            r.n_out == template_shape(t).2,
            r.kind == template_kind(t),
            r.id == id,
            r.position == pos,
            r.size == (GridVec2 { x: 150, y: 110 }),
            r.ins@ == Seq::<usize>::empty(),
            r.outs@ == Seq::<usize>::empty(),
            !r.state,
    {
        let (label, n_in, n_out, kind) = match t {
            GateKind::Primitive(k) => {
                if k == PrimitiveKind::Unknown {
                    ("E: Not Found".to_owned(), 1, 1, t)
                } else {
                    (k.to_label(), k.get_n_desired_inputs(), k.get_n_outputs(), t)
                }
            },
            _ => ("E: Not Found".to_owned(), 1, 1, GateKind::Primitive(PrimitiveKind::Unknown)),
        };
        Gate {
            label,
            id,
            position: pos,
            size: GridVec2::new(150, 110),
            n_in,
            ins: Vec::new(),
            n_out,
            outs: Vec::new(),
            kind,
            state: false,
        }
    }
}

impl Data {
    pub open spec fn wf(&self) -> bool {
        &&& arena_ok(self.live_data@)
        &&& holding_ok(self.live_data@, self.holding_wire)
    }

    /// An empty session.
    pub fn new() -> (r: Data)
        ensures
            r.wf(),
            r.live_data@.len() == 0,
            r.holding_wire is None,
    {
        Data { live_data: Vec::new(), holding_wire: None }
    }

    /// Places a gate made from `kind` at `pos`, together with its input and
    /// output ports, and returns its id. That gate takes the next id,
    /// its inputs the ids after it, then its outputs.
    pub fn add_gate(&mut self, kind: GateKind, pos: GridVec2) -> (id: usize)
        requires
            old(self).wf(),
            old(self).live_data@.len() + 4 <= usize::MAX,
        ensures
            final(self).wf(),
            final(self).holding_wire == old(self).holding_wire,
            id == old(self).live_data@.len(),
            final(self).live_data@.len() == id + 1 + template_shape(kind).1 + template_shape(kind).2,
            forall|k: int| 0 <= k < id ==> final(self).live_data@[k] == old(self).live_data@[k],
            gate_at(final(self).live_data@, id as int) is Some,
            ({
                let g = gate_at(final(self).live_data@, id as int)->Some_0;
                &&& g.label@ == template_shape(kind).0
                &&& g.kind == template_kind(kind)
                &&& g.id == id
                &&& g.position == pos
                &&& g.n_in == template_shape(kind).1
                &&& g.n_out == template_shape(kind).2
                &&& g.ins@ == Seq::new(g.n_in as nat, |j: int| (id + 1 + j) as usize)
                &&& g.outs@ == Seq::new(g.n_out as nat, |j: int| (id + 1 + g.n_in + j) as usize)
                &&& !g.state
            }),
            forall|k: int|
                id + 1 <= k < id + 1 + template_shape(kind).1 ==> (#[trigger] final(self).live_data@[k])
                    is Some && final(self).live_data@[k]->Some_0 is Input && fresh_input(
                    final(self).live_data@[k]->Some_0->Input_0,
                    id,
                    (k - id - 1) as usize,
                    k as usize,
                ),
            forall|k: int|
                id + 1 + template_shape(kind).1 <= k < final(self).live_data@.len() ==> (
                #[trigger] final(self).live_data@[k]) is Some && final(self).live_data@[k]->Some_0 is Output
                    && fresh_output(
                    final(self).live_data@[k]->Some_0->Output_0,
                    id,
                    (k - id - 1 - template_shape(kind).1) as usize,
                    k as usize,
                ),
    {
        let n = self.live_data.len();
        let mut gate = Gate::create_gate_from_template(kind, pos, n);
        let n_in = gate.n_in;
        let n_out = gate.n_out;
        let mut ins: Vec<usize> = Vec::new();
        let mut i: usize = 0;
        while i < n_in
            invariant
                i <= n_in <= 2,
                n + 4 <= usize::MAX,
                ins@ == Seq::new(i as nat, |j: int| (n + 1 + j) as usize),
            decreases n_in - i,
        {
            ins.push(n + 1 + i);
            i = i + 1;
            assert(ins@ =~= Seq::new(i as nat, |j: int| (n + 1 + j) as usize));
        }
        let mut outs: Vec<usize> = Vec::new();
        i = 0;
        while i < n_out
            invariant
                i <= n_out <= 1,
                n_in <= 2,
                n + 4 <= usize::MAX,
                outs@ == Seq::new(i as nat, |j: int| (n + 1 + n_in + j) as usize),
            decreases n_out - i,
        {
            outs.push(n + 1 + n_in + i);
            i = i + 1;
            assert(outs@ =~= Seq::new(i as nat, |j: int| (n + 1 + n_in + j) as usize));
        }
        gate.ins = ins;
        gate.outs = outs;
        let ghost g = gate;
        let ghost s0 = self.live_data@;
        self.live_data.push(Some(Logical::Gate(gate)));
        i = 0;
        while i < n_in
            invariant
                i <= n_in <= 2,
                n_out <= 1,
                n + 4 <= usize::MAX,
                self.live_data@.len() == n + 1 + i,
                forall|k: int| 0 <= k < n ==> self.live_data@[k] == s0[k],
                self.live_data@[n as int] == Some(Logical::Gate(g)),
                self.holding_wire == old(self).holding_wire,
                s0 == old(self).live_data@,
                g.id == n,
                g.ins@ == Seq::new(n_in as nat, |j: int| (n + 1 + j) as usize),
                g.outs@ == Seq::new(n_out as nat, |j: int| (n + 1 + n_in + j) as usize),
                forall|k: int|
                    n + 1 <= k < n + 1 + i ==> (#[trigger] self.live_data@[k]) is Some
                        && self.live_data@[k]->Some_0 is Input && fresh_input(
                        self.live_data@[k]->Some_0->Input_0,
                        n,
                        (k - n - 1) as usize,
                        k as usize,
                    ),
            decreases n_in - i,
        {
            self.live_data.push(Some(Logical::Input(Input::new(n, i, n + 1 + i))));
            i = i + 1;
        }
        i = 0;
        while i < n_out
            invariant
                i <= n_out <= 1,
                n_in <= 2,
                n + 4 <= usize::MAX,
                self.live_data@.len() == n + 1 + n_in + i,
                forall|k: int| 0 <= k < n ==> self.live_data@[k] == s0[k],
                self.live_data@[n as int] == Some(Logical::Gate(g)),
                self.holding_wire == old(self).holding_wire,
                s0 == old(self).live_data@,
                g.id == n,
                g.ins@ == Seq::new(n_in as nat, |j: int| (n + 1 + j) as usize),
                g.outs@ == Seq::new(n_out as nat, |j: int| (n + 1 + n_in + j) as usize),
                forall|k: int|
                    n + 1 <= k < n + 1 + n_in ==> (#[trigger] self.live_data@[k]) is Some
                        && self.live_data@[k]->Some_0 is Input && fresh_input(
                        self.live_data@[k]->Some_0->Input_0,
                        n,
                        (k - n - 1) as usize,
                        k as usize,
                    ),
                forall|k: int|
                    n + 1 + n_in <= k < n + 1 + n_in + i ==> (#[trigger] self.live_data@[k]) is Some
                        && self.live_data@[k]->Some_0 is Output && fresh_output(
                        self.live_data@[k]->Some_0->Output_0,
                        n,
                        (k - n - 1 - n_in) as usize,
                        k as usize,
                    ),
            decreases n_out - i,
        {
            self.live_data.push(Some(Logical::Output(Output::new(n, i, n + 1 + n_in + i))));
            i = i + 1;
        }
        proof {
            lemma_grow_ok(s0, self.live_data@, self.holding_wire);
        }
        n
    }

    /// The element stored under `id`.
    pub fn get(&self, id: usize) -> (r: Option<&Logical>)
        ensures
            match r {
                Some(e) => id < self.live_data@.len() && self.live_data@[id as int] == Some(*e),
                None => id >= self.live_data@.len() || self.live_data@[id as int] is None,
            },
    {
        if id < self.live_data.len() {
            match &self.live_data[id] {
                Some(e) => Some(e),
                None => None,
            }
        } else {
            None
        }
    }

    /// The signal element `id` shows: a port's or wire's signal, a gate's state.
    pub fn get_signal(&self, id: usize) -> (r: Result<bool, SimError>)
        ensures
            match (if id < self.live_data@.len() { self.live_data@[id as int] } else { None }) {
                None => r == Err::<bool, SimError>(SimError::MissingElement),
                Some(Logical::Gate(g)) => r == Ok::<bool, SimError>(g.state),
                Some(Logical::Wire(w)) => r == Ok::<bool, SimError>(w.signal),
                Some(Logical::Input(i)) => r == Ok::<bool, SimError>(i.signal),
                Some(Logical::Output(o)) => r == Ok::<bool, SimError>(o.signal),
                Some(Logical::Chip(_)) => r == Err::<bool, SimError>(SimError::InvalidOperation),
            },
    {
        match self.get(id) {
            None => Err(SimError::MissingElement),
            Some(e) => match e.get_signal() {
                Some(v) => Ok(v),
                None => Err(SimError::InvalidOperation),
            },
        }
    }

    /// The kind of element `id`.
    pub fn get_kind(&self, id: usize) -> (r: Result<LogicalKind, SimError>)
        ensures
            match (if id < self.live_data@.len() { self.live_data@[id as int] } else { None }) {
                None => r == Err::<LogicalKind, SimError>(SimError::MissingElement),
                Some(Logical::Gate(g)) => r == Ok::<LogicalKind, SimError>(LogicalKind::Gate(g.kind)),
                Some(Logical::Wire(_)) => r == Ok::<LogicalKind, SimError>(LogicalKind::Wire),
                Some(Logical::Input(_)) => r == Ok::<LogicalKind, SimError>(LogicalKind::IO(IOKind::Input)),
                Some(Logical::Output(_)) => r == Ok::<LogicalKind, SimError>(LogicalKind::IO(IOKind::Output)),
                Some(Logical::Chip(c)) => r is Ok && r->Ok_0 is Chip && r->Ok_0->Chip_0@ == c.name@,
            },
    {
        match self.get(id) {
            None => Err(SimError::MissingElement),
            Some(e) => Ok(e.get_kind()),
        }
    }

    /// Where element `id` stands; ports have no position of their own.
    pub fn get_position(&self, id: usize) -> (r: Result<GridVec2, SimError>)
        ensures
            match (if id < self.live_data@.len() { self.live_data@[id as int] } else { None }) {
                None => r == Err::<GridVec2, SimError>(SimError::MissingElement),
                Some(Logical::Gate(g)) => r == Ok::<GridVec2, SimError>(g.position),
                Some(Logical::Wire(w)) => r == Ok::<GridVec2, SimError>(w.line.p1),
                Some(Logical::Chip(c)) => match c.position {
                    Some(p) => r == Ok::<GridVec2, SimError>(p),
                    None => r == Err::<GridVec2, SimError>(SimError::InvalidOperation),
                },
                _ => r == Err::<GridVec2, SimError>(SimError::InvalidOperation),
            },
    {
        match self.get(id) {
            None => Err(SimError::MissingElement),
            Some(e) => e.get_position(),
        }
    }

    /// The ids of all elements, in increasing order.
    pub fn ids(&self) -> (r: Vec<usize>)
        ensures
            forall|x: usize| r@.contains(x) <==> (x < self.live_data@.len() && self.live_data@[x as int] is Some),
            forall|a: int, b: int| 0 <= a < b < r@.len() ==> r@[a] < r@[b],
    {
        let mut r: Vec<usize> = Vec::new();
        let n = self.live_data.len();
        let mut k: usize = 0;
        while k < n
            invariant
                n == self.live_data@.len(),
                k <= n,
                forall|x: usize| r@.contains(x) <==> (x < k && self.live_data@[x as int] is Some),
                forall|a: int, b: int| 0 <= a < b < r@.len() ==> r@[a] < r@[b],
                forall|a: int| 0 <= a < r@.len() ==> r@[a] < k,
            decreases n - k,
        {
            if self.live_data[k].is_some() {
                let ghost old_r = r@;
                r.push(k);
                proof {
                    assert forall|x: usize| r@.contains(x) <==> (x < k + 1 && self.live_data@[x as int] is Some) by {
                        if x == k {
                            assert(r@[r@.len() - 1] == x);
                        }
                        if r@.contains(x) && x != k {
                            let j = choose|j: int| 0 <= j < r@.len() && r@[j] == x;
                            assert(old_r[j] == x);
                            assert(old_r.contains(x));
                        }
                        if x < k && self.live_data@[x as int] is Some {
                            assert(old_r.contains(x));
                            let j = choose|j: int| 0 <= j < old_r.len() && old_r[j] == x;
                            assert(r@[j] == x);
                        }
                    }
                }
            } else {
                proof {
                    assert forall|x: usize| r@.contains(x) implies x != k by {
                        let j = choose|j: int| 0 <= j < r@.len() && r@[j] == x;
                    }
                }
            }
            k = k + 1;
        }
        r
    }

    /// Places a chip in the arena under the next id, which it takes as its
    /// own, and returns that id.
    pub fn add_chip(&mut self, chip: ChipDefenition) -> (id: usize)
        requires
            old(self).wf(),
            old(self).live_data@.len() < usize::MAX,
        ensures
            final(self).wf(),
            final(self).holding_wire == old(self).holding_wire,
            id == old(self).live_data@.len(),
            final(self).live_data@ == old(self).live_data@.push(
                Some(Logical::Chip(ChipDefenition { id, ..chip })),
            ),
    {
        let ghost s = self.live_data@;
        let n = self.live_data.len();
        let mut chip = chip;
        chip.id = n;
        self.live_data.push(Some(Logical::Chip(chip)));
        proof {
            let t = self.live_data@;
            assert forall|k: int| 0 <= k < s.len() implies same_shape(#[trigger] s[k], t[k]) by {}
            lemma_same_shape(s, t, self.holding_wire);
        }
        n
    }

    /// The id the next created element would receive, without issuing it.
    pub fn peek_next_id(&self) -> (r: usize)
        ensures
            r == self.live_data@.len(),
    {
        self.live_data.len()
    }

    /// Issues a fresh id for an element kept outside the arena: the id's slot
    /// is reserved, left empty, so no later element receives it.
    pub fn next_id(&mut self) -> (r: usize)
        requires
            old(self).wf(),
            old(self).live_data@.len() < usize::MAX,
        ensures
            final(self).wf(),
            final(self).holding_wire == old(self).holding_wire,
            r == old(self).live_data@.len(),
            final(self).live_data@ == old(self).live_data@.push(None),
    {
        let ghost s = self.live_data@;
        let n = self.live_data.len();
        self.live_data.push(None);
        proof {
            let t = self.live_data@;
            assert forall|k: int| 0 <= k < s.len() implies same_shape(#[trigger] s[k], t[k]) by {}
            lemma_same_shape(s, t, self.holding_wire);
        }
        n
    }
}

/// Appending a gate with fresh ports keeps the invariant.
proof fn lemma_grow_ok(s0: Seq<Option<Logical>>, s: Seq<Option<Logical>>, h: Option<usize>)
    requires
        arena_ok(s0),
        holding_ok(s0, h),
        s0.len() < s.len() <= usize::MAX,
        forall|k: int| 0 <= k < s0.len() ==> s[k] == s0[k],
        ({
            let n = s0.len();
            let g = s[n as int]->Some_0->Gate_0;
            &&& s[n as int] is Some && s[n as int]->Some_0 is Gate
            &&& g.id == n
            &&& (g.kind is Primitive && g.kind->Primitive_0 != PrimitiveKind::Unknown) ==> g.ins@.len()
                == arity(g.kind->Primitive_0)
            &&& s.len() == n + 1 + g.ins@.len() + g.outs@.len()
            &&& forall|j: int| 0 <= j < g.ins@.len() ==> #[trigger] g.ins@[j] == n + 1 + j
            &&& forall|j: int| 0 <= j < g.outs@.len() ==> #[trigger] g.outs@[j] == n + 1 + g.ins@.len() + j
            &&& forall|k: int|
                n + 1 <= k < n + 1 + g.ins@.len() ==> (#[trigger] s[k]) is Some && s[k]->Some_0 is Input
                    && fresh_input(s[k]->Some_0->Input_0, n as usize, (k - n - 1) as usize, k as usize)
            &&& forall|k: int|
                n + 1 + g.ins@.len() <= k < s.len() ==> (#[trigger] s[k]) is Some && s[k]->Some_0 is Output
                    && fresh_output(
                    s[k]->Some_0->Output_0,
                    n as usize,
                    (k - n - 1 - g.ins@.len()) as usize,
                    k as usize,
                )
        }),
    ensures
        arena_ok(s),
        holding_ok(s, h),
{
    let n = s0.len() as int;
    let g = s[n]->Some_0->Gate_0;
    assert forall|k: int| 0 <= k < s.len() && #[trigger] s[k] is Some implies elem_id(s[k]->Some_0) == k by {
        if k < n {
            assert(s[k] == s0[k]);
            assert(s0[k] is Some);
        } else if k == n {
        } else if k < n + 1 + g.ins@.len() {
            assert(s[k]->Some_0 is Input);
            assert(fresh_input(s[k]->Some_0->Input_0, n as usize, (k - n - 1) as usize, k as usize));
        } else {
            assert(s[k]->Some_0 is Output);
            assert(fresh_output(s[k]->Some_0->Output_0, n as usize, (k - n - 1 - g.ins@.len()) as usize, k as usize));
        }
    }
    assert forall|k: int| #[trigger] gate_at(s, k) is Some implies gate_ok(s, k, gate_at(s, k)->Some_0) by {
        if k == n {
            assert forall|j: int| 0 <= j < g.ins@.len() implies (#[trigger] input_at(s, g.ins@[j] as int)) is Some && input_at(s, g.ins@[j] as int)->Some_0.parent_id == Some(k as usize) by {
                assert(s[n + 1 + j] is Some);
            }
            assert forall|j: int| 0 <= j < g.outs@.len() implies (#[trigger] output_at(s, g.outs@[j] as int)) is Some
                && output_at(s, g.outs@[j] as int)->Some_0.parent_id == Some(k as usize) by {
                assert(s[n + 1 + g.ins@.len() + j] is Some);
            }
        } else {
            assert(gate_at(s0, k) is Some);
            let g0 = gate_at(s0, k)->Some_0;
            assert forall|j: int| 0 <= j < g0.ins@.len() implies (#[trigger] input_at(s, g0.ins@[j] as int)) is Some && input_at(s, g0.ins@[j] as int)->Some_0.parent_id == Some(k as usize) by {
                assert(input_at(s0, g0.ins@[j] as int) is Some);
            }
            assert forall|j: int| 0 <= j < g0.outs@.len() implies (#[trigger] output_at(s, g0.outs@[j] as int)) is Some
                && output_at(s, g0.outs@[j] as int)->Some_0.parent_id == Some(k as usize) by {
                assert(output_at(s0, g0.outs@[j] as int) is Some);
            }
        }
    }
    assert forall|k: int| #[trigger] wire_at(s, k) is Some implies wire_ok(s, k, wire_at(s, k)->Some_0) by {
        assert(k < n);
        assert(wire_at(s0, k) is Some);
        let w = wire_at(s0, k)->Some_0;
        assert(output_at(s0, w.source_id as int) is Some);
        if w.dest is Some {
            assert(input_at(s0, w.dest->Some_0 as int) is Some);
        }
    }
    assert forall|k: int| #[trigger] input_at(s, k) is Some implies input_ok(s, k, input_at(s, k)->Some_0) by {
        if k < n {
            assert(input_at(s0, k) is Some);
            let i = input_at(s0, k)->Some_0;
            if i.source_wire_id is Some {
                assert(wire_at(s0, i.source_wire_id->Some_0 as int) is Some);
            }
        } else {
            assert(s[k] is Some);
        }
    }
    assert forall|k: int| #[trigger] output_at(s, k) is Some implies output_ok(s, k, output_at(s, k)->Some_0) by {
        if k < n {
            assert(output_at(s0, k) is Some);
            let o = output_at(s0, k)->Some_0;
            assert forall|j: int| 0 <= j < o.out_wire_ids@.len() implies (#[trigger] wire_at(s, o.out_wire_ids@[j] as int)) is Some
                && wire_at(s, o.out_wire_ids@[j] as int)->Some_0.source_id == k by {
                assert(wire_at(s0, o.out_wire_ids@[j] as int) is Some);
            }
        } else {
            assert(s[k] is Some);
        }
    }
    if h is Some {
        assert(wire_at(s0, h->Some_0 as int) is Some);
    }
}

} // verus!
