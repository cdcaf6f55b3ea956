use vstd::prelude::*;

use crate::element::{ChipDefenition, Gate, Input, Logical, Output, Wire};
use crate::kind::{GateKind, PrimitiveKind};

verus! {

/// Which gates of a captured circuit become a chip's boundary ports: gates
/// of `input_kind` become chip inputs, gates of `output_kind` chip outputs.
#[derive(Clone, Copy, Debug, PartialEq, Eq, Structural)]
pub struct ChipPortPolicy {
    pub input_kind: PrimitiveKind,
    pub output_kind: PrimitiveKind,
}

impl ChipPortPolicy {
    /// TOGGLE gates are the chip's inputs and LIGHT gates its outputs.
    pub fn toggles_and_lights() -> (r: Self)
        ensures
            r.input_kind == PrimitiveKind::TOGGLE,
            r.output_kind == PrimitiveKind::LIGHT,
    {
        ChipPortPolicy { input_kind: PrimitiveKind::TOGGLE, output_kind: PrimitiveKind::LIGHT }
    }
}

/// `b` holds the same text as `a`.
pub open spec fn same_name(a: Option<String>, b: Option<String>) -> bool {
    &&& a is Some == b is Some
    &&& a is Some ==> a->Some_0@ == b->Some_0@
}

/// `b` is a copy of gate `a`.
pub open spec fn gate_copy(a: Gate, b: Gate) -> bool {
    &&& b == Gate { label: b.label, ins: b.ins, outs: b.outs, ..a }
    &&& b.label@ == a.label@
    &&& b.ins@ == a.ins@
    &&& b.outs@ == a.outs@
}

/// `b` is a copy of input port `a`.
pub open spec fn input_copy(a: Input, b: Input) -> bool {
    &&& b == Input { name: b.name, ..a }
    &&& same_name(a.name, b.name)
}

/// `b` is a copy of output port `a`.
pub open spec fn output_copy(a: Output, b: Output) -> bool {
    &&& b == Output { name: b.name, out_wire_ids: b.out_wire_ids, ..a }
    &&& same_name(a.name, b.name)
    &&& b.out_wire_ids@ == a.out_wire_ids@
}

/// `b` is a deep copy of chip `a`, nested chips included.
pub open spec fn chip_copy(a: ChipDefenition, b: ChipDefenition) -> bool
    decreases a,
{
    &&& b == ChipDefenition {
        name: b.name,
        sub_gates: b.sub_gates,
        sub_wires: b.sub_wires,
        sub_inputs: b.sub_inputs,
        sub_outputs: b.sub_outputs,
        sub_chips: b.sub_chips,
        chip_ins: b.chip_ins,
        chip_outs: b.chip_outs,
        ..a
    }
    &&& b.name@ == a.name@
    &&& b.sub_gates@.len() == a.sub_gates@.len()
    &&& forall|i: int| 0 <= i < a.sub_gates@.len() ==> gate_copy(a.sub_gates@[i], #[trigger] b.sub_gates@[i])
    &&& b.sub_wires@ == a.sub_wires@
    &&& b.sub_inputs@.len() == a.sub_inputs@.len()
    &&& forall|i: int| 0 <= i < a.sub_inputs@.len() ==> input_copy(a.sub_inputs@[i], #[trigger] b.sub_inputs@[i])
    &&& b.sub_outputs@.len() == a.sub_outputs@.len()
    &&& forall|i: int| 0 <= i < a.sub_outputs@.len() ==> output_copy(a.sub_outputs@[i], #[trigger] b.sub_outputs@[i])
    &&& b.chip_ins@ == a.chip_ins@
    &&& b.chip_outs@ == a.chip_outs@
    &&& b.sub_chips@.len() == a.sub_chips@.len()
    &&& forall|i: int| 0 <= i < a.sub_chips@.len() ==> chip_copy(a.sub_chips@[i], #[trigger] b.sub_chips@[i])
}

/// The gates of an arena, in id order.
pub open spec fn gates_of(s: Seq<Option<Logical>>) -> Seq<Gate> {
    s.filter_map(
        |e: Option<Logical>|
            match e {
                Some(Logical::Gate(g)) => Some(g),
                _ => None,
            },
    )
}

/// The wires of an arena, in id order.
pub open spec fn wires_of(s: Seq<Option<Logical>>) -> Seq<Wire> {
    s.filter_map(
        |e: Option<Logical>|
            match e {
                Some(Logical::Wire(w)) => Some(w),
                _ => None,
            },
    )
}

/// The input ports of an arena, in id order.
pub open spec fn inputs_of(s: Seq<Option<Logical>>) -> Seq<Input> {
    s.filter_map(
        |e: Option<Logical>|
            match e {
                Some(Logical::Input(i)) => Some(i),
                _ => None,
            },
    )
}

/// The output ports of an arena, in id order.
pub open spec fn outputs_of(s: Seq<Option<Logical>>) -> Seq<Output> {
    s.filter_map(
        |e: Option<Logical>|
            match e {
                Some(Logical::Output(o)) => Some(o),
                _ => None,
            },
    )
}

/// The chips of an arena, in id order.
pub open spec fn chips_of(s: Seq<Option<Logical>>) -> Seq<ChipDefenition> {
    s.filter_map(
        |e: Option<Logical>|
            match e {
                Some(Logical::Chip(c)) => Some(c),
                _ => None,
            },
    )
}

/// The id and state of each gate of primitive kind `k`, in id order.
pub open spec fn ports_of(s: Seq<Option<Logical>>, k: PrimitiveKind) -> Seq<(usize, bool)> {
    s.filter_map(
        |e: Option<Logical>|
            match e {
                Some(Logical::Gate(g)) => if g.kind == GateKind::Primitive(k) {
                    Some((g.id, g.state))
                } else {
                    None
                },
                _ => None,
            },
    )
}

pub(crate) fn copy_ids(v: &Vec<usize>) -> (r: Vec<usize>)
    ensures
        r@ == v@,
{
    let mut r: Vec<usize> = Vec::new();
    let mut j: usize = 0;
    while j < v.len()
        invariant
            j <= v@.len(),
            r@ == v@.subrange(0, j as int),
        decreases v@.len() - j,
    {
        r.push(v[j]);
        j = j + 1;
        assert(r@ =~= v@.subrange(0, j as int));
    }
    assert(v@.subrange(0, j as int) =~= v@);
    r
}

fn copy_name(n: &Option<String>) -> (r: Option<String>)
    ensures
        same_name(*n, r),
{
    match n {
        Some(s) => Some(s.clone()),
        None => None,
    }
}

impl Gate {
    /// A copy of this gate.
    pub fn duplicate(&self) -> (r: Gate)
        ensures
            gate_copy(*self, r),
    {
        Gate {
            label: self.label.clone(),
            id: self.id,
            position: self.position,
            size: self.size,
            n_in: self.n_in,
            ins: copy_ids(&self.ins),
            n_out: self.n_out,
            outs: copy_ids(&self.outs),
            kind: self.kind,
            state: self.state,
        }
    }
}

impl Input {
    /// A copy of the port.
    pub fn duplicate(&self) -> (r: Input)
        ensures
            input_copy(*self, r),
    {
        Input {
            id: self.id,
            index: self.index,
            name: copy_name(&self.name),
            parent_id: self.parent_id,
            signal: self.signal,
            source_wire_id: self.source_wire_id,
        }
    }
}

impl Output {
    /// A copy of the port.
    pub fn duplicate(&self) -> (r: Output)
        ensures
            output_copy(*self, r),
    {
        Output {
            id: self.id,
            index: self.index,
            name: copy_name(&self.name),
            parent_id: self.parent_id,
            signal: self.signal,
            out_wire_ids: copy_ids(&self.out_wire_ids),
        }
    }
}

fn copy_gates(v: &Vec<Gate>) -> (r: Vec<Gate>)
    ensures
        r@.len() == v@.len(),
        forall|i: int| 0 <= i < v@.len() ==> gate_copy(v@[i], #[trigger] r@[i]),
{
    let mut r: Vec<Gate> = Vec::new();
    let mut j: usize = 0;
    while j < v.len()
        invariant
            j <= v@.len(),
            r@.len() == j,
            forall|i: int| 0 <= i < j ==> gate_copy(v@[i], #[trigger] r@[i]),
        decreases v@.len() - j,
    {
        r.push(v[j].duplicate());
        j = j + 1;
    }
    r
}

fn copy_inputs(v: &Vec<Input>) -> (r: Vec<Input>)
    ensures
        r@.len() == v@.len(),
        forall|i: int| 0 <= i < v@.len() ==> input_copy(v@[i], #[trigger] r@[i]),
{
    let mut r: Vec<Input> = Vec::new();
    let mut j: usize = 0;
    while j < v.len()
        invariant
            j <= v@.len(),
            r@.len() == j,
            forall|i: int| 0 <= i < j ==> input_copy(v@[i], #[trigger] r@[i]),
        decreases v@.len() - j,
    {
        r.push(v[j].duplicate());
        j = j + 1;
    }
    r
}

fn copy_outputs(v: &Vec<Output>) -> (r: Vec<Output>)
    ensures
        r@.len() == v@.len(),
        forall|i: int| 0 <= i < v@.len() ==> output_copy(v@[i], #[trigger] r@[i]),
{
    let mut r: Vec<Output> = Vec::new();
    let mut j: usize = 0;
    while j < v.len()
        invariant
            j <= v@.len(),
            r@.len() == j,
            forall|i: int| 0 <= i < j ==> output_copy(v@[i], #[trigger] r@[i]),
        decreases v@.len() - j,
    {
        r.push(v[j].duplicate());
        j = j + 1;
    }
    r
}

fn copy_wires(v: &Vec<Wire>) -> (r: Vec<Wire>)
    ensures
        r@ == v@,
{
    let mut r: Vec<Wire> = Vec::new();
    let mut j: usize = 0;
    while j < v.len()
        invariant
            j <= v@.len(),
            r@ == v@.subrange(0, j as int),
        decreases v@.len() - j,
    {
        r.push(v[j]);
        j = j + 1;
        assert(r@ =~= v@.subrange(0, j as int));
    }
    assert(v@.subrange(0, j as int) =~= v@);
    r
}

fn copy_ports(v: &Vec<(usize, bool)>) -> (r: Vec<(usize, bool)>)
    ensures
        r@ == v@,
{
    let mut r: Vec<(usize, bool)> = Vec::new();
    let mut j: usize = 0;
    while j < v.len()
        invariant
            j <= v@.len(),
            r@ == v@.subrange(0, j as int),
        decreases v@.len() - j,
    {
        r.push(v[j]);
        j = j + 1;
        assert(r@ =~= v@.subrange(0, j as int));
    }
    assert(v@.subrange(0, j as int) =~= v@);
    r
}

impl ChipDefenition {
    /// A deep copy of this chip, nested chips included.
    pub fn duplicate(&self) -> (r: ChipDefenition)
        ensures
            chip_copy(*self, r),
        decreases self,
    {
        let mut subs: Vec<ChipDefenition> = Vec::new();
        let mut j: usize = 0;
        while j < self.sub_chips.len()
            invariant
                j <= self.sub_chips@.len(),
                subs@.len() == j,
                forall|i: int| 0 <= i < j ==> chip_copy(self.sub_chips@[i], #[trigger] subs@[i]),
            decreases self.sub_chips@.len() - j,
        {
            proof {
                vstd::std_specs::vec::axiom_vec_index_decreases(self.sub_chips, j as int);
            }
            subs.push(self.sub_chips[j].duplicate());
            j = j + 1;
        }
        ChipDefenition {
            id: self.id,
            name: self.name.clone(),
            position: self.position,
            sub_gates: copy_gates(&self.sub_gates),
            sub_wires: copy_wires(&self.sub_wires),
            sub_inputs: copy_inputs(&self.sub_inputs),
            sub_outputs: copy_outputs(&self.sub_outputs),
            sub_chips: subs,
            n_in: self.n_in,
            chip_ins: copy_ports(&self.chip_ins),
            n_out: self.n_out,
            chip_outs: copy_ports(&self.chip_outs),
        }
    }

    /// An empty chip named `name`.
    pub fn create_blank_chip(name: String, id: usize) -> (r: Self)
        ensures
            r.id == id,
            r.name == name,
            r.position is None,
            r.sub_gates@.len() == 0,
            r.sub_wires@.len() == 0,
            r.sub_inputs@.len() == 0,
            r.sub_outputs@.len() == 0,
            r.sub_chips@.len() == 0,
            r.n_in == 0,
            r.chip_ins@.len() == 0,
            r.n_out == 0,
            r.chip_outs@.len() == 0,
    {
        ChipDefenition {
            id,
            name,
            position: None,
            sub_gates: Vec::new(),
            sub_wires: Vec::new(),
            sub_inputs: Vec::new(),
            sub_outputs: Vec::new(),
            sub_chips: Vec::new(),
            n_in: 0,
            chip_ins: Vec::new(),
            n_out: 0,
            chip_outs: Vec::new(),
        }
    }

    /// A chip made from a captured circuit: copies of its gates, wires,
    /// ports and nested chips, in id order, and boundary ports chosen by
    /// `policy`, each with that gate's state at capture time.
    pub fn from_live_data(board_data: &Vec<Option<Logical>>, name: String, id: usize, policy: ChipPortPolicy) -> (r: Self)
        ensures
            r.id == id,
            r.name == name,
            r.position is None,
            r.sub_gates@.len() == gates_of(board_data@).len(),
            forall|j: int| 0 <= j < r.sub_gates@.len() ==> gate_copy(gates_of(board_data@)[j], #[trigger] r.sub_gates@[j]),
            r.sub_wires@ == wires_of(board_data@),
            r.sub_inputs@.len() == inputs_of(board_data@).len(),
            forall|j: int| 0 <= j < r.sub_inputs@.len() ==> input_copy(inputs_of(board_data@)[j], #[trigger] r.sub_inputs@[j]),
            r.sub_outputs@.len() == outputs_of(board_data@).len(),
            forall|j: int| 0 <= j < r.sub_outputs@.len() ==> output_copy(outputs_of(board_data@)[j], #[trigger] r.sub_outputs@[j]),
            r.sub_chips@.len() == chips_of(board_data@).len(),
            forall|j: int| 0 <= j < r.sub_chips@.len() ==> chip_copy(chips_of(board_data@)[j], #[trigger] r.sub_chips@[j]),
            r.chip_ins@ == ports_of(board_data@, policy.input_kind),
            r.chip_outs@ == ports_of(board_data@, policy.output_kind),
            r.n_in == r.chip_ins@.len(),
            r.n_out == r.chip_outs@.len(),
    {
        let mut chip = ChipDefenition::create_blank_chip(name, id);
        let n = board_data.len();
        let mut k: usize = 0;
        while k < n
            invariant
                n == board_data@.len(),
                k <= n,
                chip.id == id,
                chip.name == name,
                chip.position is None,
                ({
                    let sub = board_data@.subrange(0, k as int);
                    &&& chip.sub_gates@.len() == gates_of(sub).len()
                    &&& forall|j: int| 0 <= j < chip.sub_gates@.len() ==> gate_copy(gates_of(sub)[j], #[trigger] chip.sub_gates@[j])
                    &&& chip.sub_wires@ == wires_of(sub)
                    &&& chip.sub_inputs@.len() == inputs_of(sub).len()
                    &&& forall|j: int| 0 <= j < chip.sub_inputs@.len() ==> input_copy(inputs_of(sub)[j], #[trigger] chip.sub_inputs@[j])
                    &&& chip.sub_outputs@.len() == outputs_of(sub).len()
                    &&& forall|j: int| 0 <= j < chip.sub_outputs@.len() ==> output_copy(outputs_of(sub)[j], #[trigger] chip.sub_outputs@[j])
                    &&& chip.sub_chips@.len() == chips_of(sub).len()
                    &&& forall|j: int| 0 <= j < chip.sub_chips@.len() ==> chip_copy(chips_of(sub)[j], #[trigger] chip.sub_chips@[j])
                    &&& chip.chip_ins@ == ports_of(sub, policy.input_kind)
                    &&& chip.chip_outs@ == ports_of(sub, policy.output_kind)
                }),
            decreases n - k,
        {
            let ghost before = board_data@.subrange(0, k as int);
            let ghost after = board_data@.subrange(0, k as int + 1);
            proof {
                assert(after.drop_last() =~= before);
                assert(after.last() == board_data@[k as int]);
            }
            match &board_data[k] {
                Some(Logical::Gate(g)) => {
                    chip.sub_gates.push(g.duplicate());
                    if g.kind == GateKind::Primitive(policy.input_kind) {
                        chip.chip_ins.push((g.id, g.state));
                    }
                    if g.kind == GateKind::Primitive(policy.output_kind) {
                        chip.chip_outs.push((g.id, g.state));
                    }
                },
                Some(Logical::Wire(w)) => {
                    chip.sub_wires.push(*w);
                },
                Some(Logical::Input(i)) => {
                    chip.sub_inputs.push(i.duplicate());
                },
                Some(Logical::Output(o)) => {
                    chip.sub_outputs.push(o.duplicate());
                },
                Some(Logical::Chip(c)) => {
                    chip.sub_chips.push(c.duplicate());
                },
                _ => {},
            }
            k = k + 1;
        }
        proof {
            assert(board_data@.subrange(0, n as int) =~= board_data@);
        }
        chip.n_in = chip.chip_ins.len();
        chip.n_out = chip.chip_outs.len();
        chip
    }
}

} // verus!
