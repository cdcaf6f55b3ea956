use vstd::prelude::*;

use crate::kind::{GateKind, IOKind, LogicalKind, PrimitiveKind};
use crate::primitive::{evaluate, evaluate_primitive, Eval, SimError};

verus! {

/// A point on the canvas grid.
#[derive(Clone, Copy, Debug, PartialEq, Eq, Hash, Structural)]
pub struct GridVec2 {
    pub x: i64,
    pub y: i64,
}

impl GridVec2 {
    pub fn new(x: i64, y: i64) -> (r: Self)
        ensures
            r.x == x,
            r.y == y,
    {
        GridVec2 { x, y }
    }
}

/// The drawn segment of a wire; it plays no part in simulation.
#[derive(Clone, Copy, Debug, PartialEq, Eq, Hash, Structural)]
pub struct WireLine {
    pub p1: GridVec2,
    pub p2: GridVec2,
    pub smoothing: bool,
}

impl WireLine {
    pub fn new(p1: GridVec2, p2: GridVec2, smoothing: bool) -> (r: Self)
        ensures
            r == (WireLine { p1, p2, smoothing }),
    {
        WireLine { p1, p2, smoothing }
    }
}

/// A logic gate; its ports are separate elements named by id.
#[derive(Clone, Debug)]
pub struct Gate {
    pub label: String,
    pub id: usize,
    pub position: GridVec2,
    pub size: GridVec2,
    pub n_in: usize,
    pub ins: Vec<usize>,
    pub n_out: usize,
    pub outs: Vec<usize>,
    pub kind: GateKind,
    pub state: bool,
}

/// An input port: at most one wire ends at it.
#[derive(Clone, Debug)]
pub struct Input {
    pub id: usize,
    pub index: usize,
    pub name: Option<String>,
    pub parent_id: Option<usize>,
    pub signal: bool,
    pub source_wire_id: Option<usize>,
}

/// An output port: it may drive any number of wires.
#[derive(Clone, Debug)]
pub struct Output {
    pub id: usize,
    pub index: usize,
    pub name: Option<String>,
    pub parent_id: Option<usize>,
    pub signal: bool,
    pub out_wire_ids: Vec<usize>,
}

/// A wire from an output to (once bound) an input.
#[derive(Clone, Copy, Debug)]
pub struct Wire {
    pub id: usize,
    pub signal: bool,
    pub source_id: usize,
    pub dest: Option<usize>,
    pub connected: bool,
    pub line: WireLine,
}

/// A composite element made from a captured part of a circuit.
#[derive(Debug)]
pub struct ChipDefenition {
    pub id: usize,
    pub name: String,
    pub position: Option<GridVec2>,
    pub sub_gates: Vec<Gate>,
    pub sub_wires: Vec<Wire>,
    pub sub_inputs: Vec<Input>,
    pub sub_outputs: Vec<Output>,
    pub sub_chips: Vec<ChipDefenition>,
    pub n_in: usize,
    pub chip_ins: Vec<(usize, bool)>,
    pub n_out: usize,
    pub chip_outs: Vec<(usize, bool)>,
}

/// One element of the arena.
#[derive(Debug)]
pub enum Logical {
    Gate(Gate),
    Wire(Wire),
    Input(Input),
    Output(Output),
    Chip(ChipDefenition),
}

/// What a gate does in one evaluation: a primitive's semantics, failing
/// when it has no output to drive; other gates cannot be evaluated.
pub open spec fn gate_eval(g: Gate, ins: Seq<bool>) -> Result<Eval, SimError> {
    match g.kind {
        GateKind::Primitive(k) => match evaluate(k, ins, g.state) {
            Ok(e) => if e.output is Some && g.outs@.len() == 0 {
                Err(SimError::MissingElement)
            } else {
                Ok(e)
            },
            Err(err) => Err(err),
        },
        _ => Err(SimError::InvalidOperation),
    }
}

/// A gate after an evaluation: its state is replaced on success.
pub open spec fn gate_after(g: Gate, ins: Seq<bool>) -> Gate {
    match gate_eval(g, ins) {
        Ok(e) => Gate { state: e.state, ..g },
        Err(_) => g,
    }
}

/// The signal a gate drives on its first output, if the evaluation succeeds.
pub open spec fn gate_drive(g: Gate, ins: Seq<bool>) -> Option<bool> {
    match gate_eval(g, ins) {
        Ok(e) => e.output,
        Err(_) => None,
    }
}

/// The effect of a click on a gate: TOGGLE and PULSE flip their state.
pub open spec fn gate_clicked(g: Gate) -> Gate {
    if g.kind == GateKind::Primitive(PrimitiveKind::TOGGLE) || g.kind == GateKind::Primitive(
        PrimitiveKind::PULSE,
    ) {
        Gate { state: !g.state, ..g }
    } else {
        g
    }
}

impl PrimitiveKind {
    /// Evaluates `gate`, of this kind, on the signals at its inputs.
    pub fn tick(&self, gate: &mut Gate, ins: &Vec<bool>) -> (r: Result<Option<(usize, bool)>, SimError>)
        requires
            old(gate).kind == GateKind::Primitive(*self),
        ensures
            *final(gate) == gate_after(*old(gate), ins@),
            match gate_eval(*old(gate), ins@) {
                Ok(e) => r == Ok::<Option<(usize, bool)>, SimError>(
                    match e.output {
                        Some(v) => Some((old(gate).outs@[0], v)),
                        None => None,
                    },
                ),
                Err(err) => r == Err::<Option<(usize, bool)>, SimError>(err),
            },
    {
        let e = evaluate_primitive(*self, ins, gate.state);
        match e {
            Err(err) => Err(err),
            Ok(e) => {
                match e.output {
                    Some(v) => {
                        if gate.outs.len() == 0 {
                            return Err(SimError::MissingElement);
                        }
                        gate.state = e.state;
                        Ok(Some((gate.outs[0], v)))
                    },
                    None => {
                        gate.state = e.state;
                        Ok(None)
                    },
                }
            },
        }
    }
}

impl Gate {
    /// Evaluates this gate on the signals at its inputs, updating its state.
    pub fn tick(&mut self, ins: &Vec<bool>) -> (r: Result<Option<(usize, bool)>, SimError>)
        ensures
            *final(self) == gate_after(*old(self), ins@),
            match gate_eval(*old(self), ins@) {
                Ok(e) => r == Ok::<Option<(usize, bool)>, SimError>(
                    match e.output {
                        Some(v) => Some((old(self).outs@[0], v)),
                        None => None,
                    },
                ),
                Err(err) => r == Err::<Option<(usize, bool)>, SimError>(err),
            },
    {
        match self.kind {
            GateKind::Primitive(k) => k.tick(self, ins),
            _ => Err(SimError::InvalidOperation),
        }
    }

    /// A click on this gate: TOGGLE and PULSE flip their state, others ignore it.
    pub fn click_on(&mut self)
        ensures
            *final(self) == gate_clicked(*old(self)),
    {
        match self.kind {
            GateKind::Primitive(PrimitiveKind::PULSE) | GateKind::Primitive(
                PrimitiveKind::TOGGLE,
            ) => {
                self.state = !self.state;
            },
            _ => {},
        }
    }
}

impl Wire {
    /// Drops the wire's destination and its signal.
    pub fn delete(&mut self)
        ensures
            *final(self) == (Wire { connected: false, dest: None, signal: false, ..*old(self) }),
    {
        self.connected = false;
        self.dest = None;
        self.signal = false;
    }

    pub fn set_signal(&mut self, signal: bool)
        ensures
            *final(self) == (Wire { signal, ..*old(self) }),
    {
        self.signal = signal;
    }

    pub fn set_positions(&mut self, p1: GridVec2, p2: GridVec2)
        ensures
            *final(self) == (Wire { line: WireLine { p1, p2, ..old(self).line }, ..*old(self) }),
    {
        self.line.p1 = p1;
        self.line.p2 = p2;
    }

    pub fn set_p1(&mut self, p1: GridVec2)
        ensures
            *final(self) == (Wire { line: WireLine { p1, ..old(self).line }, ..*old(self) }),
    {
        self.line.p1 = p1;
    }

    pub fn set_p2(&mut self, p2: GridVec2)
        ensures
            *final(self) == (Wire { line: WireLine { p2, ..old(self).line }, ..*old(self) }),
    {
        self.line.p2 = p2;
    }
}

/// The id an element carries.
pub open spec fn elem_id(e: Logical) -> usize {
    match e {
        Logical::Gate(g) => g.id,
        Logical::Wire(w) => w.id,
        Logical::Input(i) => i.id,
        Logical::Output(o) => o.id,
        Logical::Chip(c) => c.id,
    }
}

impl Logical {
    pub fn get_id(&self) -> (r: usize)
        ensures
            r == elem_id(*self),
    {
        match self {
            Logical::Gate(g) => g.id,
            Logical::Wire(w) => w.id,
            Logical::Input(i) => i.id,
            Logical::Output(o) => o.id,
            Logical::Chip(c) => c.id,
        }
    }

    pub fn get_kind(&self) -> (r: LogicalKind)
        ensures
            match *self {
                Logical::Gate(g) => r == LogicalKind::Gate(g.kind),
                Logical::Wire(_) => r == LogicalKind::Wire,
                Logical::Input(_) => r == LogicalKind::IO(IOKind::Input),
                Logical::Output(_) => r == LogicalKind::IO(IOKind::Output),
                Logical::Chip(c) => r is Chip && r->Chip_0@ == c.name@,
            },
    {
        match self {
            Logical::Gate(g) => LogicalKind::Gate(g.kind),
            Logical::Wire(_) => LogicalKind::Wire,
            Logical::Input(_) => LogicalKind::IO(IOKind::Input),
            Logical::Output(_) => LogicalKind::IO(IOKind::Output),
            Logical::Chip(c) => LogicalKind::Chip(c.name.clone()),
        }
    }

    /// The signal an element shows: a port's or a wire's signal, a gate's state.
    pub fn get_signal(&self) -> (r: Option<bool>)
        ensures
            match *self {
                Logical::Gate(g) => r == Some(g.state),
                Logical::Wire(w) => r == Some(w.signal),
                Logical::Input(i) => r == Some(i.signal),
                Logical::Output(o) => r == Some(o.signal),
                Logical::Chip(_) => r is None,
            },
    {
        match self {
            Logical::Gate(g) => Some(g.state),
            Logical::Wire(w) => Some(w.signal),
            Logical::Input(i) => Some(i.signal),
            Logical::Output(o) => Some(o.signal),
            Logical::Chip(_) => None,
        }
    }

    /// Where an element stands. Ports have no position of their own.
    pub fn get_position(&self) -> (r: Result<GridVec2, SimError>)
        ensures
            match *self {
                Logical::Gate(g) => r == Ok::<GridVec2, SimError>(g.position),
                Logical::Wire(w) => r == Ok::<GridVec2, SimError>(w.line.p1),
                Logical::Chip(c) => match c.position {
                    Some(p) => r == Ok::<GridVec2, SimError>(p),
                    None => r == Err::<GridVec2, SimError>(SimError::InvalidOperation),
                },
                _ => r == Err::<GridVec2, SimError>(SimError::InvalidOperation),
            },
    {
        match self {
            Logical::Gate(g) => Ok(g.position),
            Logical::Wire(w) => Ok(w.line.p1),
            Logical::Chip(c) => match c.position {
                Some(p) => Ok(p),
                None => Err(SimError::InvalidOperation),
            },
            _ => Err(SimError::InvalidOperation),
        }
    }

    /// Moves a gate or a chip. Ports follow their gate; a wire's ends are
    /// set with `Wire::set_positions`.
    pub fn set_position(&mut self, pos: GridVec2) -> (r: Result<(), SimError>)
        ensures
            match *old(self) {
                Logical::Gate(g) => r is Ok && *final(self) == Logical::Gate(
                    Gate { position: pos, ..g },
                ),
                Logical::Chip(c) => r is Ok && *final(self) == Logical::Chip(
                    ChipDefenition { position: Some(pos), ..c },
                ),
                _ => r == Err::<(), SimError>(SimError::InvalidOperation) && *final(self)
                    == *old(self),
            },
    {
        match self {
            Logical::Gate(g) => {
                g.position = pos;
                Ok(())
            },
            Logical::Chip(c) => {
                c.position = Some(pos);
                Ok(())
            },
            _ => Err(SimError::InvalidOperation),
        }
    }
}

} // verus!
