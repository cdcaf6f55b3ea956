use vstd::prelude::*;

verus! {

/// The built-in gate kinds with fixed semantics.
#[derive(Clone, Copy, Debug, PartialEq, Eq, Hash, Structural)]
pub enum PrimitiveKind {
    Unknown,
    HISIGNAL,
    LOSIGNAL,
    PULSE,
    TOGGLE,
    LIGHT,
    BUFFER,
    NOT,
    OR,
    AND,
    XOR,
    NAND,
    NOR,
}

/// What a gate is: not yet set, a primitive, or a user-made composite.
#[derive(Clone, Copy, Debug, PartialEq, Eq, Hash, Structural)]
pub enum GateKind {
    Unset,
    Primitive(PrimitiveKind),
    Custom,
}

/// The two sides of a port.
#[derive(Clone, Copy, Debug, PartialEq, Eq, Hash, Structural)]
pub enum IOKind {
    Input,
    Output,
}

/// The variant of an element in the arena, as seen by the renderer.
#[derive(Clone, Debug, PartialEq, Eq, Hash)]
pub enum LogicalKind {
    Gate(GateKind),
    Wire,
    IO(IOKind),
    Chip(String),
}

/// An operation that makes no sense for the element it was asked of.
#[derive(Clone, Debug, PartialEq, Eq, Hash)]
pub struct InvalidOperationError(pub String);

impl InvalidOperationError {
    pub fn new(msg: &str) -> (r: Self)
        ensures
            r.0@ == msg@,
    {
        InvalidOperationError(msg.to_owned())
    }
}

/// Number of input signals a primitive kind accepts.
pub open spec fn arity(k: PrimitiveKind) -> nat {
    match k {
        PrimitiveKind::LIGHT | PrimitiveKind::BUFFER | PrimitiveKind::NOT => 1,
        PrimitiveKind::OR
        | PrimitiveKind::AND
        | PrimitiveKind::XOR
        | PrimitiveKind::NAND
        | PrimitiveKind::NOR => 2,
        _ => 0,
    }
}

/// Number of outputs a primitive kind drives.
pub open spec fn n_outputs(k: PrimitiveKind) -> nat {
    match k {
        PrimitiveKind::LIGHT => 0,
        _ => 1,
    }
}

/// The display label of each primitive kind.
pub open spec fn label_of(k: PrimitiveKind) -> Seq<char> {
    match k {
        PrimitiveKind::Unknown => "None"@,
        PrimitiveKind::HISIGNAL => "HI-SIGNAL"@,
        PrimitiveKind::LOSIGNAL => "LO-SIGNAL"@,
        PrimitiveKind::PULSE => "PULSE"@,
        PrimitiveKind::TOGGLE => "TOGGLE"@,
        PrimitiveKind::LIGHT => "LIGHT"@,
        PrimitiveKind::BUFFER => "BUFFER"@,
        PrimitiveKind::NOT => "NOT"@,
        PrimitiveKind::OR => "OR"@,
        PrimitiveKind::AND => "AND"@,
        PrimitiveKind::XOR => "XOR"@,
        PrimitiveKind::NAND => "NAND"@,
        PrimitiveKind::NOR => "NOR"@,
    }
}

/// The primitive kind named by a label; unknown labels give `Unknown`.
pub open spec fn kind_of_label(s: Seq<char>) -> PrimitiveKind {
    if s == "HI-SIGNAL"@ {
        PrimitiveKind::HISIGNAL
    } else if s == "LO-SIGNAL"@ {
        PrimitiveKind::LOSIGNAL
    } else if s == "PULSE"@ {
        PrimitiveKind::PULSE
    } else if s == "TOGGLE"@ {
        PrimitiveKind::TOGGLE
    } else if s == "LIGHT"@ {
        PrimitiveKind::LIGHT
    } else if s == "BUFFER"@ {
        PrimitiveKind::BUFFER
    } else if s == "NOT"@ {
        PrimitiveKind::NOT
    } else if s == "OR"@ {
        PrimitiveKind::OR
    } else if s == "AND"@ {
        PrimitiveKind::AND
    } else if s == "XOR"@ {
        PrimitiveKind::XOR
    } else if s == "NAND"@ {
        PrimitiveKind::NAND
    } else if s == "NOR"@ {
        PrimitiveKind::NOR
    } else {
        PrimitiveKind::Unknown
    }
}

/// Whether `label` spells `name`.
pub fn label_is(label: &str, name: &str) -> (r: bool)
    ensures
        r == (label@ == name@),
{
    label.to_owned() == name.to_owned()
}

/// Reads a primitive kind from its label.
pub fn primitive_kind_from_label(label: &str) -> (r: PrimitiveKind)
    ensures
        r == kind_of_label(label@),
{
    proof {
        reveal_strlit("HI-SIGNAL");
        reveal_strlit("LO-SIGNAL");
        reveal_strlit("PULSE");
        reveal_strlit("TOGGLE");
        reveal_strlit("LIGHT");
        reveal_strlit("BUFFER");
        reveal_strlit("NOT");
        reveal_strlit("OR");
        reveal_strlit("AND");
        reveal_strlit("XOR");
        reveal_strlit("NAND");
        reveal_strlit("NOR");
    }
    if label_is(label, "HI-SIGNAL") {
        PrimitiveKind::HISIGNAL
    } else if label_is(label, "LO-SIGNAL") {
        PrimitiveKind::LOSIGNAL
    } else if label_is(label, "PULSE") {
        PrimitiveKind::PULSE
    } else if label_is(label, "TOGGLE") {
        PrimitiveKind::TOGGLE
    } else if label_is(label, "LIGHT") {
        PrimitiveKind::LIGHT
    } else if label_is(label, "BUFFER") {
        PrimitiveKind::BUFFER
    } else if label_is(label, "NOT") {
        PrimitiveKind::NOT
    } else if label_is(label, "OR") {
        PrimitiveKind::OR
    } else if label_is(label, "AND") {
        PrimitiveKind::AND
    } else if label_is(label, "XOR") {
        PrimitiveKind::XOR
    } else if label_is(label, "NAND") {
        PrimitiveKind::NAND
    } else if label_is(label, "NOR") {
        PrimitiveKind::NOR
    } else {
        PrimitiveKind::Unknown
    }
}

impl PrimitiveKind {
    pub fn get_n_desired_inputs(&self) -> (r: usize)
        ensures
            r == arity(*self),
    {
        match self {
            PrimitiveKind::LIGHT | PrimitiveKind::BUFFER | PrimitiveKind::NOT => 1,
            PrimitiveKind::OR
            | PrimitiveKind::AND
            | PrimitiveKind::XOR
            | PrimitiveKind::NAND
            | PrimitiveKind::NOR => 2,
            _ => 0,
        }
    }

    pub fn get_n_outputs(&self) -> (r: usize)
        ensures
            r == n_outputs(*self),
    {
        match self {
            PrimitiveKind::LIGHT => 0,
            _ => 1,
        }
    }

    pub fn get_gate_kind(&self) -> (r: GateKind)
        ensures
            r == GateKind::Primitive(*self),
    {
        GateKind::Primitive(*self)
    }

    pub fn get_logical_kind(&self) -> (r: LogicalKind)
        ensures
            r == LogicalKind::Gate(GateKind::Primitive(*self)),
    {
        LogicalKind::Gate(GateKind::Primitive(*self))
    }

    /// The label under which the kind is shown.
    pub fn to_label(&self) -> (r: String)
        ensures
            r@ == label_of(*self),
    {
        let s: &str = match self {
            PrimitiveKind::Unknown => "None",
            PrimitiveKind::HISIGNAL => "HI-SIGNAL",
            PrimitiveKind::LOSIGNAL => "LO-SIGNAL",
            PrimitiveKind::PULSE => "PULSE",
            PrimitiveKind::TOGGLE => "TOGGLE",
            PrimitiveKind::LIGHT => "LIGHT",
            PrimitiveKind::BUFFER => "BUFFER",
            PrimitiveKind::NOT => "NOT",
            PrimitiveKind::OR => "OR",
            PrimitiveKind::AND => "AND",
            PrimitiveKind::XOR => "XOR",
            PrimitiveKind::NAND => "NAND",
            PrimitiveKind::NOR => "NOR",
        };
        s.to_owned()
    }
}

/// The label a gate kind is shown under.
pub open spec fn gate_kind_label(k: GateKind) -> Seq<char> {
    match k {
        GateKind::Unset => "None"@,
        GateKind::Primitive(p) => label_of(p),
        GateKind::Custom => "Custom"@,
    }
}

impl GateKind {
    /// The label under which the kind is shown.
    pub fn to_label(&self) -> (r: String)
        ensures
            r@ == gate_kind_label(*self),
    {
        match self {
            GateKind::Unset => "None".to_owned(),
            GateKind::Primitive(p) => p.to_label(),
            GateKind::Custom => "Custom".to_owned(),
        }
    }
}

impl LogicalKind {
    pub fn is_gate(&self) -> (r: bool)
        ensures
            r == (*self is Gate),
    {
        matches!(self, LogicalKind::Gate(_))
    }

    pub fn is_primitive(&self) -> (r: bool)
        ensures
            r == (*self is Gate && self->Gate_0 is Primitive),
    {
        matches!(self, LogicalKind::Gate(GateKind::Primitive(_)))
    }

    pub fn is_primitive_kind(&self, kind: PrimitiveKind) -> (r: bool)
        ensures
            r == (*self == LogicalKind::Gate(GateKind::Primitive(kind))),
    {
        if let LogicalKind::Gate(GateKind::Primitive(primitive_kind)) = self {
            *primitive_kind == kind
        } else {
            false
        }
    }

    pub fn is_wire(&self) -> (r: bool)
        ensures
            r == (*self is Wire),
    {
        matches!(self, LogicalKind::Wire)
    }

    pub fn is_io(&self) -> (r: bool)
        ensures
            r == (*self is IO),
    {
        matches!(self, LogicalKind::IO(_))
    }

    pub fn is_input(&self) -> (r: bool)
        ensures
            r == (*self == LogicalKind::IO(IOKind::Input)),
    {
        matches!(self, LogicalKind::IO(IOKind::Input))
    }

    pub fn is_output(&self) -> (r: bool)
        ensures
            r == (*self == LogicalKind::IO(IOKind::Output)),
    {
        matches!(self, LogicalKind::IO(IOKind::Output))
    }

    pub fn as_gate(&self) -> (r: Result<GateKind, InvalidOperationError>)
        ensures
            match *self {
                LogicalKind::Gate(k) => r == Ok::<GateKind, InvalidOperationError>(k),
                _ => r is Err,
            },
    {
        if let LogicalKind::Gate(gate_kind) = self {
            Ok(*gate_kind)
        } else {
            Err(InvalidOperationError::new("Not a gate kind"))
        }
    }
}

} // verus!
