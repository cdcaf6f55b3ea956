use vstd::prelude::*;

use crate::kind::{arity, kind_of_label, primitive_kind_from_label, PrimitiveKind};

verus! {

/// The ways an operation of the core can fail.
#[derive(Clone, Copy, Debug, PartialEq, Eq, Hash, Structural)]
pub enum SimError {
    /// A primitive received more inputs than its kind accepts.
    InvalidInputArity,
    /// The operation makes no sense for the element it was asked of.
    InvalidOperation,
    /// A lookup found nothing.
    MissingElement,
    /// A second wire was bound to an input that already has one.
    ConstraintViolation,
}

/// What one evaluation of a primitive yields: the signal it drives (if it
/// drives one) and its new internal state.
#[derive(Clone, Copy, Debug, PartialEq, Eq, Hash, Structural)]
pub struct Eval {
    pub output: Option<bool>,
    pub state: bool,
}

/// Some input is high.
pub open spec fn seq_any(s: Seq<bool>) -> bool {
    exists|i: int| 0 <= i < s.len() && s[i]
}

/// Every input is high.
pub open spec fn seq_all(s: Seq<bool>) -> bool {
    forall|i: int| 0 <= i < s.len() ==> s[i]
}

/// Number of high inputs.
pub open spec fn count_high(s: Seq<bool>) -> nat
    decreases s.len(),
{
    if s.len() == 0 {
        0
    } else {
        count_high(s.drop_last()) + if s.last() {
            1nat
        } else {
            0nat
        }
    }
}

/// The combinational result of a two-input kind over its inputs.
pub open spec fn combine(k: PrimitiveKind, ins: Seq<bool>) -> bool {
    match k {
        PrimitiveKind::OR => seq_any(ins),
        PrimitiveKind::AND => seq_all(ins),
        PrimitiveKind::XOR => count_high(ins) % 2 == 1,
        PrimitiveKind::NAND => !seq_all(ins),
        _ => !seq_any(ins),
    }
}

/// The semantics of each primitive kind: inputs and prior state to the
/// driven signal and the new state.
pub open spec fn evaluate(k: PrimitiveKind, ins: Seq<bool>, state: bool) -> Result<Eval, SimError> {
    if ins.len() > arity(k) {
        Err(SimError::InvalidInputArity)
    } else {
        match k {
            PrimitiveKind::HISIGNAL => Ok(Eval { output: Some(true), state: true }),
            PrimitiveKind::LOSIGNAL => Ok(Eval { output: Some(false), state: false }),
            PrimitiveKind::PULSE => Ok(Eval { output: Some(state), state: false }),
            PrimitiveKind::TOGGLE => Ok(Eval { output: Some(state), state: state }),
            PrimitiveKind::LIGHT => Ok(
                Eval {
                    output: None,
                    state: if ins.len() > 0 {
                        ins[0]
                    } else {
                        false
                    },
                },
            ),
            PrimitiveKind::BUFFER => if ins.len() == 0 {
                Err(SimError::MissingElement)
            } else {
                Ok(Eval { output: Some(ins[0]), state: state })
            },
            PrimitiveKind::NOT => if ins.len() == 0 {
                Err(SimError::MissingElement)
            } else {
                Ok(Eval { output: Some(!ins[0]), state: state })
            },
            PrimitiveKind::OR
            | PrimitiveKind::AND
            | PrimitiveKind::XOR
            | PrimitiveKind::NAND
            | PrimitiveKind::NOR => Ok(
                Eval { output: Some(combine(k, ins)), state: combine(k, ins) },
            ),
            PrimitiveKind::Unknown => Err(SimError::InvalidOperation),
        }
    }
}

pub(crate) proof fn lemma_small_seq(ins: Seq<bool>)
    requires
        ins.len() <= 2,
    ensures
        ins.len() == 0 ==> !seq_any(ins) && seq_all(ins) && count_high(ins) == 0,
        ins.len() == 1 ==> seq_any(ins) == ins[0] && seq_all(ins) == ins[0] && count_high(ins)
            == (if ins[0] {
            1nat
        } else {
            0nat
        }),
        ins.len() == 2 ==> seq_any(ins) == (ins[0] || ins[1]) && seq_all(ins) == (ins[0]
            && ins[1]) && count_high(ins) == (if ins[0] {
            1nat
        } else {
            0nat
        }) + (if ins[1] {
            1nat
        } else {
            0nat
        }),
{
    reveal_with_fuel(count_high, 3);
    if ins.len() == 2 {
        assert(ins.drop_last().drop_last().len() == 0);
        assert(ins.drop_last().last() == ins[0]);
        if ins[0] {
            assert(0 <= 0 < ins.len() && ins[0]);
        }
        if ins[1] {
            assert(0 <= 1 < ins.len() && ins[1]);
        }
        if ins[0] && ins[1] {
            assert forall|i: int| 0 <= i < ins.len() implies ins[i] by {
                if i == 0 {
                } else {
                }
            }
        }
    } else if ins.len() == 1 {
        assert(ins.drop_last().len() == 0);
        if ins[0] {
            assert(0 <= 0 < ins.len() && ins[0]);
        }
    }
}

/// Evaluates one primitive: its kind, the signals at its inputs and its
/// prior state.
pub fn evaluate_primitive(k: PrimitiveKind, ins: &Vec<bool>, state: bool) -> (r: Result<
    Eval,
    SimError,
>)
    ensures
        r == evaluate(k, ins@, state),
{
    if ins.len() > k.get_n_desired_inputs() {
        return Err(SimError::InvalidInputArity);
    }
    proof {
        lemma_small_seq(ins@);
    }
    let n = ins.len();
    match k {
        PrimitiveKind::HISIGNAL => Ok(Eval { output: Some(true), state: true }),
        PrimitiveKind::LOSIGNAL => Ok(Eval { output: Some(false), state: false }),
        PrimitiveKind::PULSE => Ok(Eval { output: Some(state), state: false }),
        PrimitiveKind::TOGGLE => Ok(Eval { output: Some(state), state: state }),
        PrimitiveKind::LIGHT => {
            let s = if n > 0 {
                ins[0]
            } else {
                false
            };
            Ok(Eval { output: None, state: s })
        },
        PrimitiveKind::BUFFER => {
            if n == 0 {
                Err(SimError::MissingElement)
            } else {
                Ok(Eval { output: Some(ins[0]), state: state })
            }
        },
        PrimitiveKind::NOT => {
            if n == 0 {
                Err(SimError::MissingElement)
            } else {
                Ok(Eval { output: Some(!ins[0]), state: state })
            }
        },
        PrimitiveKind::Unknown => Err(SimError::InvalidOperation),
        _ => {
            let a = n > 0 && ins[0];
            let b = n > 1 && ins[1];
            let any = a || b;
            let all = (n < 1 || ins[0]) && (n < 2 || ins[1]);
            let result = match k {
                PrimitiveKind::OR => any,
                PrimitiveKind::AND => all,
                PrimitiveKind::XOR => a != b,
                PrimitiveKind::NAND => !all,
                _ => !any,
            };
            Ok(Eval { output: Some(result), state: result })
        },
    }
}

/// A template from which gates of a primitive kind are made.
#[derive(Clone, Debug, Hash)]
pub struct PrimitiveTemplate {
    pub label: String,
    pub kind: PrimitiveKind,
    pub n_ins: usize,
    pub n_outs: usize,
}

impl PrimitiveTemplate {
    pub fn from_values(label: &str, num_inputs: usize, num_outputs: usize) -> (r: PrimitiveTemplate)
        ensures
            r.label@ == label@,
            r.kind == kind_of_label(label@),
            r.n_ins == num_inputs,
            r.n_outs == num_outputs,
    {
        PrimitiveTemplate {
            label: label.to_owned(),
            kind: primitive_kind_from_label(label),
            n_ins: num_inputs,
            n_outs: num_outputs,
        }
    }
}

} // verus!
