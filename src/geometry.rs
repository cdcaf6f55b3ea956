use vstd::prelude::*;

use crate::arena::{gate_at, input_at, output_at, Data};
use crate::element::{GridVec2, Logical, Wire, WireLine};
use crate::engine::{lemma_same_shape, same_shape};
use crate::primitive::SimError;

verus! {

/// Horizontal distance from a gate's centre to its ports.
pub const PORT_X_OFFSET: i64 = 50;

/// Vertical distance between neighbouring ports, halved.
pub const PORT_HALF_SPACING: i64 = 15;

/// Vertical offset of port `index` of `count`, centred on its gate.
pub open spec fn port_offset(index: nat, count: nat) -> int {
    (2 * index - count + 1) * PORT_HALF_SPACING
}

/// Whether a value fits an `i64`.
pub open spec fn fits(v: int) -> bool {
    i64::MIN <= v <= i64::MAX
}

/// Where port `k` is drawn: beside its parent gate, inputs on the left and
/// outputs on the right, spread evenly along that side. `None` where
/// `k` is not a port, its parent is not a gate, or the point is off the grid.
pub open spec fn port_point(s: Seq<Option<Logical>>, k: int) -> Option<(int, int)> {
    let (parent, index, side) = match input_at(s, k) {
        Some(i) => (i.parent_id, i.index, -1int),
        None => match output_at(s, k) {
            Some(o) => (o.parent_id, o.index, 1int),
            None => (None, 0usize, 0int),
        },
    };
    match parent {
        Some(p) => match gate_at(s, p as int) {
            Some(g) => {
                let count = if side < 0 {
                    g.n_in
                } else {
                    g.n_out
                };
                let x = g.position.x + side * PORT_X_OFFSET;
                let y = g.position.y + port_offset(index as nat, count as nat);
                if side != 0 && fits(x) && fits(y) {
                    Some((x, y))
                } else {
                    None
                }
            },
            None => None,
        },
        None => None,
    }
}

/// `p` moved against the pan offset, when that stays on the grid.
pub open spec fn panned(p: (int, int), pan: GridVec2) -> Option<GridVec2> {
    let x = p.0 - pan.x;
    let y = p.1 - pan.y;
    if fits(x) && fits(y) {
        Some(GridVec2 { x: x as i64, y: y as i64 })
    } else {
        None
    }
}

/// Where port `k` appears on screen, if it has a position.
pub open spec fn port_screen(s: Seq<Option<Logical>>, k: int, pan: GridVec2) -> Option<GridVec2> {
    match port_point(s, k) {
        Some(p) => panned(p, pan),
        None => None,
    }
}

/// The drawn line of wire `w` (stored under `k`) for this frame. A held
/// wire runs from its source to the pointer; a connected wire from its
/// source to its destination (or to its source, when the destination has
/// no position). Ends whose position is unknown stay as they were.
pub open spec fn wire_line(
    s: Seq<Option<Logical>>,
    h: Option<usize>,
    k: int,
    w: Wire,
    pointer: Option<GridVec2>,
    pan: GridVec2,
) -> WireLine {
    let src = port_screen(s, w.source_id as int, pan);
    let held = if h == Some(k as usize) {
        WireLine {
            p1: match src {
                Some(p) => p,
                None => w.line.p1,
            },
            p2: match pointer {
                Some(p) => p,
                None => w.line.p2,
            },
            ..w.line
        }
    } else {
        w.line
    };
    if w.connected {
        match src {
            Some(p) => WireLine {
                p1: p,
                p2: match w.dest {
                    Some(d) => match port_screen(s, d as int, pan) {
                        Some(q) => q,
                        None => p,
                    },
                    None => p,
                },
                ..held
            },
            None => held,
        }
    } else {
        held
    }
}

impl Data {
    /// Where port `id` is drawn, from its parent gate's position.
    pub fn port_position(&self, id: usize) -> (r: Result<GridVec2, SimError>)
        ensures
            match port_point(self.live_data@, id as int) {
                Some(p) => r == Ok::<GridVec2, SimError>(GridVec2 { x: p.0 as i64, y: p.1 as i64 }),
                None => r is Err,
            },
            id >= self.live_data@.len() || self.live_data@[id as int] is None ==> r == Err::<
                GridVec2,
                SimError,
            >(SimError::MissingElement),
    {
        if id >= self.live_data.len() {
            return Err(SimError::MissingElement);
        }
        let (parent, index, side): (Option<usize>, usize, i128) = match &self.live_data[id] {
            None => {
                return Err(SimError::MissingElement);
            },
            Some(Logical::Input(i)) => (i.parent_id, i.index, -1),
            Some(Logical::Output(o)) => (o.parent_id, o.index, 1),
            Some(_) => {
                return Err(SimError::InvalidOperation);
            },
        };
        let p = match parent {
            Some(p) => p,
            None => {
                return Err(SimError::InvalidOperation);
            },
        };
        if p >= self.live_data.len() {
            return Err(SimError::MissingElement);
        }
        let (gx, gy, count) = match &self.live_data[p] {
            Some(Logical::Gate(g)) => (
                g.position.x,
                g.position.y,
                if side < 0 {
                    g.n_in
                } else {
                    g.n_out
                },
            ),
            _ => {
                return Err(SimError::InvalidOperation);
            },
        };
        let x: i128 = gx as i128 + side * (PORT_X_OFFSET as i128);
        let d: i128 = 2 * (index as i128) - (count as i128) + 1;
        proof {
            assert(-0x1_0000_0000_0000_0000 <= d <= 0x2_0000_0000_0000_0000);
            assert(-0x10_0000_0000_0000_0000 <= d * 15 <= 0x20_0000_0000_0000_0000) by (nonlinear_arith)
                requires
                    -0x1_0000_0000_0000_0000 <= d <= 0x2_0000_0000_0000_0000,
            ;
        }
        let y: i128 = gy as i128 + d * (PORT_HALF_SPACING as i128);
        if x < i64::MIN as i128 || x > i64::MAX as i128 || y < i64::MIN as i128 || y > i64::MAX as i128 {
            return Err(SimError::InvalidOperation);
        }
        Ok(GridVec2 { x: x as i64, y: y as i64 })
    }

    /// Where port `id` appears on screen.
    fn port_screen_position(&self, id: usize, pan: GridVec2) -> (r: Option<GridVec2>)
        ensures
            r == port_screen(self.live_data@, id as int, pan),
    {
        match self.port_position(id) {
            Ok(p) => {
                let x: i128 = p.x as i128 - pan.x as i128;
                let y: i128 = p.y as i128 - pan.y as i128;
                if x < i64::MIN as i128 || x > i64::MAX as i128 || y < i64::MIN as i128 || y > i64::MAX as i128 {
                    None
                } else {
                    Some(GridVec2 { x: x as i64, y: y as i64 })
                }
            },
            Err(_) => None,
        }
    }

    /// Lays out every wire's line for this frame: the held wire follows the
    /// pointer, and connected wires run between their ports, shifted by the
    /// pan offset. Nothing but the lines changes.
    pub fn update_wire_positions(&mut self, pointer: Option<GridVec2>, pan: GridVec2)
        requires
            old(self).wf(),
        ensures
            final(self).wf(),
            final(self).holding_wire == old(self).holding_wire,
            final(self).live_data@.len() == old(self).live_data@.len(),
            forall|k: int|
                0 <= k < old(self).live_data@.len() ==> final(self).live_data@[k] == match old(self).live_data@[k] {
                    Some(Logical::Wire(w)) => Some(
                        Logical::Wire(
                            Wire {
                                line: wire_line(old(self).live_data@, old(self).holding_wire, k, w, pointer, pan),
                                ..w
                            },
                        ),
                    ),
                    other => other,
                },
    {
        let ghost s = self.live_data@;
        let n = self.live_data.len();
        let mut k: usize = 0;
        while k < n
            invariant
                n == s.len(),
                k <= n,
                self.live_data@.len() == n,
                self.holding_wire == old(self).holding_wire,
                s == old(self).live_data@,
                forall|j: int| k <= j < n ==> self.live_data@[j] == s[j],
                forall|j: int|
                    0 <= j < k ==> self.live_data@[j] == match s[j] {
                        Some(Logical::Wire(w)) => Some(
                            Logical::Wire(Wire { line: wire_line(s, self.holding_wire, j, w, pointer, pan), ..w }),
                        ),
                        other => other,
                    },
            decreases n - k,
        {
            let info = match &self.live_data[k] {
                Some(Logical::Wire(w)) => Some((w.source_id, w.dest, w.connected)),
                _ => None,
            };
            match info {
                Some((src_id, dest, connected)) => {
                    let ghost before = self.live_data@;
                    let src = self.port_screen_position(src_id, pan);
                    let dst = match dest {
                        Some(d) => self.port_screen_position(d, pan),
                        None => None,
                    };
                    proof {
                        assert forall|j: int| 0 <= j < n implies port_screen(before, j, pan) == port_screen(s, j, pan) by {
                            assert(port_point(before, j) == port_point(s, j));
                        }
                    }
                    let held = self.holding_wire == Some(k);
                    match &mut self.live_data[k] {
                        Some(Logical::Wire(w)) => {
                            if held {
                                match src {
                                    Some(p) => {
                                        w.line.p1 = p;
                                    },
                                    None => {},
                                }
                                match pointer {
                                    Some(p) => {
                                        w.line.p2 = p;
                                    },
                                    None => {},
                                }
                            }
                            if connected {
                                match src {
                                    Some(p) => {
                                        w.line.p1 = p;
                                        w.line.p2 = match dst {
                                            Some(q) => q,
                                            None => p,
                                        };
                                    },
                                    None => {},
                                }
                            }
                        },
                        _ => {},
                    }
                },
                None => {},
            }
            k = k + 1;
        }
        proof {
            assert forall|j: int| 0 <= j < s.len() implies same_shape(#[trigger] s[j], self.live_data@[j]) by {}
            lemma_same_shape(s, self.live_data@, self.holding_wire);
        }
    }
}

} // verus!
