use vstd::prelude::*;

use crate::arena::{arena_ok, gate_at, gate_ok, holding_ok, input_at, input_ok, output_at, output_ok, wire_at, wire_ok, Data};
use crate::chip::copy_ids;
use crate::element::{elem_id, Input, Logical, Output};
use crate::interaction::{missing, wire_deleted, without};
use crate::primitive::SimError;

verus! {

/// Nothing in the arena refers to element `k`.
pub open spec fn unreferenced(s: Seq<Option<Logical>>, k: int) -> bool {
    &&& forall|j: int|
        #[trigger] gate_at(s, j) is Some && j != k ==> !gate_at(s, j)->Some_0.ins@.contains(k as usize)
            && !gate_at(s, j)->Some_0.outs@.contains(k as usize)
    &&& forall|j: int|
        #[trigger] wire_at(s, j) is Some ==> wire_at(s, j)->Some_0.source_id != k && wire_at(s, j)->Some_0.dest
            != Some(k as usize)
    &&& forall|j: int| #[trigger] input_at(s, j) is Some ==> input_at(s, j)->Some_0.source_wire_id != Some(k as usize)
    &&& forall|j: int| #[trigger] output_at(s, j) is Some ==> !output_at(s, j)->Some_0.out_wire_ids@.contains(k as usize)
}

/// `b` is what is left of element `a` after removals: gone, or the same
/// element with at most its wire references dropped.
pub open spec fn kept(a: Option<Logical>, b: Option<Logical>) -> bool {
    match (a, b) {
        (_, None) => true,
        (Some(Logical::Input(x)), Some(Logical::Input(y))) => y == Input { source_wire_id: y.source_wire_id, ..x },
        (Some(Logical::Output(x)), Some(Logical::Output(y))) => y == Output { out_wire_ids: y.out_wire_ids, ..x },
        _ => a == b,
    }
}

/// `t` is what is left of `s` after removals.
pub open spec fn shrunk(s: Seq<Option<Logical>>, t: Seq<Option<Logical>>) -> bool {
    &&& s.len() == t.len()
    &&& forall|k: int| 0 <= k < s.len() ==> kept(#[trigger] s[k], t[k])
}

/// The held wire after removals: dropped from the hand when it is gone.
pub open spec fn held_after(h: Option<usize>, t: Seq<Option<Logical>>) -> Option<usize> {
    if h is Some && t[h->Some_0 as int] is None {
        None
    } else {
        h
    }
}

/// Removing wire `w` keeps the hand as `held_after` describes it.
proof fn lemma_held_after_delete(
    s: Seq<Option<Logical>>,
    t: Seq<Option<Logical>>,
    w: int,
    h0: Option<usize>,
    hb: Option<usize>,
    ha: Option<usize>,
)
    requires
        arena_ok(s),
        s.len() <= usize::MAX,
        wire_at(s, w) is Some,
        wire_deleted(s, t, w),
        holding_ok(s, hb),
        h0 is Some ==> h0->Some_0 < s.len(),
        hb == held_after(h0, s),
        ha == (if hb == Some(w as usize) {
            None
        } else {
            hb
        }),
    ensures
        ha == held_after(h0, t),
{
    let wr = wire_at(s, w)->Some_0;
    assert(wire_ok(s, w, wr));
    if wr.dest is Some {
        assert(input_at(s, wr.dest->Some_0 as int) is Some);
    }
    if h0 is Some {
        let k = h0->Some_0 as int;
        if s[k] is Some {
            assert(wire_at(s, k) is Some);
        }
    }
}

/// Wire `k` of `s` starts at an output of gate `g` or ends at one of its inputs.
pub open spec fn touches(s: Seq<Option<Logical>>, g: int, k: int) -> bool {
    let gt = gate_at(s, g)->Some_0;
    let w = wire_at(s, k)->Some_0;
    &&& wire_at(s, k) is Some
    &&& gt.outs@.contains(w.source_id) || (w.dest is Some && gt.ins@.contains(w.dest->Some_0))
}

proof fn lemma_shrunk_trans(a: Seq<Option<Logical>>, b: Seq<Option<Logical>>, c: Seq<Option<Logical>>)
    requires
        shrunk(a, b),
        shrunk(b, c),
    ensures
        shrunk(a, c),
{
    assert forall|k: int| 0 <= k < a.len() implies kept(#[trigger] a[k], c[k]) by {
        assert(kept(a[k], b[k]));
        assert(kept(b[k], c[k]));
    }
}

proof fn lemma_deleted_shrinks(s: Seq<Option<Logical>>, t: Seq<Option<Logical>>, w: int)
    requires
        arena_ok(s),
        s.len() <= usize::MAX,
        wire_at(s, w) is Some,
        wire_deleted(s, t, w),
    ensures
        shrunk(s, t),
        forall|k: int| 0 <= k < s.len() && k != w ==> (#[trigger] t[k] is Some) == (s[k] is Some),
{
    let wr = wire_at(s, w)->Some_0;
    assert(wire_ok(s, w, wr));
    if wr.dest is Some {
        assert(input_at(s, wr.dest->Some_0 as int) is Some);
    }
    assert forall|k: int| 0 <= k < s.len() implies kept(#[trigger] s[k], t[k]) by {
        if k == w {
        } else if k == wr.source_id as int {
            assert(output_at(s, k) is Some);
        } else if wr.dest == Some(k as usize) {
            assert(input_at(s, k) is Some);
        } else {
            assert(t[k] == s[k]);
        }
    }
}

/// Clearing an element nothing refers to keeps the invariant.
proof fn lemma_clear_ok(s: Seq<Option<Logical>>, k: int, h: Option<usize>)
    requires
        arena_ok(s),
        0 <= k < s.len() <= usize::MAX,
        unreferenced(s, k),
        holding_ok(s, h),
        h != Some(k as usize),
    ensures
        arena_ok(s.update(k, None)),
        holding_ok(s.update(k, None), h),
{
    let t = s.update(k, None);
    assert forall|j: int| 0 <= j < t.len() && #[trigger] t[j] is Some implies elem_id(t[j]->Some_0) == j by {
        assert(s[j] is Some);
    }
    assert forall|j: int| #[trigger] gate_at(t, j) is Some implies gate_ok(t, j, gate_at(t, j)->Some_0) by {
        let g = gate_at(s, j)->Some_0;
        assert(gate_at(s, j) is Some);
        assert forall|i: int| 0 <= i < g.ins@.len() implies (#[trigger] input_at(t, g.ins@[i] as int)) is Some
            && input_at(t, g.ins@[i] as int)->Some_0.parent_id == Some(j as usize) by {
            assert(input_at(s, g.ins@[i] as int) is Some);
            assert(g.ins@.contains(g.ins@[i]));
        }
        assert forall|i: int| 0 <= i < g.outs@.len() implies (#[trigger] output_at(t, g.outs@[i] as int)) is Some
            && output_at(t, g.outs@[i] as int)->Some_0.parent_id == Some(j as usize) by {
            assert(output_at(s, g.outs@[i] as int) is Some);
            assert(g.outs@.contains(g.outs@[i]));
        }
    }
    assert forall|j: int| #[trigger] wire_at(t, j) is Some implies wire_ok(t, j, wire_at(t, j)->Some_0) by {
        let x = wire_at(s, j)->Some_0;
        assert(wire_at(s, j) is Some);
        assert(wire_ok(s, j, x));
        assert(output_at(s, x.source_id as int) is Some);
        if x.dest is Some {
            assert(input_at(s, x.dest->Some_0 as int) is Some);
        }
    }
    assert forall|j: int| #[trigger] input_at(t, j) is Some implies input_ok(t, j, input_at(t, j)->Some_0) by {
        let x = input_at(s, j)->Some_0;
        assert(input_at(s, j) is Some);
        assert(input_ok(s, j, x));
        if x.source_wire_id is Some {
            assert(wire_at(s, x.source_wire_id->Some_0 as int) is Some);
        }
    }
    assert forall|j: int| #[trigger] output_at(t, j) is Some implies output_ok(t, j, output_at(t, j)->Some_0) by {
        let o = output_at(s, j)->Some_0;
        assert(output_at(s, j) is Some);
        assert forall|i: int| 0 <= i < o.out_wire_ids@.len() implies (#[trigger] wire_at(t, o.out_wire_ids@[i] as int)) is Some
            && wire_at(t, o.out_wire_ids@[i] as int)->Some_0.source_id == j by {
            assert(wire_at(s, o.out_wire_ids@[i] as int) is Some);
            assert(o.out_wire_ids@.contains(o.out_wire_ids@[i]));
        }
    }
    if h is Some {
        assert(wire_at(s, h->Some_0 as int) is Some);
    }
}

/// A gate is never referred to: ports and wires refer to ports and wires.
proof fn lemma_gate_unreferenced(s: Seq<Option<Logical>>, g: int)
    requires
        arena_ok(s),
        gate_at(s, g) is Some,
    ensures
        unreferenced(s, g),
{
    assert forall|j: int| #[trigger] gate_at(s, j) is Some && j != g implies !gate_at(s, j)->Some_0.ins@.contains(g as usize)
        && !gate_at(s, j)->Some_0.outs@.contains(g as usize) by {
        let h = gate_at(s, j)->Some_0;
        assert(gate_ok(s, j, h));
        if h.ins@.contains(g as usize) {
            let i = choose|i: int| 0 <= i < h.ins@.len() && h.ins@[i] == g as usize;
            assert(input_at(s, h.ins@[i] as int) is Some);
        }
        if h.outs@.contains(g as usize) {
            let i = choose|i: int| 0 <= i < h.outs@.len() && h.outs@[i] == g as usize;
            assert(output_at(s, h.outs@[i] as int) is Some);
        }
    }
    assert forall|j: int| #[trigger] wire_at(s, j) is Some implies wire_at(s, j)->Some_0.source_id != g
        && wire_at(s, j)->Some_0.dest != Some(g as usize) by {
        assert(wire_ok(s, j, wire_at(s, j)->Some_0));
    }
    assert forall|j: int| #[trigger] input_at(s, j) is Some implies input_at(s, j)->Some_0.source_wire_id != Some(g as usize) by {
        assert(input_ok(s, j, input_at(s, j)->Some_0));
    }
    assert forall|j: int| #[trigger] output_at(s, j) is Some implies !output_at(s, j)->Some_0.out_wire_ids@.contains(g as usize) by {
        let o = output_at(s, j)->Some_0;
        assert(output_ok(s, j, o));
        if o.out_wire_ids@.contains(g as usize) {
            let i = choose|i: int| 0 <= i < o.out_wire_ids@.len() && o.out_wire_ids@[i] == g as usize;
            assert(wire_at(s, o.out_wire_ids@[i] as int) is Some);
        }
    }
}

/// A port of a removed gate, with no wire left at it, is referred to by nothing.
proof fn lemma_port_unreferenced(s: Seq<Option<Logical>>, x: int, g: int)
    requires
        arena_ok(s),
        0 <= x < s.len() <= usize::MAX,
        0 <= g < s.len(),
        s[g] is None,
        (input_at(s, x) is Some && input_at(s, x)->Some_0.source_wire_id is None && input_at(s, x)->Some_0.parent_id
            == Some(g as usize)) || (output_at(s, x) is Some && output_at(s, x)->Some_0.out_wire_ids@.len() == 0
            && output_at(s, x)->Some_0.parent_id == Some(g as usize)),
    ensures
        unreferenced(s, x),
{
    assert forall|j: int| #[trigger] gate_at(s, j) is Some && j != x implies !gate_at(s, j)->Some_0.ins@.contains(x as usize)
        && !gate_at(s, j)->Some_0.outs@.contains(x as usize) by {
        let h = gate_at(s, j)->Some_0;
        assert(gate_ok(s, j, h));
        if h.ins@.contains(x as usize) {
            let i = choose|i: int| 0 <= i < h.ins@.len() && h.ins@[i] == x as usize;
            assert(input_at(s, h.ins@[i] as int) is Some);
        }
        if h.outs@.contains(x as usize) {
            let i = choose|i: int| 0 <= i < h.outs@.len() && h.outs@[i] == x as usize;
            assert(output_at(s, h.outs@[i] as int) is Some);
        }
    }
    assert forall|j: int| #[trigger] wire_at(s, j) is Some implies wire_at(s, j)->Some_0.source_id != x
        && wire_at(s, j)->Some_0.dest != Some(x as usize) by {
        let w = wire_at(s, j)->Some_0;
        assert(wire_ok(s, j, w));
        if w.source_id == x {
            assert(output_at(s, x)->Some_0.out_wire_ids@.contains(j as usize));
        }
    }
    assert forall|j: int| #[trigger] input_at(s, j) is Some implies input_at(s, j)->Some_0.source_wire_id != Some(x as usize) by {
        assert(input_ok(s, j, input_at(s, j)->Some_0));
    }
    assert forall|j: int| #[trigger] output_at(s, j) is Some implies !output_at(s, j)->Some_0.out_wire_ids@.contains(x as usize) by {
        let o = output_at(s, j)->Some_0;
        assert(output_ok(s, j, o));
        if o.out_wire_ids@.contains(x as usize) {
            let i = choose|i: int| 0 <= i < o.out_wire_ids@.len() && o.out_wire_ids@[i] == x as usize;
            assert(wire_at(s, o.out_wire_ids@[i] as int) is Some);
        }
    }
}

impl Data {
    /// Removes gate `g` together with its ports and every wire that starts
    /// at one of its outputs or ends at one of its inputs. Every reference
    /// to what is removed goes with it, so the arena stays consistent; a
    /// held wire that is removed leaves the hand.
    pub fn remove_gate(&mut self, g: usize) -> (r: Result<(), SimError>)
        requires
            old(self).wf(),
        ensures
            final(self).wf(),
            missing(old(self).live_data@, g as int) ==> r == Err::<(), SimError>(SimError::MissingElement)
                && final(self).live_data@ == old(self).live_data@ && final(self).holding_wire
                == old(self).holding_wire,
            !missing(old(self).live_data@, g as int) && gate_at(old(self).live_data@, g as int) is None
                ==> r == Err::<(), SimError>(SimError::InvalidOperation) && final(self).live_data@
                == old(self).live_data@ && final(self).holding_wire == old(self).holding_wire,
            gate_at(old(self).live_data@, g as int) is Some ==> ({
                let s = old(self).live_data@;
                let t = final(self).live_data@;
                let gt = gate_at(s, g as int)->Some_0;
                &&& r is Ok
                &&& shrunk(s, t)
                &&& t[g as int] is None
                &&& forall|j: int| 0 <= j < gt.ins@.len() ==> t[#[trigger] gt.ins@[j] as int] is None
                &&& forall|j: int| 0 <= j < gt.outs@.len() ==> t[#[trigger] gt.outs@[j] as int] is None
                &&& forall|k: int| #[trigger] touches(s, g as int, k) ==> t[k] is None
                &&& forall|k: int|
                    0 <= k < s.len() && s[k] is Some && k != g && !gt.ins@.contains(k as usize)
                        && !gt.outs@.contains(k as usize) && !touches(s, g as int, k) ==> (#[trigger] t[k]) is Some
                &&& final(self).holding_wire == held_after(old(self).holding_wire, t)
            }),
    {
        let ghost s = self.live_data@;
        let ghost h0 = self.holding_wire;
        if g >= self.live_data.len() {
            return Err(SimError::MissingElement);
        }
        let (ins, outs) = match &self.live_data[g] {
            None => {
                return Err(SimError::MissingElement);
            },
            Some(Logical::Gate(gt)) => (copy_ids(&gt.ins), copy_ids(&gt.outs)),
            Some(_) => {
                return Err(SimError::InvalidOperation);
            },
        };
        let ghost gt = gate_at(s, g as int)->Some_0;
        let n = self.live_data.len();
        proof {
            assert forall|k: int| 0 <= k < s.len() implies kept(#[trigger] s[k], s[k]) by {}
        }
        let mut j: usize = 0;
        while j < ins.len()
            invariant
                self.wf(),
                n == s.len(),
                self.live_data@.len() == n,
                g < n,
                ins@ == gt.ins@,
                outs@ == gt.outs@,
                gate_at(s, g as int) == Some(gt),
                shrunk(s, self.live_data@),
                gate_at(self.live_data@, g as int) == Some(gt),
                j <= ins@.len(),
                forall|jj: int| 0 <= jj < j ==> (#[trigger] input_at(self.live_data@, ins@[jj] as int)) is Some
                    && input_at(self.live_data@, ins@[jj] as int)->Some_0.source_wire_id is None,
                forall|k: int| 0 <= k < n && s[k] is Some && !touches(s, g as int, k) ==> (#[trigger] self.live_data@[k]) is Some,
                self.holding_wire == held_after(h0, self.live_data@),
                h0 is Some ==> h0->Some_0 < n,
            decreases ins@.len() - j,
        {
            let x = ins[j];
            let ghost before = self.live_data@;
            proof {
                assert(gate_ok(before, g as int, gt));
                assert(input_at(before, gt.ins@[j as int] as int) is Some);
            }
            let src = match &self.live_data[x] {
                Some(Logical::Input(i)) => i.source_wire_id,
                _ => None,
            };
            match src {
                Some(w) => {
                    proof {
                        assert(input_ok(before, x as int, input_at(before, x as int)->Some_0));
                        assert(kept(s[w as int], before[w as int]));
                        assert(gt.ins@.contains(x));
                        assert(touches(s, g as int, w as int));
                    }
                    let ghost hb = self.holding_wire;
                    let _ = self.remove_wire(w);
                    proof {
                        lemma_held_after_delete(before, self.live_data@, w as int, h0, hb, self.holding_wire);
                        lemma_deleted_shrinks(before, self.live_data@, w as int);
                        lemma_shrunk_trans(s, before, self.live_data@);
                        assert forall|jj: int| 0 <= jj < j + 1 implies (#[trigger] input_at(self.live_data@, ins@[jj] as int)) is Some
                            && input_at(self.live_data@, ins@[jj] as int)->Some_0.source_wire_id is None by {
                            assert(input_at(before, ins@[jj] as int) is Some);
                        }
                        assert forall|k: int| 0 <= k < n && s[k] is Some && !touches(s, g as int, k) implies (#[trigger] self.live_data@[k]) is Some by {
                            assert(before[k] is Some);
                        }
                    }
                },
                None => {},
            }
            j = j + 1;
        }
        j = 0;
        while j < outs.len()
            invariant
                self.wf(),
                n == s.len(),
                self.live_data@.len() == n,
                g < n,
                ins@ == gt.ins@,
                outs@ == gt.outs@,
                gate_at(s, g as int) == Some(gt),
                shrunk(s, self.live_data@),
                gate_at(self.live_data@, g as int) == Some(gt),
                j <= outs@.len(),
                forall|jj: int| 0 <= jj < ins@.len() ==> (#[trigger] input_at(self.live_data@, ins@[jj] as int)) is Some
                    && input_at(self.live_data@, ins@[jj] as int)->Some_0.source_wire_id is None,
                forall|jj: int| 0 <= jj < j ==> (#[trigger] output_at(self.live_data@, outs@[jj] as int)) is Some
                    && output_at(self.live_data@, outs@[jj] as int)->Some_0.out_wire_ids@.len() == 0,
                forall|k: int| 0 <= k < n && s[k] is Some && !touches(s, g as int, k) ==> (#[trigger] self.live_data@[k]) is Some,
                self.holding_wire == held_after(h0, self.live_data@),
                h0 is Some ==> h0->Some_0 < n,
            decreases outs@.len() - j,
        {
            let o = outs[j];
            proof {
                assert(gate_ok(self.live_data@, g as int, gt));
                assert(output_at(self.live_data@, gt.outs@[j as int] as int) is Some);
            }
            let c = match &self.live_data[o] {
                Some(Logical::Output(out)) => copy_ids(&out.out_wire_ids),
                _ => Vec::new(),
            };
            proof {
                let ol = output_at(self.live_data@, o as int)->Some_0;
                assert(output_ok(self.live_data@, o as int, ol));
                assert(gt.outs@.contains(o));
                assert forall|mm: int| 0 <= mm < c@.len() implies (#[trigger] wire_at(self.live_data@, c@[mm] as int)) is Some
                    ==> wire_at(self.live_data@, c@[mm] as int)->Some_0.source_id == o && touches(s, g as int, c@[mm] as int) by {
                    assert(wire_at(self.live_data@, ol.out_wire_ids@[mm] as int) is Some);
                    assert(kept(s[c@[mm] as int], self.live_data@[c@[mm] as int]));
                }
                assert forall|y: usize| ol.out_wire_ids@.contains(y) implies c@.subrange(0, c@.len() as int).contains(y) by {
                    assert(c@.subrange(0, c@.len() as int) =~= c@);
                }
            }
            let mut m: usize = 0;
            while m < c.len()
                invariant
                    self.wf(),
                    n == s.len(),
                    self.live_data@.len() == n,
                    g < n,
                    ins@ == gt.ins@,
                    outs@ == gt.outs@,
                    gate_at(s, g as int) == Some(gt),
                    shrunk(s, self.live_data@),
                    gate_at(self.live_data@, g as int) == Some(gt),
                    j < outs@.len(),
                    o == outs@[j as int],
                    m <= c@.len(),
                    forall|jj: int| 0 <= jj < ins@.len() ==> (#[trigger] input_at(self.live_data@, ins@[jj] as int)) is Some
                        && input_at(self.live_data@, ins@[jj] as int)->Some_0.source_wire_id is None,
                    forall|jj: int| 0 <= jj < j ==> (#[trigger] output_at(self.live_data@, outs@[jj] as int)) is Some
                        && output_at(self.live_data@, outs@[jj] as int)->Some_0.out_wire_ids@.len() == 0,
                    output_at(self.live_data@, o as int) is Some,
                    forall|y: usize|
                        output_at(self.live_data@, o as int)->Some_0.out_wire_ids@.contains(y) ==> c@.subrange(
                            m as int,
                            c@.len() as int,
                        ).contains(y),
                    forall|mm: int|
                        0 <= mm < c@.len() ==> (#[trigger] wire_at(self.live_data@, c@[mm] as int)) is Some ==> wire_at(
                            self.live_data@,
                            c@[mm] as int,
                        )->Some_0.source_id == o && touches(s, g as int, c@[mm] as int),
                    forall|k: int| 0 <= k < n && s[k] is Some && !touches(s, g as int, k) ==> (#[trigger] self.live_data@[k]) is Some,
                    self.holding_wire == held_after(h0, self.live_data@),
                h0 is Some ==> h0->Some_0 < n,
                decreases c@.len() - m,
            {
                let w = c[m];
                let ghost before = self.live_data@;
                let ghost bl = output_at(before, o as int)->Some_0.out_wire_ids@;
                let is_wire = w < self.live_data.len() && match &self.live_data[w] {
                    Some(Logical::Wire(_)) => true,
                    _ => false,
                };
                if is_wire {
                    proof {
                        assert(wire_at(before, c@[m as int] as int) is Some);
                    }
                    let ghost hb = self.holding_wire;
                    let _ = self.remove_wire(w);
                    proof {
                        lemma_held_after_delete(before, self.live_data@, w as int, h0, hb, self.holding_wire);
                        lemma_deleted_shrinks(before, self.live_data@, w as int);
                        lemma_shrunk_trans(s, before, self.live_data@);
                        let al = output_at(self.live_data@, o as int)->Some_0.out_wire_ids@;
                        assert(al == without(bl, w));
                        assert forall|y: usize| al.contains(y) implies c@.subrange(m + 1, c@.len() as int).contains(y) by {
                            bl.lemma_filter_contains_rev(crate::interaction::other_than(w), y);
                            assert(c@.subrange(m as int, c@.len() as int).contains(y));
                            let i = choose|i: int| 0 <= i < c@.len() - m && c@.subrange(m as int, c@.len() as int)[i] == y;
                            assert(i != 0);
                            assert(c@.subrange(m + 1, c@.len() as int)[i - 1] == y);
                        }
                        assert forall|jj: int| 0 <= jj < ins@.len() implies (#[trigger] input_at(self.live_data@, ins@[jj] as int)) is Some
                            && input_at(self.live_data@, ins@[jj] as int)->Some_0.source_wire_id is None by {
                            assert(input_at(before, ins@[jj] as int) is Some);
                        }
                        assert forall|jj: int| 0 <= jj < j implies (#[trigger] output_at(self.live_data@, outs@[jj] as int)) is Some
                            && output_at(self.live_data@, outs@[jj] as int)->Some_0.out_wire_ids@.len() == 0 by {
                            assert(output_at(before, outs@[jj] as int) is Some);
                            let ol = output_at(before, outs@[jj] as int)->Some_0.out_wire_ids@;
                            if outs@[jj] == o {
                                assert(ol =~= Seq::<usize>::empty());
                                assert(without(ol, w) =~= Seq::<usize>::empty()) by {
                                    reveal(Seq::filter);
                                }
                            }
                        }
                        assert forall|mm: int| 0 <= mm < c@.len() implies (#[trigger] wire_at(self.live_data@, c@[mm] as int)) is Some
                            ==> wire_at(self.live_data@, c@[mm] as int)->Some_0.source_id == o && touches(s, g as int, c@[mm] as int) by {
                            if wire_at(self.live_data@, c@[mm] as int) is Some {
                                assert(wire_at(before, c@[mm] as int) is Some);
                            }
                        }
                        assert forall|k: int| 0 <= k < n && s[k] is Some && !touches(s, g as int, k) implies (#[trigger] self.live_data@[k]) is Some by {
                            assert(before[k] is Some);
                        }
                    }
                } else {
                    proof {
                        assert forall|y: usize| bl.contains(y) implies c@.subrange(m + 1, c@.len() as int).contains(y) by {
                            assert(output_ok(before, o as int, output_at(before, o as int)->Some_0));
                            let i0 = choose|i0: int| 0 <= i0 < bl.len() && bl[i0] == y;
                            assert(wire_at(before, bl[i0] as int) is Some);
                            assert(c@.subrange(m as int, c@.len() as int).contains(y));
                            let i = choose|i: int| 0 <= i < c@.len() - m && c@.subrange(m as int, c@.len() as int)[i] == y;
                            assert(i != 0);
                            assert(c@.subrange(m + 1, c@.len() as int)[i - 1] == y);
                        }
                    }
                }
                m = m + 1;
            }
            proof {
                let fl = output_at(self.live_data@, o as int)->Some_0.out_wire_ids@;
                if fl.len() > 0 {
                    assert(fl.contains(fl[0]));
                    assert(c@.subrange(m as int, c@.len() as int).contains(fl[0]));
                    assert(c@.subrange(m as int, c@.len() as int).len() == 0);
                    assert(false);
                }
                assert forall|jj: int| 0 <= jj < j + 1 implies (#[trigger] output_at(self.live_data@, outs@[jj] as int)) is Some
                    && output_at(self.live_data@, outs@[jj] as int)->Some_0.out_wire_ids@.len() == 0 by {
                    if jj == j {
                        assert(outs@[jj] == o);
                    }
                }
            }
            j = j + 1;
        }
        proof {
            lemma_gate_unreferenced(self.live_data@, g as int);
            lemma_clear_ok(self.live_data@, g as int, self.holding_wire);
            let cur = self.live_data@;
            assert forall|k: int| 0 <= k < s.len() implies kept(#[trigger] s[k], cur.update(g as int, None)[k]) by {
                assert(kept(s[k], cur[k]));
            }
        }
        let ghost before_clear = self.live_data@;
        self.live_data.set(g, None);
        proof {
            assert(gate_ok(s, g as int, gt));
            assert forall|jj: int| 0 <= jj < ins@.len() implies (#[trigger] ins@[jj]) < n && ins@[jj] != g by {
                assert(input_at(s, gt.ins@[jj] as int) is Some);
            }
            assert forall|jj: int| 0 <= jj < outs@.len() implies (#[trigger] outs@[jj]) < n && outs@[jj] != g by {
                assert(output_at(s, gt.outs@[jj] as int) is Some);
            }
            assert forall|jj: int| 0 <= jj < ins@.len() implies self.live_data@[#[trigger] ins@[jj] as int] is None
                || (input_at(self.live_data@, ins@[jj] as int) is Some && input_at(self.live_data@, ins@[jj] as int)->Some_0.source_wire_id is None) by {
                assert(input_at(before_clear, ins@[jj] as int) is Some);
            }
            assert forall|jj: int| 0 <= jj < outs@.len() implies (#[trigger] output_at(self.live_data@, outs@[jj] as int)) is Some
                && output_at(self.live_data@, outs@[jj] as int)->Some_0.out_wire_ids@.len() == 0 by {
                assert(output_at(before_clear, outs@[jj] as int) is Some);
            }
        }
        j = 0;
        while j < ins.len()
            invariant
                self.wf(),
                n == s.len(),
                self.live_data@.len() == n,
                g < n,
                ins@ == gt.ins@,
                outs@ == gt.outs@,
                gate_at(s, g as int) == Some(gt),
                arena_ok(s),
                shrunk(s, self.live_data@),
                self.live_data@[g as int] is None,
                forall|jj: int| 0 <= jj < ins@.len() ==> (#[trigger] ins@[jj]) < n && ins@[jj] != g,
                forall|jj: int| 0 <= jj < outs@.len() ==> (#[trigger] outs@[jj]) < n && outs@[jj] != g,
                j <= ins@.len(),
                forall|jj: int| 0 <= jj < j ==> self.live_data@[#[trigger] ins@[jj] as int] is None,
                forall|jj: int|
                    0 <= jj < ins@.len() ==> self.live_data@[#[trigger] ins@[jj] as int] is None || (input_at(self.live_data@, ins@[jj] as int) is Some
                        && input_at(self.live_data@, ins@[jj] as int)->Some_0.source_wire_id is None),
                forall|jj: int| 0 <= jj < outs@.len() ==> (#[trigger] output_at(self.live_data@, outs@[jj] as int)) is Some
                    && output_at(self.live_data@, outs@[jj] as int)->Some_0.out_wire_ids@.len() == 0,
                forall|k: int|
                    0 <= k < n && s[k] is Some && k != g && !gt.ins@.contains(k as usize) && !touches(s, g as int, k)
                        ==> (#[trigger] self.live_data@[k]) is Some,
                self.holding_wire == held_after(h0, self.live_data@),
                h0 is Some ==> h0->Some_0 < n,
            decreases ins@.len() - j,
        {
            let x = ins[j];
            proof {
                assert(gate_ok(s, g as int, gt));
                assert(input_at(s, gt.ins@[j as int] as int) is Some);
            }
            if self.live_data[x].is_some() {
                let ghost cur = self.live_data@;
                proof {
                    assert(kept(s[x as int], cur[x as int]));
                    lemma_port_unreferenced(cur, x as int, g as int);
                    if self.holding_wire is Some {
                        assert(wire_at(cur, self.holding_wire->Some_0 as int) is Some);
                    }
                    lemma_clear_ok(cur, x as int, self.holding_wire);
                    assert forall|k: int| 0 <= k < s.len() implies kept(#[trigger] s[k], cur.update(x as int, None)[k]) by {
                        assert(kept(s[k], cur[k]));
                    }
                }
                self.live_data.set(x, None);
                proof {
                    assert forall|jj: int| 0 <= jj < outs@.len() implies (#[trigger] output_at(self.live_data@, outs@[jj] as int)) is Some
                        && output_at(self.live_data@, outs@[jj] as int)->Some_0.out_wire_ids@.len() == 0 by {
                        assert(output_at(cur, outs@[jj] as int) is Some);
                    }
                    assert forall|jj: int| 0 <= jj < j + 1 implies self.live_data@[#[trigger] ins@[jj] as int] is None by {
                        if jj < j {
                            assert(cur[ins@[jj] as int] is None);
                        }
                    }
                    assert forall|jj: int| 0 <= jj < ins@.len() implies self.live_data@[#[trigger] ins@[jj] as int] is None
                        || (input_at(self.live_data@, ins@[jj] as int) is Some && input_at(self.live_data@, ins@[jj] as int)->Some_0.source_wire_id is None) by {
                        assert(cur[ins@[jj] as int] is None || input_at(cur, ins@[jj] as int) is Some);
                    }
                    assert forall|k: int|
                        0 <= k < n && s[k] is Some && k != g && !gt.ins@.contains(k as usize) && !touches(s, g as int, k)
                        implies (#[trigger] self.live_data@[k]) is Some by {
                        assert(cur[k] is Some);
                        assert(gt.ins@.contains(x));
                    }
                }
            }
            j = j + 1;
        }
        j = 0;
        while j < outs.len()
            invariant
                self.wf(),
                n == s.len(),
                self.live_data@.len() == n,
                g < n,
                ins@ == gt.ins@,
                outs@ == gt.outs@,
                gate_at(s, g as int) == Some(gt),
                arena_ok(s),
                shrunk(s, self.live_data@),
                self.live_data@[g as int] is None,
                forall|jj: int| 0 <= jj < ins@.len() ==> (#[trigger] ins@[jj]) < n && ins@[jj] != g,
                forall|jj: int| 0 <= jj < outs@.len() ==> (#[trigger] outs@[jj]) < n && outs@[jj] != g,
                j <= outs@.len(),
                forall|jj: int| 0 <= jj < ins@.len() ==> self.live_data@[#[trigger] ins@[jj] as int] is None,
                forall|jj: int| 0 <= jj < j ==> self.live_data@[#[trigger] outs@[jj] as int] is None,
                forall|jj: int|
                    0 <= jj < outs@.len() ==> self.live_data@[#[trigger] outs@[jj] as int] is None || (output_at(self.live_data@, outs@[jj] as int) is Some
                        && output_at(self.live_data@, outs@[jj] as int)->Some_0.out_wire_ids@.len() == 0),
                forall|k: int|
                    0 <= k < n && s[k] is Some && k != g && !gt.ins@.contains(k as usize) && !gt.outs@.contains(k as usize)
                        && !touches(s, g as int, k) ==> (#[trigger] self.live_data@[k]) is Some,
                self.holding_wire == held_after(h0, self.live_data@),
                h0 is Some ==> h0->Some_0 < n,
            decreases outs@.len() - j,
        {
            let x = outs[j];
            proof {
                assert(gate_ok(s, g as int, gt));
                assert(output_at(s, gt.outs@[j as int] as int) is Some);
            }
            if self.live_data[x].is_some() {
                let ghost cur = self.live_data@;
                proof {
                    assert(kept(s[x as int], cur[x as int]));
                    lemma_port_unreferenced(cur, x as int, g as int);
                    if self.holding_wire is Some {
                        assert(wire_at(cur, self.holding_wire->Some_0 as int) is Some);
                    }
                    lemma_clear_ok(cur, x as int, self.holding_wire);
                    assert forall|k: int| 0 <= k < s.len() implies kept(#[trigger] s[k], cur.update(x as int, None)[k]) by {
                        assert(kept(s[k], cur[k]));
                    }
                }
                self.live_data.set(x, None);
                proof {
                    assert forall|jj: int| 0 <= jj < ins@.len() implies self.live_data@[#[trigger] ins@[jj] as int] is None by {
                        assert(cur[ins@[jj] as int] is None);
                    }
                    assert forall|jj: int| 0 <= jj < j + 1 implies self.live_data@[#[trigger] outs@[jj] as int] is None by {
                        if jj < j {
                            assert(cur[outs@[jj] as int] is None);
                        }
                    }
                    assert forall|jj: int| 0 <= jj < outs@.len() implies self.live_data@[#[trigger] outs@[jj] as int] is None
                        || (output_at(self.live_data@, outs@[jj] as int) is Some && output_at(self.live_data@, outs@[jj] as int)->Some_0.out_wire_ids@.len() == 0) by {
                        assert(cur[outs@[jj] as int] is None || output_at(cur, outs@[jj] as int) is Some);
                    }
                    assert forall|k: int|
                        0 <= k < n && s[k] is Some && k != g && !gt.ins@.contains(k as usize) && !gt.outs@.contains(k as usize)
                            && !touches(s, g as int, k) implies (#[trigger] self.live_data@[k]) is Some by {
                        assert(cur[k] is Some);
                        assert(gt.outs@.contains(x));
                    }
                }
            }
            j = j + 1;
        }
        proof {
            let t = self.live_data@;
            assert forall|k: int| #[trigger] touches(s, g as int, k) implies t[k] is None by {
                if t[k] is Some {
                    assert(kept(s[k], t[k]));
                    let w = wire_at(t, k)->Some_0;
                    assert(wire_ok(t, k, w));
                    if gt.outs@.contains(w.source_id) {
                        let i = choose|i: int| 0 <= i < gt.outs@.len() && gt.outs@[i] == w.source_id;
                        assert(t[gt.outs@[i] as int] is None);
                    } else {
                        let i = choose|i: int| 0 <= i < gt.ins@.len() && gt.ins@[i] == w.dest->Some_0;
                        assert(t[gt.ins@[i] as int] is None);
                    }
                }
            }
        }
        Ok(())
    }
}

} // verus!
