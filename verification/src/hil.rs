//! The high-level intermediate language: the syntax tree after name
//! resolution, with explicit references and per-node identities.

use vstd::prelude::*;

use crate::s_expr::{node_attr, node_get_attr, sxs, SExpr, Sx};
use crate::t::UnitPath;

verus! {

/// The HIL tree: the same tagged-tree representation as the input, where
/// every reference carries an explicit qualified payload and (almost) every
/// node a `hil_id` attribute.
pub type Hil = SExpr;

/// A node of the HIL tree: the element list of a list node.
pub type Node = Vec<SExpr>;

/// A per-node identity assigned during lowering: the join key the type
/// checker uses to associate a binding occurrence with its type.
#[derive(Clone, Copy, PartialEq, Eq, Structural, Hash, Debug)]
pub struct HilId {
    pub private: u32,
}

/// The identity that follows `n`: the counter wraps around at the width of
/// the identity rather than failing.
pub open spec fn hil_counter_next(n: u32) -> u32 {
    if n == u32::MAX {
        0
    } else {
        (n + 1) as u32
    }
}

impl HilId {
    /// Draws the next identity from an explicit counter owned by the run.
    pub fn new(counter: &mut u32) -> (r: Self)
        ensures
            r.private == *old(counter),
            *final(counter) == hil_counter_next(*old(counter)),
    {
        let r = HilId { private: *counter };
        if *counter == u32::MAX {
            proof {
                assert(hil_counter_next(u32::MAX) == 0);
            }
            *counter = 0;
        } else {
            *counter = *counter + 1;
        }
        r
    }

    /// Writes the identity as a tree value.
    pub fn to_s_expr(&self) -> (r: SExpr)
        ensures
            r@ == Sx::Num(self.private as u64),
    {
        SExpr::Num(self.private as u64)
    }

    /// The identity a tree value denotes: a number that fits in 32 bits.
    pub open spec fn of_sx(x: Sx) -> Option<HilId> {
        match x {
            Sx::Num(n) => if n <= u32::MAX {
                Some(HilId { private: n as u32 })
            } else {
                None
            },
            _ => None,
        }
    }

    /// Reads an identity back from its tree value.
    pub fn from_s_expr(value: &SExpr) -> (r: Option<HilId>)
        ensures
            r == Self::of_sx(value@),
    {
        match value {
            SExpr::Num(n) => {
                if *n <= u32::MAX as u64 {
                    Some(HilId { private: *n as u32 })
                } else {
                    None
                }
            },
            _ => None,
        }
    }
}

/// The unit path a unit root carries: its `path` attribute, a vector of
/// symbols.
pub open spec fn unit_path_of(x: Sx) -> Option<Seq<Seq<char>>> {
    match x {
        Sx::List(elems) => match node_attr(elems, "path"@) {
            Some(Sx::Vect(segs)) => if forall|i: int| 0 <= i < segs.len() ==> segs[i] is Sym {
                Some(Seq::new(segs.len(), |i: int| segs[i]->Sym_0))
            } else {
                None
            },
            _ => None,
        },
        _ => None,
    }
}

/// Reads the unit path off the root of a HIL tree.
#[verifier::loop_isolation(false)]
pub fn hil_get_unit_path(hil: &Hil) -> (r: Option<UnitPath>)
    ensures
        match r {
            Some(p) => unit_path_of(hil@) == Some(p.model()),
            None => unit_path_of(hil@) is None,
        },
{
    let elems = match hil {
        SExpr::List(v) => {
            proof {
                assert(hil@ == Sx::List(sxs(v@)));
            }
            v
        },
        _ => { return None; },
    };
    let path = match node_get_attr(elems, "path") {
        Some(v) => {
            proof {
                assert(node_attr(sxs(elems@), "path"@) == Some(v@));
            }
            v
        },
        None => { return None; },
    };
    let segs = match path {
        SExpr::Vect(v) => {
            proof {
                assert(path@ == Sx::Vect(sxs(v@)));
            }
            v
        },
        _ => {
            return None;
        },
    };
    proof {
        crate::s_expr::lemma_sxs(segs@);
    }
    let mut name: Vec<String> = Vec::new();
    let mut i: usize = 0;
    while i < segs.len()
        invariant
            0 <= i <= segs.len(),
            sxs_facts(segs@),
            name.deep_view().len() == i,
            forall|j: int|
                0 <= j < i ==> (#[trigger] segs@[j]@) is Sym && name.deep_view()[j]
                    == segs@[j]@->Sym_0,
        decreases segs.len() - i,
    {
        match &segs[i] {
            SExpr::Sym(s) => {
                let ghost pre = name.deep_view();
                proof {
                    assert(segs@[i as int]@ == Sx::Sym(s@));
                }
                name.push(s.clone());
                proof {
                    assert(name.deep_view() =~= pre.push(s@));
                    assert(name.deep_view()[i as int] == s@);
                }
            },
            _ => {
                proof {
                    let segm = sxs(segs@);
                    assert(segm[i as int] == segs@[i as int]@);
                    assert(!(segm[i as int] is Sym));
                    assert(0 <= i < segm.len());
                    assert(!(forall|j: int| 0 <= j < segm.len() ==> segm[j] is Sym));
                    assert(node_attr(sxs(elems@), "path"@) == Some(Sx::Vect(segm)));
                    assert(unit_path_of(hil@) is None);
                }
                return None;
            },
        }
        i = i + 1;
    }
    let r = UnitPath::new(name);
    proof {
        let segm = sxs(segs@);
        assert forall|j: int| 0 <= j < segm.len() implies segm[j] is Sym by {
            assert(segm[j] == segs@[j]@);
        }
        assert(r.model() =~= Seq::new(segm.len(), |j: int| segm[j]->Sym_0));
    }
    Some(r)
}

/// The bridging facts between a vector of trees and its model sequence.
pub open spec fn sxs_facts(v: Seq<SExpr>) -> bool {
    sxs(v).len() == v.len() && forall|j: int|
        0 <= j < v.len() ==> sxs(v)[j] == v[j]@
}

} // verus!
