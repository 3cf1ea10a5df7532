//! Identities of named definitions.
//!
//! A `DefId` names an item globally: the number of the unit it belongs to and
//! its offset within that unit. Unit 0 is the unit currently being compiled.
//! `DefLocalId` is the monotonically increasing offset counter, unique within
//! one counting pass.

use vstd::prelude::*;

use crate::s_expr::{node_fields, sxs, SExpr, Sx};

verus! {

/// The number of the unit a definition belongs to; 0 denotes the unit
/// currently being compiled.
#[derive(Clone, Copy, PartialEq, Eq, Structural, Hash, Debug)]
pub struct UnitNum(pub u16);

pub const LOCAL_UNIT: u16 = 0;

impl UnitNum {
    pub fn new(x: u16) -> (r: Self)
        ensures
            r.0 == x,
    {
        UnitNum(x)
    }
}

/// The offset of a definition within one unit, assigned by a monotonically
/// increasing counter.
#[derive(Clone, Copy, PartialEq, Eq, Structural, Hash, Debug)]
pub struct DefLocalId(pub u32);

impl DefLocalId {
    /// The first offset of a fresh counting pass.
    pub fn new() -> (r: Self)
        ensures
            r.0 == 0,
    {
        DefLocalId(0)
    }

    /// The offset that follows this one.
    pub fn next(&self) -> (r: DefLocalId)
        requires
            self.0 < u32::MAX,
        ensures
            r.0 == self.0 + 1,
    {
        DefLocalId(self.0 + 1)
    }

    /// The global identity of this offset within the unit being compiled.
    pub fn to_def_id(&self) -> (r: DefId)
        ensures
            r == (DefId { unit: UnitNum(LOCAL_UNIT), offset: *self }),
    {
        DefId { unit: UnitNum::new(LOCAL_UNIT), offset: *self }
    }

    /// The tree value an offset is parsed from: a number that fits in 32 bits.
    pub open spec fn of_sx(x: Sx) -> Option<DefLocalId> {
        match x {
            Sx::Num(n) => if n <= u32::MAX {
                Some(DefLocalId(n as u32))
            } else {
                None
            },
            _ => None,
        }
    }

    /// Reads an offset back from its tree value.
    pub fn from_s_expr(value: &SExpr) -> (r: Option<DefLocalId>)
        ensures
            r == Self::of_sx(value@),
    {
        match value {
            SExpr::Num(n) => {
                if *n <= u32::MAX as u64 {
                    Some(DefLocalId(*n as u32))
                } else {
                    None
                }
            },
            _ => None,
        }
    }

    /// Writes the offset as a tree value.
    pub fn to_s_expr(&self) -> (r: SExpr)
        ensures
            r@ == Sx::Num(self.0 as u64),
    {
        SExpr::Num(self.0 as u64)
    }
}

/// The global identity of a named item: unit number and offset within it.
#[derive(Clone, Copy, PartialEq, Eq, Structural, Hash, Debug)]
pub struct DefId {
    pub unit: UnitNum,
    pub offset: DefLocalId,
}

impl DefId {
    /// The serialized tree form of a definition identity.
    pub open spec fn sx_of(self) -> Sx {
        Sx::List(
            seq![
                Sx::Sym("DefId"@),
                Sx::Num(self.unit.0 as u64),
                Sx::Num(self.offset.0 as u64),
            ],
        )
    }

    /// The definition identity a tree value denotes: a `DefId` node whose two
    /// fields are the unit number and the offset.
    pub open spec fn of_sx(x: Sx) -> Option<DefId> {
        match x {
            Sx::List(elems) => {
                let fs = node_fields(elems);
                if elems.len() >= 1 && elems[0] == Sx::Sym("DefId"@) && fs.len() >= 2 {
                    match (fs[0], fs[1]) {
                        (Sx::Num(u), Sx::Num(o)) => if u <= u16::MAX && o <= u32::MAX {
                            Some(DefId { unit: UnitNum(u as u16), offset: DefLocalId(o as u32) })
                        } else {
                            None
                        },
                        _ => None,
                    }
                } else {
                    None
                }
            },
            _ => None,
        }
    }

    /// Writes the identity as a `DefId` tree node.
    pub fn to_s_expr(&self) -> (r: SExpr)
        ensures
            r@ == self.sx_of(),
    {
        let elems: Vec<SExpr> = vec![
            SExpr::Sym("DefId".to_owned()),
            SExpr::Num(self.unit.0 as u64),
            SExpr::Num(self.offset.0 as u64),
        ];
        proof {
            crate::s_expr::lemma_sxs(elems@);
            assert(sxs(elems@) =~= seq![
                Sx::Sym("DefId"@),
                Sx::Num(self.unit.0 as u64),
                Sx::Num(self.offset.0 as u64),
            ]);
        }
        SExpr::List(elems)
    }

    /// Reads an identity back from a `DefId` tree node.
    pub fn from_s_expr(value: &SExpr) -> (r: Option<DefId>)
        ensures
            r == Self::of_sx(value@),
    {
        let elems = match value {
            SExpr::List(v) => v,
            _ => { return None; },
        };
        if elems.len() == 0 {
            return None;
        }
        if !crate::s_expr::sym_is(&elems[0], "DefId") {
            proof {
                crate::s_expr::lemma_sxs(elems@);
                assert(sxs(elems@)[0] == elems@[0]@);
            }
            return None;
        }
        proof {
            crate::s_expr::lemma_sxs(elems@);
            assert(sxs(elems@)[0] == elems@[0]@);
        }
        let f0 = crate::s_expr::node_get_field(elems, 0);
        let f1 = crate::s_expr::node_get_field(elems, 1);
        let u = match f0 {
            Some(SExpr::Num(u)) => *u,
            _ => { return None; },
        };
        let o = match f1 {
            Some(SExpr::Num(o)) => *o,
            _ => { return None; },
        };
        if u <= u16::MAX as u64 && o <= u32::MAX as u64 {
            Some(DefId { unit: UnitNum(u as u16), offset: DefLocalId(o as u32) })
        } else {
            None
        }
    }

    /// Writes the identity into a unit-interface item reference.
    pub fn serialize(&self, builder: &mut crate::bui::BuiItemRef)
        ensures
            final(builder).unit == self.unit.0,
            final(builder).def == self.offset.0,
    {
        builder.unit = self.unit.0;
        builder.def = self.offset.0;
    }

    /// The offset of this identity within its unit.
    pub fn local(&self) -> (r: DefLocalId)
        ensures
            r == self.offset,
    {
        self.offset
    }
}

} // verus!
