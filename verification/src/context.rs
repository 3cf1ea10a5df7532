//! The global compilation context: the unit cache and the type tables.
//!
//! The tables are append-only slabs owned by the context; entries are never
//! freed individually, and references into them are plain indices, so
//! callers depend only on structural equality of definition identities,
//! never on a particular slot.

use vstd::prelude::*;

use crate::bui::Bui;
use crate::def::DefId;
use crate::s_expr::{key_is, lemma_sxs, node_attr, node_fields, node_get_attr, node_get_field, sxs, sym_is, SExpr, Sx};
use crate::t::{AdtDef, Type, TypeKind, TypeRef, UnitPath};

verus! {

/// The cache of loaded units: the loaded interfaces in load order, and the
/// path under which each was loaded. Loading the same path twice appends a
/// second slot rather than reusing the first — the cache records loads, it
/// does not deduplicate them.
pub struct UnitCache {
    pub units: Vec<Bui>,
    pub index: Vec<(UnitPath, usize)>,
}

impl UnitCache {
    /// An empty cache.
    pub fn new() -> (r: Self)
        ensures
            r.units@.len() == 0,
            r.index@.len() == 0,
    {
        UnitCache { units: Vec::new(), index: Vec::new() }
    }

    /// Appends one load of `unit_path`: a stub unit, recorded under the
    /// path.
    pub fn load(&mut self, unit_path: UnitPath)
        ensures
            final(self).units@.len() == old(self).units@.len() + 1,
            final(self).units@.last().items is None,
            final(self).units@.drop_last() == old(self).units@,
            final(self).index@.len() == old(self).index@.len() + 1,
            final(self).index@.last().0.model() == unit_path.model(),
            final(self).index@.last().1 == old(self).units@.len(),
            final(self).index@.drop_last() == old(self).index@,
    {
        let slot = self.units.len();
        self.index.push((unit_path, slot));
        self.units.push(Bui::empty());
        proof {
            assert(self.units@.drop_last() =~= old(self).units@);
            assert(self.index@.drop_last() =~= old(self).index@);
        }
    }
}

/// The append-only tables of interned types and definitions.
pub struct TypeCache {
    pub types: Vec<Type>,
    pub adt_defs: Vec<AdtDef>,
}

impl TypeCache {
    /// Empty tables.
    pub fn new() -> (r: Self)
        ensures
            r.types@.len() == 0,
            r.adt_defs@.len() == 0,
    {
        TypeCache { types: Vec::new(), adt_defs: Vec::new() }
    }

    /// Appends a fresh definition record for `def_id` and returns its index;
    /// a repeated identity gets a fresh slot, which is sound because callers
    /// compare definition identities, not slots.
    pub fn adt_def(&mut self, def_id: DefId) -> (r: usize)
        ensures
            r == old(self).adt_defs@.len(),
            final(self).adt_defs@.len() == old(self).adt_defs@.len() + 1,
            final(self).adt_defs@.last().def_id == def_id,
            final(self).adt_defs@.last().variants@.len() == 0,
            final(self).adt_defs@.drop_last() == old(self).adt_defs@,
            final(self).types == old(self).types,
    {
        let r = self.adt_defs.len();
        self.adt_defs.push(AdtDef::new(def_id));
        proof {
            assert(self.adt_defs@.drop_last() =~= old(self).adt_defs@);
        }
        r
    }

    /// Appends the nominal type over the definition record at `adt_def` and
    /// returns its index.
    pub fn adt(&mut self, adt_def: usize) -> (r: TypeRef)
        ensures
            r == old(self).types@.len(),
            final(self).types@.len() == old(self).types@.len() + 1,
            final(self).types@.last().kind matches TypeKind::Adt(d, args) && d == adt_def
                && args@.len() == 0,
            final(self).types@.drop_last() == old(self).types@,
            final(self).adt_defs == old(self).adt_defs,
    {
        let r = self.types.len();
        self.types.push(Type::make_adt(adt_def));
        proof {
            assert(self.types@.drop_last() =~= old(self).types@);
        }
        r
    }
}

/// The definition identity a type node denotes: the node must be a `Ty`
/// whose `kind` is `qpath` and whose `Path` field parses as an identity.
pub open spec fn ty_def_id_of(elems: Seq<Sx>) -> Option<DefId> {
    if crate::ast::head_is(elems, "Ty"@) && crate::ast::kind_of(elems) == Some("qpath"@) {
        if node_fields(elems).len() >= 1 {
            match node_fields(elems)[0] {
                Sx::List(path_em) => {
                    if node_fields(path_em).len() >= 1 {
                        DefId::of_sx(node_fields(path_em)[0])
                    } else {
                        None
                    }
                },
                _ => None,
            }
        } else {
            None
        }
    } else {
        None
    }
}

/// The global compilation context.
pub struct GlobalContext {
    pub unit_cache: UnitCache,
    pub type_cache: TypeCache,
    pub unit_type: Type,
}

impl GlobalContext {
    /// A fresh context: empty caches and the unit type, an empty tuple.
    pub fn new() -> (r: Self)
        ensures
            r.unit_cache.units@.len() == 0,
            r.unit_cache.index@.len() == 0,
            r.type_cache.types@.len() == 0,
            r.type_cache.adt_defs@.len() == 0,
            r.unit_type.kind matches TypeKind::Tuple(es) && es@.len() == 0,
    {
        GlobalContext {
            unit_cache: UnitCache::new(),
            type_cache: TypeCache::new(),
            unit_type: Type::make_tuple(Vec::new()),
        }
    }

    /// Records one load of `unit_path` in the unit cache.
    pub fn load_unit(&mut self, unit_path: UnitPath)
        ensures
            final(self).unit_cache.units@.len() == old(self).unit_cache.units@.len() + 1,
            final(self).unit_cache.index@.len() == old(self).unit_cache.index@.len() + 1,
            final(self).unit_cache.index@.last().0.model() == unit_path.model(),
            final(self).type_cache == old(self).type_cache,
            final(self).unit_type == old(self).unit_type,
    {
        self.unit_cache.load(unit_path);
    }

    /// Interns the type a qualified-path type node denotes: a nominal type
    /// keyed by the node's definition identity, freshly allocated. `None` is
    /// the fatal outcome on any other node: only qualified paths are
    /// supported here.
    pub fn interned_type(&mut self, node: &Vec<SExpr>) -> (r: Option<TypeRef>)
        ensures
            match r {
                Some(t) => ty_def_id_of(sxs(node@)) matches Some(d)
                    && t == old(self).type_cache.types@.len()
                    && final(self).type_cache.types@.len() == t + 1
                    && final(self).type_cache.types@.drop_last() == old(self).type_cache.types@
                    && final(self).type_cache.adt_defs@.len() == old(
                        self,
                    ).type_cache.adt_defs@.len() + 1
                    && final(self).type_cache.adt_defs@.drop_last() == old(
                        self,
                    ).type_cache.adt_defs@
                    && (final(self).type_cache.types@.last().kind matches TypeKind::Adt(a, args)
                        && args@.len() == 0
                        && a == old(self).type_cache.adt_defs@.len()
                        && final(self).type_cache.adt_defs@.last().def_id == d),
                None => ty_def_id_of(sxs(node@)) is None && *final(self) == *old(self),
            },
            final(self).unit_cache == old(self).unit_cache,
            final(self).unit_type == old(self).unit_type,
    {
        proof {
            lemma_sxs(node@);
        }
        if !(node.len() > 0 && sym_is(&node[0], "Ty")) {
            proof {
                if node@.len() > 0 {
                    assert(sxs(node@)[0] == node@[0]@);
                }
            }
            return None;
        }
        proof {
            assert(sxs(node@)[0] == node@[0]@);
        }
        let kind = match node_get_attr(node, "kind") {
            Some(v) => v,
            None => {
                return None;
            },
        };
        if !key_is(kind, "qpath") {
            return None;
        }
        let path = match node_get_field(node, 0) {
            Some(SExpr::List(v)) => {
                proof {
                    assert(node_fields(sxs(node@))[0] == Sx::List(sxs(v@)));
                }
                v
            },
            _ => {
                return None;
            },
        };
        let pf0 = match node_get_field(path, 0) {
            Some(v) => v,
            None => {
                return None;
            },
        };
        let def_id = match DefId::from_s_expr(pf0) {
            Some(d) => d,
            None => {
                return None;
            },
        };
        let adt_def = self.type_cache.adt_def(def_id);
        Some(self.type_cache.adt(adt_def))
    }
}

} // verus!
