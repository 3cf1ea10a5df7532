//! The nominal type system at the boundary of the later type-checking pass.

use vstd::prelude::*;

use crate::context::{ty_def_id_of, GlobalContext};
use crate::def::{DefId, DefLocalId};
use crate::hil::{hil_get_unit_path, unit_path_of, Hil, HilId};
use crate::s_expr::{
    key_is, lemma_sxs, node_attr, node_fields, node_get_attr, node_get_field, sym_is, sxs, SExpr,
    Sx,
};

verus! {

/// The namespace path identifying one compiled unit.
pub struct UnitPath {
    pub name: Vec<String>,
}

impl UnitPath {
    /// Model of the path: its segments.
    pub open spec fn model(self) -> Seq<Seq<char>> {
        self.name.deep_view()
    }

    pub fn new(name: Vec<String>) -> (r: Self)
        ensures
            r.model() == name.deep_view(),
    {
        UnitPath { name }
    }
}

/// A reference to an interned type: an index into the context's type table.
pub type TypeRef = usize;

/// One generic argument of a type.
pub enum GenericArg {
    Ty(TypeRef),
}

/// One field of a variant.
pub struct FieldDef {
    pub def_id: DefId,
    pub name: String,
}

/// One variant of an algebraic data type.
pub struct VariantDef {
    pub name: String,
    pub fields: Vec<FieldDef>,
}

/// An algebraic data type: its definition identity and its variants.
pub struct AdtDef {
    pub def_id: DefId,
    pub variants: Vec<VariantDef>,
}

impl AdtDef {
    /// A definition with no variants yet.
    pub fn new(def_id: DefId) -> (r: Self)
        ensures
            r.def_id == def_id,
            r.variants@.len() == 0,
    {
        AdtDef { def_id, variants: Vec::new() }
    }
}

/// The shape of a type: referenced definitions are indices into the owning
/// context's tables.
pub enum TypeKind {
    Bool,
    Adt(usize, Vec<GenericArg>),
    Tuple(Vec<TypeRef>),
}

/// An interned type.
pub struct Type {
    pub kind: TypeKind,
}

impl Type {
    /// A nominal type naming the definition at index `def` with no generic
    /// arguments.
    pub fn make_adt(def: usize) -> (r: Self)
        ensures
            r.kind matches TypeKind::Adt(d, args) && d == def && args@.len() == 0,
    {
        Type { kind: TypeKind::Adt(def, Vec::new()) }
    }

    /// A tuple type over the given element types.
    pub fn make_tuple(elems: Vec<TypeRef>) -> (r: Self)
        ensures
            r.kind matches TypeKind::Tuple(es) && es@ == elems@,
    {
        Type { kind: TypeKind::Tuple(elems) }
    }

    /// The shape of this type.
    pub fn kind(&self) -> (r: &TypeKind)
        ensures
            *r == self.kind,
    {
        &self.kind
    }
}

/// Abstract shape of an interned type: nominal types carry the index of
/// their definition record, tuples the indices of their elements.
pub enum TyShape {
    Bool,
    Adt(int),
    Tuple(Seq<int>),
}

/// The shape a type value denotes.
pub open spec fn shape_of(t: Type) -> TyShape {
    match t.kind {
        TypeKind::Bool => TyShape::Bool,
        TypeKind::Adt(d, args) => TyShape::Adt(d as int),
        TypeKind::Tuple(es) => TyShape::Tuple(Seq::new(es@.len(), |i: int| es@[i] as int)),
    }
}

/// Model of the mutable type tables of the global context.
#[verifier::ext_equal]
pub struct GcxTypes {
    pub types: Seq<TyShape>,
    pub adts: Seq<DefId>,
}

/// The model of a global context's type tables.
pub open spec fn gcx_types(gcx: GlobalContext) -> GcxTypes {
    GcxTypes {
        types: Seq::new(gcx.type_cache.types@.len(), |i: int| shape_of(gcx.type_cache.types@[i])),
        adts: Seq::new(
            gcx.type_cache.adt_defs@.len(),
            |i: int| gcx.type_cache.adt_defs@[i].def_id,
        ),
    }
}

/// The effect of interning the type of one qualified-path type node: a fresh
/// definition record and a fresh nominal type over it, or the fatal outcome
/// on any other node.
pub open spec fn intern_spec(elems: Seq<Sx>, g: GcxTypes) -> Option<(GcxTypes, int)> {
    match ty_def_id_of(elems) {
        Some(d) => Some(
            (
                GcxTypes {
                    types: g.types.push(TyShape::Adt(g.adts.len() as int)),
                    adts: g.adts.push(d),
                },
                g.types.len() as int,
            ),
        ),
        None => None,
    }
}

/// The map a local-binding list denotes.
pub open spec fn lmap(l: Seq<(u32, usize)>) -> Map<u32, int>
    decreases l.len(),
{
    if l.len() == 0 {
        Map::empty()
    } else {
        lmap(l.drop_last()).insert(l.last().0, l.last().1 as int)
    }
}

/// If entry `i` has key `k` and no later entry does, the binding list maps
/// `k` to that entry's value.
pub proof fn lemma_lmap_found(l: Seq<(u32, usize)>, k: u32, i: int)
    requires
        0 <= i < l.len(),
        l[i].0 == k,
        forall|j: int| i < j < l.len() ==> l[j].0 != k,
    ensures
        lmap(l).contains_key(k),
        lmap(l)[k] == l[i].1 as int,
    decreases l.len(),
{
    if i == l.len() - 1 {
    } else {
        lemma_lmap_found(l.drop_last(), k, i);
    }
}

/// If no entry has key `k`, the binding list does not map it.
pub proof fn lemma_lmap_absent(l: Seq<(u32, usize)>, k: u32)
    requires
        forall|j: int| 0 <= j < l.len() ==> l[j].0 != k,
    ensures
        !lmap(l).contains_key(k),
    decreases l.len(),
{
    if l.len() > 0 {
        lemma_lmap_absent(l.drop_last(), k);
    }
}

/// The typing context of one definition being checked.
pub struct TyCtx {
    pub locals: Vec<(u32, usize)>,
}

impl TyCtx {
    /// Model of the local-binding types.
    pub open spec fn model(self) -> Map<u32, int> {
        lmap(self.locals@)
    }

    /// A fresh typing context for one definition of the given unit.
    pub fn new(_unit_path: &UnitPath) -> (r: Self)
        ensures
            r.model() == Map::<u32, int>::empty(),
    {
        TyCtx { locals: Vec::new() }
    }

    /// Records the type of the local binding with the given identity.
    pub fn add_local(&mut self, hil_id: HilId, t: TypeRef)
        ensures
            final(self).model() == old(self).model().insert(hil_id.private, t as int),
    {
        self.locals.push((hil_id.private, t));
        proof {
            assert(self.locals@.drop_last() =~= old(self).locals@);
        }
    }

    /// Interns the type a type node denotes; the fatal outcome on anything
    /// but a qualified path.
    pub fn parse_ty(&mut self, gcx: &mut GlobalContext, node: &Vec<SExpr>) -> (r: Option<TypeRef>)
        ensures
            *final(self) == *old(self),
            final(gcx).unit_cache == old(gcx).unit_cache,
            final(gcx).unit_type == old(gcx).unit_type,
            match r {
                Some(t) => intern_spec(sxs(node@), gcx_types(*old(gcx))) == Some(
                    (gcx_types(*final(gcx)), t as int),
                ),
                None => intern_spec(sxs(node@), gcx_types(*old(gcx))) is None && gcx_types(
                    *final(gcx),
                ) == gcx_types(*old(gcx)),
            },
    {
        let r = gcx.interned_type(node);
        proof {
            match r {
                Some(t) => {
                    assert(gcx_types(*gcx).types =~= gcx_types(*old(gcx)).types.push(
                        TyShape::Adt(gcx_types(*old(gcx)).adts.len() as int),
                    ));
                    assert(gcx_types(*gcx).adts =~= gcx_types(*old(gcx)).adts.push(
                        ty_def_id_of(sxs(node@)).unwrap(),
                    ));
                },
                None => {
                    assert(gcx_types(*gcx) =~= gcx_types(*old(gcx)));
                },
            }
        }
        r
    }

    /// The unit type: an empty tuple owned by the context.
    pub fn unit_type<'a>(&self, gcx: &'a GlobalContext) -> (r: &'a Type)
        ensures
            r == gcx.unit_type,
    {
        &gcx.unit_type
    }

    /// Whether two interned types are equal: both must be nominal, and they
    /// are equal exactly when they name the same definition identity. The
    /// fatal outcome on any other shapes.
    pub fn eq_type(&self, gcx: &GlobalContext, t: TypeRef, u: TypeRef) -> (r: Option<bool>)
        ensures
            r == eq_type_spec(gcx_types(*gcx), t as int, u as int),
    {
        let g = &gcx.type_cache;
        if t >= g.types.len() || u >= g.types.len() {
            return None;
        }
        let dt = match &g.types[t].kind {
            TypeKind::Adt(d, _) => *d,
            _ => {
                return None;
            },
        };
        let du = match &g.types[u].kind {
            TypeKind::Adt(d, _) => *d,
            _ => {
                return None;
            },
        };
        if dt >= g.adt_defs.len() || du >= g.adt_defs.len() {
            return None;
        }
        Some(g.adt_defs[dt].def_id == g.adt_defs[du].def_id)
    }

    /// Whether `u` is usable where `t` is expected; the nominal type system
    /// has no subtyping beyond equality.
    pub fn sub_type(&self, gcx: &GlobalContext, t: TypeRef, u: TypeRef) -> (r: Option<bool>)
        ensures
            r == eq_type_spec(gcx_types(*gcx), t as int, u as int),
    {
        self.eq_type(gcx, t, u)
    }

    /// Checks one expression against the expected type; `None` is the fatal
    /// outcome: a type mismatch, an expression that cannot be inferred, or a
    /// malformed node.
    pub fn check_expr(&self, gcx: &GlobalContext, dst: TypeRef, expr: &Vec<SExpr>) -> (r: Option<
        (),
    >)
        ensures
            r is Some <==> check_expr_spec(gcx_types(*gcx), self.model(), dst as int, sxs(expr@))
                == Some(true),
    {
        let src = match self.infer_expr(expr) {
            Some(s) => s,
            None => {
                return None;
            },
        };
        match self.sub_type(gcx, dst, src) {
            Some(true) => Some(()),
            _ => None,
        }
    }

    /// Infers the type of one expression: only a local reference — a `qpath`
    /// expression whose `Path` carries a `local` identity with a recorded
    /// type — can be inferred; everything else is the fatal outcome.
    pub fn infer_expr(&self, expr: &Vec<SExpr>) -> (r: Option<TypeRef>)
        ensures
            match r {
                Some(t) => infer_spec(self.model(), sxs(expr@)) == Some(t as int),
                None => infer_spec(self.model(), sxs(expr@)) is None,
            },
    {
        proof {
            lemma_sxs(expr@);
        }
        if !(expr.len() > 0 && sym_is(&expr[0], "Expr")) {
            proof {
                if expr@.len() > 0 {
                    assert(sxs(expr@)[0] == expr@[0]@);
                }
            }
            return None;
        }
        proof {
            assert(sxs(expr@)[0] == expr@[0]@);
        }
        let kind = match node_get_attr(expr, "kind") {
            Some(v) => v,
            None => {
                return None;
            },
        };
        if !key_is(kind, "qpath") {
            return None;
        }
        let qpath = match node_get_field(expr, 0) {
            Some(SExpr::List(v)) => {
                proof {
                    assert(node_fields(sxs(expr@))[0] == Sx::List(sxs(v@)));
                }
                v
            },
            _ => {
                return None;
            },
        };
        proof {
            lemma_sxs(qpath@);
        }
        if !(qpath.len() > 0 && sym_is(&qpath[0], "Path")) {
            proof {
                if qpath@.len() > 0 {
                    assert(sxs(qpath@)[0] == qpath@[0]@);
                }
            }
            return None;
        }
        proof {
            assert(sxs(qpath@)[0] == qpath@[0]@);
        }
        let pkind = match node_get_attr(qpath, "kind") {
            Some(v) => v,
            None => {
                return None;
            },
        };
        if !key_is(pkind, "local") {
            return None;
        }
        let target = match node_get_attr(qpath, "local") {
            Some(v) => v,
            None => {
                return None;
            },
        };
        let hid = match HilId::from_s_expr(target) {
            Some(h) => h,
            None => {
                return None;
            },
        };
        let mut j: usize = self.locals.len();
        let mut f: Option<usize> = None;
        while j > 0 && f.is_none()
            invariant
                0 <= j <= self.locals@.len(),
                match f {
                    Some(v) => lmap(self.locals@).contains_key(hid.private)
                        && lmap(self.locals@)[hid.private] == v as int,
                    None => forall|q: int|
                        j <= q < self.locals@.len() ==> self.locals@[q].0 != hid.private,
                },
            decreases j,
        {
            j = j - 1;
            if self.locals[j].0 == hid.private {
                proof {
                    lemma_lmap_found(self.locals@, hid.private, j as int);
                }
                f = Some(self.locals[j].1);
            }
        }
        proof {
            if f is None {
                lemma_lmap_absent(self.locals@, hid.private);
            }
        }
        f
    }
}

/// Whether two interned types are equal: defined when both are in range and
/// nominal with in-range definition records, as the identity of the named
/// definitions.
pub open spec fn eq_type_spec(g: GcxTypes, t: int, u: int) -> Option<bool> {
    if 0 <= t < g.types.len() && 0 <= u < g.types.len() {
        match (g.types[t], g.types[u]) {
            (TyShape::Adt(dt), TyShape::Adt(du)) => {
                if 0 <= dt < g.adts.len() && 0 <= du < g.adts.len() {
                    Some(g.adts[dt] == g.adts[du])
                } else {
                    None
                }
            },
            _ => None,
        }
    } else {
        None
    }
}

/// The inferred type of an expression node: the recorded type of the local
/// binding a `local` qualified path names.
pub open spec fn infer_spec(locals: Map<u32, int>, elems: Seq<Sx>) -> Option<int> {
    if crate::ast::head_is(elems, "Expr"@) && crate::ast::kind_of(elems) == Some("qpath"@) {
        if node_fields(elems).len() >= 1 {
            match node_fields(elems)[0] {
                Sx::List(path_em) => {
                    if crate::ast::head_is(path_em, "Path"@) && crate::ast::kind_of(path_em)
                        == Some("local"@) {
                        match node_attr(path_em, "local"@) {
                            Some(target) => match HilId::of_sx(target) {
                                Some(h) => {
                                    if locals.contains_key(h.private) {
                                        Some(locals[h.private])
                                    } else {
                                        None
                                    }
                                },
                                None => None,
                            },
                            None => None,
                        }
                    } else {
                        None
                    }
                },
                _ => None,
            }
        } else {
            None
        }
    } else {
        None
    }
}

/// The verdict of checking an expression against an expected type.
pub open spec fn check_expr_spec(g: GcxTypes, locals: Map<u32, int>, dst: int, elems: Seq<Sx>) -> Option<
    bool,
> {
    match infer_spec(locals, elems) {
        Some(src) => eq_type_spec(g, dst, src),
        None => None,
    }
}

/// Model of the state threaded through checking one definition: the type
/// tables, the local-binding types, and the stack of expected block results.
#[verifier::ext_equal]
pub struct DefnSt {
    pub g: GcxTypes,
    pub locals: Map<u32, int>,
    pub blocks: Seq<int>,
}

/// Records the parameters of a declaration, in order: each parameter's
/// identity is bound to its interned type.
pub open spec fn params_spec(params: Seq<Sx>, st: DefnSt) -> Option<DefnSt>
    decreases params,
{
    if params.len() == 0 {
        Some(st)
    } else {
        match params.first() {
            Sx::List(p_em) => {
                match node_attr(p_em, "hil_id"@) {
                    Some(target) => match HilId::of_sx(target) {
                        Some(h) => {
                            if node_fields(p_em).len() >= 2 {
                                match node_fields(p_em)[1] {
                                    Sx::List(ty_em) => match intern_spec(ty_em, st.g) {
                                        Some((g2, t)) => params_spec(
                                            params.drop_first(),
                                            DefnSt {
                                                g: g2,
                                                locals: st.locals.insert(h.private, t),
                                                blocks: st.blocks,
                                            },
                                        ),
                                        None => None,
                                    },
                                    _ => None,
                                }
                            } else {
                                None
                            }
                        },
                        None => None,
                    },
                    None => None,
                }
            },
            _ => None,
        }
    }
}

/// The effect of reaching one node while checking a definition: a signature
/// records its parameters' types and pushes the declared result type, an
/// expression statement is checked against the innermost expected type.
pub open spec fn defn_enter(elems: Seq<Sx>, st: DefnSt) -> Option<DefnSt> {
    if crate::ast::head_is(elems, "FnSig"@) {
        if node_fields(elems).len() >= 1 {
            match node_fields(elems)[0] {
                Sx::List(decl_em) => {
                    if node_fields(decl_em).len() >= 1 {
                        match node_fields(decl_em)[0] {
                            Sx::Vect(params) => match params_spec(params, st) {
                                Some(st1) => {
                                    if node_fields(decl_em).len() >= 2 {
                                        match node_fields(decl_em)[1] {
                                            Sx::List(ret_em) => {
                                                if node_fields(ret_em).len() >= 1 {
                                                    match node_fields(ret_em)[0] {
                                                        Sx::List(ty_em) => match intern_spec(
                                                            ty_em,
                                                            st1.g,
                                                        ) {
                                                            Some((g2, t)) => Some(
                                                                DefnSt {
                                                                    g: g2,
                                                                    locals: st1.locals,
                                                                    blocks: st1.blocks.push(t),
                                                                },
                                                            ),
                                                            None => None,
                                                        },
                                                        _ => None,
                                                    }
                                                } else {
                                                    None
                                                }
                                            },
                                            _ => None,
                                        }
                                    } else {
                                        None
                                    }
                                },
                                None => None,
                            },
                            _ => None,
                        }
                    } else {
                        None
                    }
                },
                _ => None,
            }
        } else {
            None
        }
    } else if crate::ast::head_is(elems, "Stmt"@) {
        match node_attr(elems, "kind"@) {
            Some(Sx::Key(k)) => {
                if k == "expr"@ {
                    if st.blocks.len() == 0 {
                        None
                    } else if node_fields(elems).len() >= 1 {
                        match node_fields(elems)[0] {
                            Sx::List(e_em) => {
                                if check_expr_spec(st.g, st.locals, st.blocks.last(), e_em)
                                    == Some(true) {
                                    Some(st)
                                } else {
                                    None
                                }
                            },
                            _ => None,
                        }
                    } else {
                        None
                    }
                } else {
                    Some(st)
                }
            },
            _ => None,
        }
    } else {
        Some(st)
    }
}

/// The effect of leaving one node while checking a definition: a block pops
/// its expected result type.
pub open spec fn defn_exit(elems: Seq<Sx>, st: DefnSt) -> DefnSt {
    if crate::ast::head_is(elems, "Block"@) && st.blocks.len() > 0 {
        DefnSt { g: st.g, locals: st.locals, blocks: st.blocks.drop_last() }
    } else {
        st
    }
}

/// The walk checking one definition.
pub open spec fn defn_walk(x: Sx, st: DefnSt) -> Option<DefnSt>
    decreases x,
{
    match x {
        Sx::List(elems) => match defn_enter(elems, st) {
            Some(st1) => match defn_walk_seq(elems, st1) {
                Some(st2) => Some(defn_exit(elems, st2)),
                None => None,
            },
            None => None,
        },
        Sx::Vect(elems) => defn_walk_seq(elems, st),
        _ => Some(st),
    }
}

/// The walk checking one definition, over a sequence of trees.
pub open spec fn defn_walk_seq(elems: Seq<Sx>, st: DefnSt) -> Option<DefnSt>
    decreases elems,
{
    if elems.len() == 0 {
        Some(st)
    } else {
        match defn_walk(elems.first(), st) {
            Some(st1) => defn_walk_seq(elems.drop_first(), st1),
            None => None,
        }
    }
}

/// Checks the body of one definition against its declared signature.
pub struct DefnTypeChecker {
    pub ty_ctx: TyCtx,
    pub block_types: Vec<TypeRef>,
}

impl DefnTypeChecker {
    /// Model of the checking state, under the given type tables.
    pub open spec fn model(self, g: GcxTypes) -> DefnSt {
        DefnSt {
            g: g,
            locals: self.ty_ctx.model(),
            blocks: Seq::new(self.block_types@.len(), |i: int| self.block_types@[i] as int),
        }
    }

    /// A fresh check over the given typing context.
    pub fn new(ty_ctx: TyCtx) -> (r: Self)
        ensures
            r.ty_ctx == ty_ctx,
            r.block_types@.len() == 0,
    {
        DefnTypeChecker { ty_ctx, block_types: Vec::new() }
    }

    /// Records the parameter types of a signature and pushes its declared
    /// result type; `false` is the fatal outcome on malformed input.
    fn visit_fn_sig(&mut self, gcx: &mut GlobalContext, node: &Vec<SExpr>) -> (r: bool)
        requires
            crate::ast::head_is(sxs(node@), "FnSig"@),
        ensures
            final(gcx).unit_cache == old(gcx).unit_cache,
            final(gcx).unit_type == old(gcx).unit_type,
            match defn_enter(sxs(node@), old(self).model(gcx_types(*old(gcx)))) {
                Some(st) => r && final(self).model(gcx_types(*final(gcx))) == st,
                None => !r,
            },
    {
        proof {
            lemma_sxs(node@);
            crate::ast::lemma_tags_distinct2();
        }
        let decl_em = match node_get_field(node, 0) {
            Some(SExpr::List(v)) => {
                proof {
                    assert(node_fields(sxs(node@))[0] == Sx::List(sxs(v@)));
                }
                v
            },
            _ => {
                return false;
            },
        };
        let params = match node_get_field(decl_em, 0) {
            Some(SExpr::Vect(v)) => {
                proof {
                    assert(node_fields(sxs(decl_em@))[0] == Sx::Vect(sxs(v@)));
                }
                v
            },
            _ => {
                return false;
            },
        };
        proof {
            lemma_sxs(params@);
            assert(sxs(params@).skip(0) =~= sxs(params@));
        }
        let ghost pm = sxs(params@);
        let mut i: usize = 0;
        #[verifier::loop_isolation(false)]
        while i < params.len()
            invariant
                0 <= i <= params.len(),
                gcx.unit_cache == old(gcx).unit_cache,
                gcx.unit_type == old(gcx).unit_type,
                self.block_types == old(self).block_types,
                params_spec(pm, old(self).model(gcx_types(*old(gcx)))) == params_spec(
                    pm.skip(i as int),
                    self.model(gcx_types(*gcx)),
                ),
            decreases params.len() - i,
        {
            let ghost pre = pm.skip(i as int);
            proof {
                assert(pre.first() == pm[i as int]);
                assert(pre.first() == params@[i as int]@);
                assert(pre.drop_first() =~= pm.skip(i + 1 as int));
            }
            let p_em = match &params[i] {
                SExpr::List(v) => {
                    proof {
                        assert(params@[i as int]@ == Sx::List(sxs(v@)));
                    }
                    v
                },
                _ => {
                    return false;
                },
            };
            let target = match node_get_attr(p_em, "hil_id") {
                Some(v) => v,
                None => {
                    return false;
                },
            };
            let h = match HilId::from_s_expr(target) {
                Some(h) => h,
                None => {
                    return false;
                },
            };
            let ty_em = match node_get_field(p_em, 1) {
                Some(SExpr::List(v)) => {
                    proof {
                        assert(node_fields(sxs(p_em@))[1] == Sx::List(sxs(v@)));
                    }
                    v
                },
                _ => {
                    return false;
                },
            };
            let t = match self.ty_ctx.parse_ty(gcx, ty_em) {
                Some(t) => t,
                None => {
                    return false;
                },
            };
            self.ty_ctx.add_local(h, t);
            i = i + 1;
        }
        proof {
            assert(pm.skip(i as int).len() == 0);
        }
        let ret_em = match node_get_field(decl_em, 1) {
            Some(SExpr::List(v)) => {
                proof {
                    assert(node_fields(sxs(decl_em@))[1] == Sx::List(sxs(v@)));
                }
                v
            },
            _ => {
                return false;
            },
        };
        let ty_em = match node_get_field(ret_em, 0) {
            Some(SExpr::List(v)) => {
                proof {
                    assert(node_fields(sxs(ret_em@))[0] == Sx::List(sxs(v@)));
                }
                v
            },
            _ => {
                return false;
            },
        };
        let t = match self.ty_ctx.parse_ty(gcx, ty_em) {
            Some(t) => t,
            None => {
                return false;
            },
        };
        let ghost preblocks = self.model(gcx_types(*gcx)).blocks;
        self.block_types.push(t);
        proof {
            assert(self.model(gcx_types(*gcx)).blocks =~= preblocks.push(t as int));
        }
        true
    }

    /// Checks an expression statement against the innermost expected block
    /// result; `false` is the fatal outcome.
    fn visit_stmt(&mut self, gcx: &GlobalContext, node: &Vec<SExpr>) -> (r: bool)
        requires
            crate::ast::head_is(sxs(node@), "Stmt"@),
        ensures
            *final(self) == *old(self),
            match defn_enter(sxs(node@), old(self).model(gcx_types(*gcx))) {
                Some(st) => r && final(self).model(gcx_types(*gcx)) == st,
                None => !r,
            },
    {
        proof {
            lemma_sxs(node@);
            crate::ast::lemma_tags_distinct2();
        }
        let kind = match node_get_attr(node, "kind") {
            Some(SExpr::Key(k)) => k.clone(),
            _ => {
                return false;
            },
        };
        if !(kind == "expr".to_owned()) {
            return true;
        }
        if self.block_types.len() == 0 {
            return false;
        }
        let dst = self.block_types[self.block_types.len() - 1];
        let e_em = match node_get_field(node, 0) {
            Some(SExpr::List(v)) => {
                proof {
                    assert(node_fields(sxs(node@))[0] == Sx::List(sxs(v@)));
                }
                v
            },
            _ => {
                return false;
            },
        };
        match self.ty_ctx.check_expr(gcx, dst, e_em) {
            Some(()) => true,
            None => false,
        }
    }

    /// Pops the block's expected result type.
    fn visit_post_block(&mut self, node: &Vec<SExpr>, Ghost(g): Ghost<GcxTypes>)
        requires
            crate::ast::head_is(sxs(node@), "Block"@),
        ensures
            final(self).model(g) == defn_exit(sxs(node@), old(self).model(g)),
    {
        let ghost pre = self.model(g).blocks;
        let _ = self.block_types.pop();
        proof {
            if pre.len() > 0 {
                assert(self.model(g).blocks =~= pre.drop_last());
            } else {
                assert(self.model(g).blocks =~= pre);
            }
        }
    }

    /// Walks one node of the definition being checked: the entry hooks, all
    /// elements, and the exit hook.
    fn visit_node(&mut self, gcx: &mut GlobalContext, elems: &Vec<SExpr>) -> (r: bool)
        ensures
            final(gcx).unit_cache == old(gcx).unit_cache,
            final(gcx).unit_type == old(gcx).unit_type,
            match defn_walk(Sx::List(sxs(elems@)), old(self).model(gcx_types(*old(gcx)))) {
                Some(st) => r && final(self).model(gcx_types(*final(gcx))) == st,
                None => !r,
            },
        decreases elems, 1nat,
    {
        proof {
            lemma_sxs(elems@);
            crate::ast::lemma_tags_distinct2();
        }
        if elems.len() > 0 && sym_is(&elems[0], "FnSig") {
            if !self.visit_fn_sig(gcx, elems) {
                return false;
            }
        } else if elems.len() > 0 && sym_is(&elems[0], "Stmt") {
            if !self.visit_stmt(gcx, elems) {
                return false;
            }
        }
        proof {
            assert(defn_enter(sxs(elems@), old(self).model(gcx_types(*old(gcx)))) == Some(
                self.model(gcx_types(*gcx)),
            ));
            assert(sxs(elems@).skip(0) =~= sxs(elems@));
        }
        let ghost st1 = self.model(gcx_types(*gcx));
        let mut i: usize = 0;
        #[verifier::loop_isolation(false)]
        while i < elems.len()
            invariant
                0 <= i <= elems.len(),
                gcx.unit_cache == old(gcx).unit_cache,
                gcx.unit_type == old(gcx).unit_type,
                defn_walk_seq(sxs(elems@), st1) == defn_walk_seq(
                    sxs(elems@).skip(i as int),
                    self.model(gcx_types(*gcx)),
                ),
            decreases elems.len() - i,
        {
            let ghost pre = sxs(elems@).skip(i as int);
            proof {
                assert(pre.first() == sxs(elems@)[i as int]);
                assert(pre.first() == elems@[i as int]@);
                assert(pre.drop_first() =~= sxs(elems@).skip(i + 1 as int));
            }
            if !self.visit(gcx, &elems[i]) {
                return false;
            }
            i = i + 1;
        }
        proof {
            assert(sxs(elems@).skip(i as int).len() == 0);
        }
        let ghost st2 = self.model(gcx_types(*gcx));
        if elems.len() > 0 && sym_is(&elems[0], "Block") {
            self.visit_post_block(elems, Ghost(gcx_types(*gcx)));
        }
        proof {
            assert(self.model(gcx_types(*gcx)) =~= defn_exit(sxs(elems@), st2));
        }
        true
    }

    /// Walks one tree of the definition being checked.
    fn visit(&mut self, gcx: &mut GlobalContext, ast: &SExpr) -> (r: bool)
        ensures
            final(gcx).unit_cache == old(gcx).unit_cache,
            final(gcx).unit_type == old(gcx).unit_type,
            match defn_walk(ast@, old(self).model(gcx_types(*old(gcx)))) {
                Some(st) => r && final(self).model(gcx_types(*final(gcx))) == st,
                None => !r,
            },
        decreases ast, 0nat,
    {
        match ast {
            SExpr::List(elems) => {
                proof {
                    assert(ast@ == Sx::List(sxs(elems@)));
                }
                self.visit_node(gcx, elems)
            },
            SExpr::Vect(elems) => {
                proof {
                    lemma_sxs(elems@);
                    assert(ast@ == Sx::Vect(sxs(elems@)));
                    assert(sxs(elems@).skip(0) =~= sxs(elems@));
                }
                let mut i: usize = 0;
                #[verifier::loop_isolation(false)]
                while i < elems.len()
                    invariant
                        0 <= i <= elems.len(),
                        gcx.unit_cache == old(gcx).unit_cache,
                        gcx.unit_type == old(gcx).unit_type,
                        defn_walk_seq(sxs(elems@), old(self).model(gcx_types(*old(gcx))))
                            == defn_walk_seq(
                            sxs(elems@).skip(i as int),
                            self.model(gcx_types(*gcx)),
                        ),
                    decreases elems.len() - i,
                {
                    let ghost pre = sxs(elems@).skip(i as int);
                    proof {
                        assert(pre.first() == sxs(elems@)[i as int]);
                        assert(pre.first() == elems@[i as int]@);
                        assert(pre.drop_first() =~= sxs(elems@).skip(i + 1 as int));
                    }
                    if !self.visit(gcx, &elems[i]) {
                        return false;
                    }
                    i = i + 1;
                }
                proof {
                    assert(sxs(elems@).skip(i as int).len() == 0);
                }
                true
            },
            _ => true,
        }
    }

    /// Hands the finished typing context over.
    pub fn collect(self) -> (r: TyCtx)
        ensures
            r == self.ty_ctx,
    {
        self.ty_ctx
    }
}

/// The per-definition typing contexts a type-check run produced, keyed by
/// definition identity.
pub struct TypeCheckContext {
    pub ty_ctxs: Vec<(DefId, TyCtx)>,
}

impl TypeCheckContext {
    /// Model: the recorded definitions in order, each with its local-binding
    /// types.
    pub open spec fn model(self) -> Seq<(DefId, Map<u32, int>)> {
        Seq::new(self.ty_ctxs@.len(), |i: int| (self.ty_ctxs@[i].0, self.ty_ctxs@[i].1.model()))
    }

    /// No definitions checked yet.
    pub fn new() -> (r: Self)
        ensures
            r.model() == Seq::<(DefId, Map<u32, int>)>::empty(),
    {
        let r = TypeCheckContext { ty_ctxs: Vec::new() };
        proof {
            assert(r.model() =~= Seq::<(DefId, Map<u32, int>)>::empty());
        }
        r
    }
}

/// Model of a whole type-check run: the type tables and the contexts
/// recorded so far.
#[verifier::ext_equal]
pub struct UnitSt {
    pub g: GcxTypes,
    pub ctxs: Seq<(DefId, Map<u32, int>)>,
}

/// The effect of checking one definition node: a nested walk of its subtree
/// with a fresh typing context, recorded under the node's `def_id`.
pub open spec fn check_defn_spec(elems: Seq<Sx>, st: UnitSt) -> Option<UnitSt> {
    match defn_walk(
        Sx::List(elems),
        DefnSt { g: st.g, locals: Map::empty(), blocks: Seq::empty() },
    ) {
        Some(dst) => match node_attr(elems, "def_id"@) {
            Some(target) => match DefLocalId::of_sx(target) {
                Some(dl) => Some(
                    UnitSt {
                        g: dst.g,
                        ctxs: st.ctxs.push(
                            (
                                DefId {
                                    unit: crate::def::UnitNum(crate::def::LOCAL_UNIT),
                                    offset: dl,
                                },
                                dst.locals,
                            ),
                        ),
                    },
                ),
                None => None,
            },
            None => None,
        },
        None => None,
    }
}

/// The effect of reaching one node in the unit walk: an `Item` or `Binding`
/// of kind `defn` has its subtree checked.
pub open spec fn unit_enter(elems: Seq<Sx>, st: UnitSt) -> Option<UnitSt> {
    if crate::ast::head_is(elems, "Item"@) || crate::ast::head_is(elems, "Binding"@) {
        match node_attr(elems, "kind"@) {
            Some(Sx::Key(k)) => {
                if k == "defn"@ {
                    check_defn_spec(elems, st)
                } else {
                    Some(st)
                }
            },
            _ => None,
        }
    } else {
        Some(st)
    }
}

/// The unit walk over one tree.
pub open spec fn unit_walk(x: Sx, st: UnitSt) -> Option<UnitSt>
    decreases x,
{
    match x {
        Sx::List(elems) => match unit_enter(elems, st) {
            Some(st1) => unit_walk_seq(elems, st1),
            None => None,
        },
        Sx::Vect(elems) => unit_walk_seq(elems, st),
        _ => Some(st),
    }
}

/// The unit walk over a sequence of trees.
pub open spec fn unit_walk_seq(elems: Seq<Sx>, st: UnitSt) -> Option<UnitSt>
    decreases elems,
{
    if elems.len() == 0 {
        Some(st)
    } else {
        match unit_walk(elems.first(), st) {
            Some(st1) => unit_walk_seq(elems.drop_first(), st1),
            None => None,
        }
    }
}

/// The type-check pass over one unit: every function item and every function
/// binding is checked, in document order; `None` is the fatal outcome — a
/// type mismatch or malformed input.
pub open spec fn ty_check_spec(hil: Sx, g: GcxTypes) -> Option<UnitSt> {
    if unit_path_of(hil) is Some {
        unit_walk(hil, UnitSt { g: g, ctxs: Seq::empty() })
    } else {
        None
    }
}

/// Checks every definition of one unit.
pub struct UnitTypeChecker {
    pub unit_path: UnitPath,
    pub ctx: TypeCheckContext,
}

impl UnitTypeChecker {
    /// Model of the run's recorded contexts, under the given type tables.
    pub open spec fn model(self, g: GcxTypes) -> UnitSt {
        UnitSt { g: g, ctxs: self.ctx.model() }
    }

    /// A fresh run over the unit at the given path.
    pub fn new(unit_path: UnitPath) -> (r: Self)
        ensures
            r.ctx.model() == Seq::<(DefId, Map<u32, int>)>::empty(),
            r.unit_path == unit_path,
    {
        UnitTypeChecker { unit_path, ctx: TypeCheckContext::new() }
    }

    /// Checks one definition node with a fresh typing context and records the
    /// result under the node's `def_id`.
    fn check_defn(&mut self, gcx: &mut GlobalContext, node: &Vec<SExpr>) -> (r: bool)
        ensures
            final(gcx).unit_cache == old(gcx).unit_cache,
            final(gcx).unit_type == old(gcx).unit_type,
            final(self).unit_path == old(self).unit_path,
            match check_defn_spec(sxs(node@), old(self).model(gcx_types(*old(gcx)))) {
                Some(st) => r && final(self).model(gcx_types(*final(gcx))) == st,
                None => !r,
            },
    {
        let ty_ctx = TyCtx::new(&self.unit_path);
        let mut defn_checker = DefnTypeChecker::new(ty_ctx);
        proof {
            lemma_sxs(node@);
            assert(defn_checker.model(gcx_types(*gcx)) =~= DefnSt {
                g: gcx_types(*gcx),
                locals: Map::empty(),
                blocks: Seq::empty(),
            });
            assert(SExpr::List(*node)@ == Sx::List(sxs(node@)));
        }
        let ok = defn_checker.visit_node(gcx, node);
        if !ok {
            return false;
        }
        let target = match node_get_attr(node, "def_id") {
            Some(v) => v,
            None => {
                return false;
            },
        };
        let dl = match DefLocalId::from_s_expr(target) {
            Some(d) => d,
            None => {
                return false;
            },
        };
        let collected = defn_checker.collect();
        let ghost prectxs = self.ctx.model();
        let did = dl.to_def_id();
        self.ctx.ty_ctxs.push((did, collected));
        proof {
            assert(self.ctx.model() =~= prectxs.push((did, collected.model())));
        }
        true
    }

    /// Walks one tree, checking every definition item or binding it holds.
    pub fn visit(&mut self, gcx: &mut GlobalContext, ast: &SExpr) -> (r: bool)
        ensures
            final(gcx).unit_cache == old(gcx).unit_cache,
            final(gcx).unit_type == old(gcx).unit_type,
            final(self).unit_path == old(self).unit_path,
            match unit_walk(ast@, old(self).model(gcx_types(*old(gcx)))) {
                Some(st) => r && final(self).model(gcx_types(*final(gcx))) == st,
                None => !r,
            },
        decreases ast,
    {
        match ast {
            SExpr::List(elems) => {
                proof {
                    lemma_sxs(elems@);
                    crate::ast::lemma_tags_distinct();
                    assert(ast@ == Sx::List(sxs(elems@)));
                }
                if elems.len() > 0 && (sym_is(&elems[0], "Item") || sym_is(&elems[0], "Binding")) {
                    let kind = match node_get_attr(elems, "kind") {
                        Some(SExpr::Key(k)) => k.clone(),
                        _ => {
                            return false;
                        },
                    };
                    if kind == "defn".to_owned() {
                        if !self.check_defn(gcx, elems) {
                            return false;
                        }
                    }
                }
                proof {
                    assert(unit_enter(sxs(elems@), old(self).model(gcx_types(*old(gcx)))) == Some(
                        self.model(gcx_types(*gcx)),
                    ));
                    assert(sxs(elems@).skip(0) =~= sxs(elems@));
                }
                let ghost st1 = self.model(gcx_types(*gcx));
                let mut i: usize = 0;
                #[verifier::loop_isolation(false)]
                while i < elems.len()
                    invariant
                        0 <= i <= elems.len(),
                        gcx.unit_cache == old(gcx).unit_cache,
                        gcx.unit_type == old(gcx).unit_type,
                        self.unit_path == old(self).unit_path,
                        unit_walk_seq(sxs(elems@), st1) == unit_walk_seq(
                            sxs(elems@).skip(i as int),
                            self.model(gcx_types(*gcx)),
                        ),
                    decreases elems.len() - i,
                {
                    let ghost pre = sxs(elems@).skip(i as int);
                    proof {
                        assert(pre.first() == sxs(elems@)[i as int]);
                        assert(pre.first() == elems@[i as int]@);
                        assert(pre.drop_first() =~= sxs(elems@).skip(i + 1 as int));
                    }
                    if !self.visit(gcx, &elems[i]) {
                        return false;
                    }
                    i = i + 1;
                }
                proof {
                    assert(sxs(elems@).skip(i as int).len() == 0);
                }
                true
            },
            SExpr::Vect(elems) => {
                proof {
                    lemma_sxs(elems@);
                    assert(ast@ == Sx::Vect(sxs(elems@)));
                    assert(sxs(elems@).skip(0) =~= sxs(elems@));
                }
                let mut i: usize = 0;
                #[verifier::loop_isolation(false)]
                while i < elems.len()
                    invariant
                        0 <= i <= elems.len(),
                        gcx.unit_cache == old(gcx).unit_cache,
                        gcx.unit_type == old(gcx).unit_type,
                        self.unit_path == old(self).unit_path,
                        unit_walk_seq(sxs(elems@), old(self).model(gcx_types(*old(gcx))))
                            == unit_walk_seq(
                            sxs(elems@).skip(i as int),
                            self.model(gcx_types(*gcx)),
                        ),
                    decreases elems.len() - i,
                {
                    let ghost pre = sxs(elems@).skip(i as int);
                    proof {
                        assert(pre.first() == sxs(elems@)[i as int]);
                        assert(pre.first() == elems@[i as int]@);
                        assert(pre.drop_first() =~= sxs(elems@).skip(i + 1 as int));
                    }
                    if !self.visit(gcx, &elems[i]) {
                        return false;
                    }
                    i = i + 1;
                }
                proof {
                    assert(sxs(elems@).skip(i as int).len() == 0);
                }
                true
            },
            _ => true,
        }
    }

    /// Hands the finished per-definition contexts over.
    pub fn collect(self) -> (r: TypeCheckContext)
        ensures
            r == self.ctx,
    {
        self.ctx
    }
}

/// Type-checks one unit: walks the HIL, checking every function item and
/// function binding; `None` is the fatal outcome on a type mismatch or
/// malformed input.
pub fn ty_check(global_ctx: &mut GlobalContext, hil: &Hil) -> (r: Option<TypeCheckContext>)
    ensures
        final(global_ctx).unit_cache == old(global_ctx).unit_cache,
        final(global_ctx).unit_type == old(global_ctx).unit_type,
        match ty_check_spec(hil@, gcx_types(*old(global_ctx))) {
            Some(st) => r matches Some(c) && c.model() == st.ctxs && gcx_types(*final(global_ctx))
                == st.g,
            None => r is None,
        },
{
    let unit_path = match hil_get_unit_path(hil) {
        Some(p) => p,
        None => {
            return None;
        },
    };
    let mut type_checker = UnitTypeChecker::new(unit_path);
    proof {
        assert(type_checker.model(gcx_types(*global_ctx)) =~= UnitSt {
            g: gcx_types(*global_ctx),
            ctxs: Seq::empty(),
        });
    }
    if !type_checker.visit(global_ctx, hil) {
        return None;
    }
    Some(type_checker.collect())
}

} // verus!
