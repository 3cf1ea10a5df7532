//! The binary unit interface: the exported summary of a compiled unit.
//!
//! Walking the HIL collects one record per item — its identifier, its
//! namespace path, its `def_id`, and a discriminated kind (class, defn,
//! interface or module) with nested signatures. Other units consume these
//! records through the unit cache, keyed by `(unit, offset)` pairs matching
//! the shape of a definition identity.

use vstd::prelude::*;

use crate::def::DefId;
use crate::s_expr::{
    key_is, lemma_sxs, node_attr, node_fields, node_get_attr, node_get_field, node_get_fields,
    sym_is, sxs, sxs_refs, SExpr, Sx,
};

verus! {

/// Model of a reference to an item of some unit.
pub struct BuiItemRefM {
    pub unit: u16,
    pub def: u32,
}

/// Model of an exported type.
pub enum BuiTyM {
    Bool,
    Int,
    Adt(BuiItemRefM),
    Tuple(Seq<BuiTyM>),
}

/// Model of an exported type declaration.
pub enum BuiTyDeclM {
    Opaque,
    Transparent(BuiTyM),
}

/// Model of an exported function: the types of its inputs.
pub struct BuiDefnM {
    pub inputs: Seq<BuiTyM>,
}

/// Model of an exported item kind.
pub enum BuiItemKindM {
    Class(Seq<Seq<char>>),
    Defn(BuiDefnM),
    Interface(Seq<(Seq<char>, BuiTyDeclM)>, Seq<(Seq<char>, BuiDefnM)>),
    Module(Seq<(Seq<char>, BuiTyM)>, Seq<(Seq<char>, BuiDefnM)>),
}

/// Model of one exported item.
pub struct BuiItemM {
    pub ident: Seq<char>,
    pub namespace: Seq<Seq<char>>,
    pub def: u32,
    pub kind: BuiItemKindM,
}

/// A reference to an item of some unit: the unit number and the item's
/// offset within it.
pub struct BuiItemRef {
    pub unit: u16,
    pub def: u32,
}

impl BuiItemRef {
    pub open spec fn model(self) -> BuiItemRefM {
        BuiItemRefM { unit: self.unit, def: self.def }
    }

    /// The unit the referenced item belongs to.
    pub fn unit(&self) -> (r: u16)
        ensures
            r == self.unit,
    {
        self.unit
    }

    /// The offset of the referenced item within its unit.
    pub fn def(&self) -> (r: u32)
        ensures
            r == self.def,
    {
        self.def
    }
}

/// An exported type.
pub enum BuiTy {
    Bool,
    Int,
    Adt(BuiItemRef),
    Tuple(Vec<BuiTy>),
}

impl BuiTy {
    /// Model of the exported type.
    pub open spec fn model(self) -> BuiTyM
        decreases self,
    {
        match self {
            BuiTy::Bool => BuiTyM::Bool,
            BuiTy::Int => BuiTyM::Int,
            BuiTy::Adt(r) => BuiTyM::Adt(r.model()),
            BuiTy::Tuple(v) => BuiTyM::Tuple(Self::model_seq(v@)),
        }
    }

    /// Models of a sequence of exported types.
    pub open spec fn model_seq(v: Seq<BuiTy>) -> Seq<BuiTyM>
        decreases v,
    {
        if v.len() == 0 {
            Seq::empty()
        } else {
            seq![v[0].model()] + Self::model_seq(v.drop_first())
        }
    }

    /// Whether this is the boolean type.
    pub fn is_bool(&self) -> (r: bool)
        ensures
            r <==> self.model() is Bool,
    {
        match self {
            BuiTy::Bool => true,
            _ => false,
        }
    }

    /// The referenced item, for a nominal type.
    pub fn adt(&self) -> (r: Option<&BuiItemRef>)
        ensures
            match r {
                Some(a) => self.model() == BuiTyM::Adt(a.model()),
                None => !(self.model() is Adt),
            },
    {
        match self {
            BuiTy::Adt(a) => Some(a),
            _ => None,
        }
    }

    /// The element types, for a tuple type.
    pub fn tuple(&self) -> (r: Option<&Vec<BuiTy>>)
        ensures
            match r {
                Some(v) => self.model() == BuiTyM::Tuple(BuiTy::model_seq(v@)),
                None => !(self.model() is Tuple),
            },
    {
        match self {
            BuiTy::Tuple(v) => Some(v),
            _ => None,
        }
    }
}

/// An exported type declaration: opaque, or transparent with its definition.
pub enum BuiTyDecl {
    Opaque,
    Transparent(BuiTy),
}

impl BuiTyDecl {
    pub open spec fn model(self) -> BuiTyDeclM {
        match self {
            BuiTyDecl::Opaque => BuiTyDeclM::Opaque,
            BuiTyDecl::Transparent(t) => BuiTyDeclM::Transparent(t.model()),
        }
    }

    /// The declared type, when the declaration is transparent.
    pub fn transparent(&self) -> (r: Option<&BuiTy>)
        ensures
            match r {
                Some(t) => self.model() == BuiTyDeclM::Transparent(t.model()),
                None => self.model() is Opaque,
            },
    {
        match self {
            BuiTyDecl::Transparent(t) => Some(t),
            BuiTyDecl::Opaque => None,
        }
    }
}

/// The kind tag of an exported declaration.
pub struct BuiKind {
    pub ty: bool,
}

impl BuiKind {
    /// Whether the declaration declares a type.
    pub fn is_ty(&self) -> (r: bool)
        ensures
            r == self.ty,
    {
        self.ty
    }
}

/// One exported field of a class.
pub struct BuiFieldDef {
    pub name: String,
}

impl BuiFieldDef {
    /// The field's name.
    pub fn name(&self) -> (r: &str)
        ensures
            r@ == self.name@,
    {
        self.name.as_str()
    }
}

/// An exported class: its fields.
pub struct BuiClass {
    pub fields: Vec<BuiFieldDef>,
}

impl BuiClass {
    pub open spec fn model(self) -> Seq<Seq<char>> {
        Seq::new(self.fields@.len(), |i: int| self.fields@[i].name@)
    }

    /// The class's fields.
    pub fn fields(&self) -> (r: &Vec<BuiFieldDef>)
        ensures
            r == self.fields,
    {
        &self.fields
    }
}

/// An exported function declaration: the types of its inputs.
pub struct BuiFnDecl {
    pub inputs: Vec<BuiTy>,
}

impl BuiFnDecl {
    pub open spec fn model(self) -> Seq<BuiTyM> {
        BuiTy::model_seq(self.inputs@)
    }

    /// The input types.
    pub fn inputs(&self) -> (r: &Vec<BuiTy>)
        ensures
            r == self.inputs,
    {
        &self.inputs
    }
}

/// An exported function signature.
pub struct BuiFnSig {
    pub decl: BuiFnDecl,
}

impl BuiFnSig {
    /// The declaration inside the signature.
    pub fn decl(&self) -> (r: &BuiFnDecl)
        ensures
            r == self.decl,
    {
        &self.decl
    }
}

/// An exported function.
pub struct BuiDefn {
    pub fn_sig: BuiFnSig,
}

impl BuiDefn {
    pub open spec fn model(self) -> BuiDefnM {
        BuiDefnM { inputs: self.fn_sig.decl.model() }
    }

    /// The function's signature.
    pub fn fn_sig(&self) -> (r: &BuiFnSig)
        ensures
            r == self.fn_sig,
    {
        &self.fn_sig
    }
}

/// An exported interface: its type declarations and its function
/// declarations, each keyed by name.
pub struct BuiInterface {
    pub types: Vec<(String, BuiTyDecl)>,
    pub defns: Vec<(String, BuiDefn)>,
}

impl BuiInterface {
    pub open spec fn types_model(self) -> Seq<(Seq<char>, BuiTyDeclM)> {
        Seq::new(self.types@.len(), |i: int| (self.types@[i].0@, self.types@[i].1.model()))
    }

    pub open spec fn defns_model(self) -> Seq<(Seq<char>, BuiDefnM)> {
        Seq::new(self.defns@.len(), |i: int| (self.defns@[i].0@, self.defns@[i].1.model()))
    }

    /// The named type declarations, in source order.
    pub fn types(&self) -> (r: &Vec<(String, BuiTyDecl)>)
        ensures
            r == self.types,
    {
        &self.types
    }

    /// The named function declarations, in source order.
    pub fn defns(&self) -> (r: &Vec<(String, BuiDefn)>)
        ensures
            r == self.defns,
    {
        &self.defns
    }
}

/// An exported module: its type bindings and its function bindings, each
/// keyed by name.
pub struct BuiModule {
    pub types: Vec<(String, BuiTy)>,
    pub defns: Vec<(String, BuiDefn)>,
}

impl BuiModule {
    pub open spec fn types_model(self) -> Seq<(Seq<char>, BuiTyM)> {
        Seq::new(self.types@.len(), |i: int| (self.types@[i].0@, self.types@[i].1.model()))
    }

    pub open spec fn defns_model(self) -> Seq<(Seq<char>, BuiDefnM)> {
        Seq::new(self.defns@.len(), |i: int| (self.defns@[i].0@, self.defns@[i].1.model()))
    }

    /// The named type bindings, in source order.
    pub fn types(&self) -> (r: &Vec<(String, BuiTy)>)
        ensures
            r == self.types,
    {
        &self.types
    }

    /// The named function bindings, in source order.
    pub fn defns(&self) -> (r: &Vec<(String, BuiDefn)>)
        ensures
            r == self.defns,
    {
        &self.defns
    }
}

/// The kind of one exported item.
pub enum BuiItemKind {
    Class(BuiClass),
    Defn(BuiDefn),
    Interface(BuiInterface),
    Module(BuiModule),
}

/// One exported item.
pub struct BuiItem {
    pub ident: String,
    pub namespace: Vec<String>,
    pub def: u32,
    pub kind: BuiItemKind,
}

impl BuiItem {
    pub open spec fn model(self) -> BuiItemM {
        BuiItemM {
            ident: self.ident@,
            namespace: self.namespace.deep_view(),
            def: self.def,
            kind: match self.kind {
                BuiItemKind::Class(c) => BuiItemKindM::Class(c.model()),
                BuiItemKind::Defn(d) => BuiItemKindM::Defn(d.model()),
                BuiItemKind::Interface(i) => BuiItemKindM::Interface(
                    i.types_model(),
                    i.defns_model(),
                ),
                BuiItemKind::Module(m) => BuiItemKindM::Module(m.types_model(), m.defns_model()),
            },
        }
    }

    /// The item's identifier.
    pub fn ident(&self) -> (r: &str)
        ensures
            r@ == self.ident@,
    {
        self.ident.as_str()
    }

    /// The namespace path the item was exported under.
    pub fn namespace(&self) -> (r: &Vec<String>)
        ensures
            r == self.namespace,
    {
        &self.namespace
    }

    /// The interface record, when the item is an interface.
    pub fn interface(&self) -> (r: Option<&BuiInterface>)
        ensures
            match r {
                Some(i) => self.model().kind == BuiItemKindM::Interface(
                    i.types_model(),
                    i.defns_model(),
                ),
                None => !(self.model().kind is Interface),
            },
    {
        match &self.kind {
            BuiItemKind::Interface(i) => Some(i),
            _ => None,
        }
    }

    /// The class record, when the item is a class.
    pub fn class(&self) -> (r: Option<&BuiClass>)
        ensures
            match r {
                Some(c) => self.model().kind == BuiItemKindM::Class(c.model()),
                None => !(self.model().kind is Class),
            },
    {
        match &self.kind {
            BuiItemKind::Class(c) => Some(c),
            _ => None,
        }
    }

    /// The function record, when the item is a function.
    pub fn defn(&self) -> (r: Option<&BuiDefn>)
        ensures
            match r {
                Some(d) => self.model().kind == BuiItemKindM::Defn(d.model()),
                None => !(self.model().kind is Defn),
            },
    {
        match &self.kind {
            BuiItemKind::Defn(d) => Some(d),
            _ => None,
        }
    }

    /// The module record, when the item is a module.
    pub fn module(&self) -> (r: Option<&BuiModule>)
        ensures
            match r {
                Some(m) => self.model().kind == BuiItemKindM::Module(
                    m.types_model(),
                    m.defns_model(),
                ),
                None => !(self.model().kind is Module),
            },
    {
        match &self.kind {
            BuiItemKind::Module(m) => Some(m),
            _ => None,
        }
    }
}

/// Models of a sequence of exported items.
pub open spec fn bui_items_model(v: Seq<BuiItem>) -> Seq<BuiItemM> {
    Seq::new(v.len(), |i: int| v[i].model())
}

/// A finished unit-interface record, ready to be persisted or handed to the
/// unit cache.
pub struct BuiMessage {
    pub items: Vec<BuiItem>,
}

impl BuiMessage {
    pub open spec fn model(self) -> Seq<BuiItemM> {
        bui_items_model(self.items@)
    }

    /// A record over the given items.
    pub fn new(items: Vec<BuiItem>) -> (r: Self)
        ensures
            r.items == items,
    {
        BuiMessage { items }
    }

    /// Reads the record back as a loaded unit.
    pub fn deserialize(self) -> (r: Bui)
        ensures
            r.items matches Some(v) && bui_items_model(v@) == self.model(),
    {
        Bui { items: Some(self.items) }
    }
}

/// The exported form of a type node: `bool`, `int`, a qualified path whose
/// `Path` field parses as a definition identity, or a tuple of exported
/// types. `None` is the fatal outcome on any other shape.
pub open spec fn bui_ty_of(x: Sx) -> Option<BuiTyM>
    decreases x,
    via bui_ty_of_dec
{
    match x {
        Sx::List(em) => match node_attr(em, "kind"@) {
            Some(Sx::Key(k)) => {
                if k == "bool"@ {
                    Some(BuiTyM::Bool)
                } else if k == "int"@ {
                    Some(BuiTyM::Int)
                } else if k == "qpath"@ {
                    if node_fields(em).len() >= 1 {
                        match node_fields(em)[0] {
                            Sx::List(path_em) => {
                                if node_fields(path_em).len() >= 1 {
                                    match DefId::of_sx(node_fields(path_em)[0]) {
                                        Some(d) => Some(
                                            BuiTyM::Adt(
                                                BuiItemRefM { unit: d.unit.0, def: d.offset.0 },
                                            ),
                                        ),
                                        None => None,
                                    }
                                } else {
                                    None
                                }
                            },
                            _ => None,
                        }
                    } else {
                        None
                    }
                } else if k == "tuple"@ {
                    if node_fields(em).len() >= 1 {
                        match node_fields(em)[0] {
                            Sx::Vect(segs) => match bui_ty_list(segs) {
                                Some(ts) => Some(BuiTyM::Tuple(ts)),
                                None => None,
                            },
                            _ => None,
                        }
                    } else {
                        None
                    }
                } else {
                    None
                }
            },
            _ => None,
        },
        _ => None,
    }
}

/// The exported forms of a sequence of type nodes.
pub open spec fn bui_ty_list(segs: Seq<Sx>) -> Option<Seq<BuiTyM>>
    decreases segs,
{
    if segs.len() == 0 {
        Some(Seq::empty())
    } else {
        match bui_ty_of(segs.first()) {
            Some(t) => match bui_ty_list(segs.drop_first()) {
                Some(ts) => Some(seq![t] + ts),
                None => None,
            },
            None => None,
        }
    }
}

#[via_fn]
proof fn bui_ty_of_dec(x: Sx) {
    match x {
        Sx::List(em) => {
            if node_fields(em).len() >= 1 {
                crate::s_expr::lemma_node_fields_membership(em, 0);
                let j = choose|j: int| 0 <= j < em.len() && em[j] == node_fields(em)[0];
                assert(decreases_to!(x => em));
                assert(decreases_to!(em => em[j]));
                match node_fields(em)[0] {
                    Sx::Vect(segs) => {
                        assert(decreases_to!(em[j] => segs));
                        assert(decreases_to!(x => segs));
                    },
                    _ => (),
                }
            }
        },
        _ => (),
    }
}

/// Builds the exported form of one type node; relies on the shapes
/// `bui_ty_of` accepts and fails fatally on any other.
pub fn set_ty(x: &SExpr) -> (r: Option<BuiTy>)
    ensures
        match r {
            Some(t) => bui_ty_of(x@) == Some(t.model()),
            None => bui_ty_of(x@) is None,
        },
    decreases x@,
{
    match x {
        SExpr::List(em) => {
            proof {
                lemma_sxs(em@);
                assert(x@ == Sx::List(sxs(em@)));
            }
            let kind = match node_get_attr(em, "kind") {
                Some(v) => v,
                None => {
                    return None;
                },
            };
            proof {
                assert(node_attr(sxs(em@), "kind"@) == Some(kind@));
            }
            if key_is(kind, "bool") {
                Some(BuiTy::Bool)
            } else if key_is(kind, "int") {
                Some(BuiTy::Int)
            } else if key_is(kind, "qpath") {
                let f0 = match node_get_field(em, 0) {
                    Some(v) => v,
                    None => {
                        return None;
                    },
                };
                match f0 {
                    SExpr::List(path_em) => {
                        proof {
                            assert(f0@ == Sx::List(sxs(path_em@)));
                        }
                        let pf0 = match node_get_field(path_em, 0) {
                            Some(v) => v,
                            None => {
                                return None;
                            },
                        };
                        match DefId::from_s_expr(pf0) {
                            Some(d) => Some(
                                BuiTy::Adt(BuiItemRef { unit: d.unit.0, def: d.offset.0 }),
                            ),
                            None => None,
                        }
                    },
                    _ => None,
                }
            } else if key_is(kind, "tuple") {
                let f0 = match node_get_field(em, 0) {
                    Some(v) => v,
                    None => {
                        return None;
                    },
                };
                match f0 {
                    SExpr::Vect(items) => {
                        proof {
                            lemma_sxs(items@);
                            assert(f0@ == Sx::Vect(sxs(items@)));
                            crate::s_expr::lemma_node_fields_membership(sxs(em@), 0);
                        }
                        let ghost emm = sxs(em@);
                        let ghost segs = sxs(items@);
                        proof {
                            assert(segs.skip(0) =~= segs);
                        }
                        let mut out: Vec<BuiTy> = Vec::new();
                        let mut i: usize = 0;
                        #[verifier::loop_isolation(false)]
                        while i < items.len()
                            invariant
                                0 <= i <= items.len(),
                                bui_ty_list(segs) == (match bui_ty_list(segs.skip(i as int)) {
                                    None => None::<Seq<BuiTyM>>,
                                    Some(ts) => Some(BuiTy::model_seq(out@) + ts),
                                }),
                            decreases items.len() - i,
                        {
                            let ghost pre = segs.skip(i as int);
                            proof {
                                assert(pre.first() == segs[i as int]);
                                assert(pre.first() == items@[i as int]@);
                                assert(pre.drop_first() =~= segs.skip(i + 1 as int));
                                let j = choose|j: int|
                                    0 <= j < emm.len() && emm[j] == node_fields(emm)[0];
                                assert(decreases_to!(x@ => emm));
                                assert(decreases_to!(emm => emm[j]));
                                assert(decreases_to!(emm[j] => segs));
                                assert(decreases_to!(segs => segs[i as int]));
                                assert(decreases_to!(x@ => items@[i as int]@));
                            }
                            let t = match set_ty(&items[i]) {
                                Some(t) => t,
                                None => {
                                    return None;
                                },
                            };
                            let ghost prev = BuiTy::model_seq(out@);
                            let ghost prevseq = out@;
                            out.push(t);
                            proof {
                                assert(BuiTy::model_seq(out@) =~= prev + seq![t.model()]) by {
                                    lemma_bui_ty_model_seq(out@);
                                    lemma_bui_ty_model_seq(prevseq);
                                    assert(out@.drop_last() =~= prevseq);
                                    assert(forall|q: int| 0 <= q < prevseq.len() ==> out@[q] == prevseq[q]);
                                };
                            }
                            i = i + 1;
                            proof {
                                match bui_ty_list(segs.skip(i as int)) {
                                    None => {},
                                    Some(ts) => {
                                        assert((prev + seq![t.model()]) + ts =~= prev + (seq![
                                            t.model(),
                                        ] + ts));
                                    },
                                }
                            }
                        }
                        proof {
                            assert(segs.skip(i as int).len() == 0);
                            match bui_ty_list(segs) {
                                None => {},
                                Some(ts) => {
                                    assert(BuiTy::model_seq(out@) + Seq::<BuiTyM>::empty()
                                        =~= BuiTy::model_seq(out@));
                                },
                            }
                        }
                        Some(BuiTy::Tuple(out))
                    },
                    _ => None,
                }
            } else {
                None
            }
        },
        _ => None,
    }
}

/// The pointwise reading of the model of a sequence of exported types.
pub proof fn lemma_bui_ty_model_seq(v: Seq<BuiTy>)
    ensures
        BuiTy::model_seq(v).len() == v.len(),
        forall|i: int| 0 <= i < v.len() ==> BuiTy::model_seq(v)[i] == v[i].model(),
    decreases v,
{
    if v.len() > 0 {
        lemma_bui_ty_model_seq(v.drop_first());
    }
}

/// The exported input types of a parameter list: each parameter's second
/// field is its type node.
pub open spec fn bui_inputs(params: Seq<Sx>) -> Option<Seq<BuiTyM>>
    decreases params,
{
    if params.len() == 0 {
        Some(Seq::empty())
    } else {
        match params.first() {
            Sx::List(p_em) => {
                if node_fields(p_em).len() >= 2 {
                    match bui_ty_of(node_fields(p_em)[1]) {
                        Some(t) => match bui_inputs(params.drop_first()) {
                            Some(ts) => Some(seq![t] + ts),
                            None => None,
                        },
                        None => None,
                    }
                } else {
                    None
                }
            },
            _ => None,
        }
    }
}

/// The exported form of a function node: its second field is the signature,
/// whose first field is the declaration, whose first field is the parameter
/// vector.
pub open spec fn bui_defn_of(elems: Seq<Sx>) -> Option<BuiDefnM> {
    if node_fields(elems).len() >= 2 {
        match node_fields(elems)[1] {
            Sx::List(sig_em) => {
                if node_fields(sig_em).len() >= 1 {
                    match node_fields(sig_em)[0] {
                        Sx::List(decl_em) => {
                            if node_fields(decl_em).len() >= 1 {
                                match node_fields(decl_em)[0] {
                                    Sx::Vect(params) => match bui_inputs(params) {
                                        Some(ts) => Some(BuiDefnM { inputs: ts }),
                                        None => None,
                                    },
                                    _ => None,
                                }
                            } else {
                                None
                            }
                        },
                        _ => None,
                    }
                } else {
                    None
                }
            },
            _ => None,
        }
    } else {
        None
    }
}

/// Builds the exported record of one function node.
pub fn set_defn(elems: &Vec<SExpr>) -> (r: Option<BuiDefn>)
    ensures
        match r {
            Some(d) => bui_defn_of(sxs(elems@)) == Some(d.model()),
            None => bui_defn_of(sxs(elems@)) is None,
        },
{
    let sig = match node_get_field(elems, 1) {
        Some(v) => v,
        None => {
            return None;
        },
    };
    let sig_em = match sig {
        SExpr::List(v) => {
            proof {
                assert(sig@ == Sx::List(sxs(v@)));
            }
            v
        },
        _ => {
            return None;
        },
    };
    let decl = match node_get_field(sig_em, 0) {
        Some(v) => v,
        None => {
            return None;
        },
    };
    let decl_em = match decl {
        SExpr::List(v) => {
            proof {
                assert(decl@ == Sx::List(sxs(v@)));
            }
            v
        },
        _ => {
            return None;
        },
    };
    let pvec = match node_get_field(decl_em, 0) {
        Some(v) => v,
        None => {
            return None;
        },
    };
    let params = match pvec {
        SExpr::Vect(v) => {
            proof {
                assert(pvec@ == Sx::Vect(sxs(v@)));
            }
            v
        },
        _ => {
            return None;
        },
    };
    proof {
        lemma_sxs(params@);
        assert(sxs(params@).skip(0) =~= sxs(params@));
    }
    let ghost pm = sxs(params@);
    let mut inputs: Vec<BuiTy> = Vec::new();
    let mut i: usize = 0;
    #[verifier::loop_isolation(false)]
    while i < params.len()
        invariant
            0 <= i <= params.len(),
            bui_inputs(pm) == (match bui_inputs(pm.skip(i as int)) {
                None => None::<Seq<BuiTyM>>,
                Some(ts) => Some(BuiTy::model_seq(inputs@) + ts),
            }),
        decreases params.len() - i,
    {
        let ghost pre = pm.skip(i as int);
        proof {
            assert(pre.first() == pm[i as int]);
            assert(pre.first() == params@[i as int]@);
            assert(pre.drop_first() =~= pm.skip(i + 1 as int));
        }
        let p_em = match &params[i] {
            SExpr::List(v) => {
                proof {
                    assert(params@[i as int]@ == Sx::List(sxs(v@)));
                }
                v
            },
            _ => {
                return None;
            },
        };
        let tynode = match node_get_field(p_em, 1) {
            Some(v) => v,
            None => {
                return None;
            },
        };
        let t = match set_ty(tynode) {
            Some(t) => t,
            None => {
                return None;
            },
        };
        let ghost prev = BuiTy::model_seq(inputs@);
        let ghost prevseq = inputs@;
        inputs.push(t);
        proof {
            assert(BuiTy::model_seq(inputs@) =~= prev + seq![t.model()]) by {
                lemma_bui_ty_model_seq(inputs@);
                lemma_bui_ty_model_seq(prevseq);
                assert(inputs@.drop_last() =~= prevseq);
                assert(forall|q: int| 0 <= q < prevseq.len() ==> inputs@[q] == prevseq[q]);
            };
        }
        i = i + 1;
        proof {
            match bui_inputs(pm.skip(i as int)) {
                None => {},
                Some(ts) => {
                    assert((prev + seq![t.model()]) + ts =~= prev + (seq![t.model()] + ts));
                },
            }
        }
    }
    proof {
        assert(pm.skip(i as int).len() == 0);
        match bui_inputs(pm) {
            None => {},
            Some(ts) => {
                assert(BuiTy::model_seq(inputs@) + Seq::<BuiTyM>::empty() =~= BuiTy::model_seq(
                    inputs@,
                ));
            },
        }
    }
    Some(BuiDefn { fn_sig: BuiFnSig { decl: BuiFnDecl { inputs } } })
}

/// The models of a named type-declaration list.
pub open spec fn named_tydecls_model(v: Seq<(String, BuiTyDecl)>) -> Seq<(Seq<char>, BuiTyDeclM)> {
    Seq::new(v.len(), |i: int| (v[i].0@, v[i].1.model()))
}

/// The models of a named function list.
pub open spec fn named_defns_model(v: Seq<(String, BuiDefn)>) -> Seq<(Seq<char>, BuiDefnM)> {
    Seq::new(v.len(), |i: int| (v[i].0@, v[i].1.model()))
}

/// The models of a named type list.
pub open spec fn named_tys_model(v: Seq<(String, BuiTy)>) -> Seq<(Seq<char>, BuiTyM)> {
    Seq::new(v.len(), |i: int| (v[i].0@, v[i].1.model()))
}

/// The exported members of an interface body: its type declarations and its
/// function declarations, in source order, each keyed by its identifier.
/// Declarations of any other kind are passed over.
pub open spec fn iface_members(decls: Seq<Sx>) -> Option<
    (Seq<(Seq<char>, BuiTyDeclM)>, Seq<(Seq<char>, BuiDefnM)>),
>
    decreases decls,
{
    if decls.len() == 0 {
        Some((Seq::empty(), Seq::empty()))
    } else {
        match decls.first() {
            Sx::List(d_em) => match node_attr(d_em, "kind"@) {
                Some(Sx::Key(k)) => match iface_members(decls.drop_first()) {
                    None => None,
                    Some((ts, ds)) => {
                        if k == "ty"@ {
                            match node_attr(d_em, "ident"@) {
                                Some(Sx::Sym(nm)) => {
                                    if node_fields(d_em).len() == 0 {
                                        Some((seq![(nm, BuiTyDeclM::Opaque)] + ts, ds))
                                    } else {
                                        match bui_ty_of(node_fields(d_em)[0]) {
                                            Some(t) => Some(
                                                (
                                                    seq![(nm, BuiTyDeclM::Transparent(t))] + ts,
                                                    ds,
                                                ),
                                            ),
                                            None => None,
                                        }
                                    }
                                },
                                _ => None,
                            }
                        } else if k == "defn"@ {
                            match node_attr(d_em, "ident"@) {
                                Some(Sx::Sym(nm)) => match bui_defn_of(d_em) {
                                    Some(f) => Some((ts, seq![(nm, f)] + ds)),
                                    None => None,
                                },
                                _ => None,
                            }
                        } else {
                            Some((ts, ds))
                        }
                    },
                },
                _ => None,
            },
            _ => None,
        }
    }
}

/// The exported members of a module body: its type bindings and its function
/// bindings, in source order, each keyed by its identifier.
pub open spec fn module_members(decls: Seq<Sx>) -> Option<
    (Seq<(Seq<char>, BuiTyM)>, Seq<(Seq<char>, BuiDefnM)>),
>
    decreases decls,
{
    if decls.len() == 0 {
        Some((Seq::empty(), Seq::empty()))
    } else {
        match decls.first() {
            Sx::List(d_em) => match node_attr(d_em, "kind"@) {
                Some(Sx::Key(k)) => match module_members(decls.drop_first()) {
                    None => None,
                    Some((ts, ds)) => {
                        if k == "ty"@ {
                            match node_attr(d_em, "ident"@) {
                                Some(Sx::Sym(nm)) => {
                                    if node_fields(d_em).len() >= 1 {
                                        match bui_ty_of(node_fields(d_em)[0]) {
                                            Some(t) => Some((seq![(nm, t)] + ts, ds)),
                                            None => None,
                                        }
                                    } else {
                                        None
                                    }
                                },
                                _ => None,
                            }
                        } else if k == "defn"@ {
                            match node_attr(d_em, "ident"@) {
                                Some(Sx::Sym(nm)) => match bui_defn_of(d_em) {
                                    Some(f) => Some((ts, seq![(nm, f)] + ds)),
                                    None => None,
                                },
                                _ => None,
                            }
                        } else {
                            Some((ts, ds))
                        }
                    },
                },
                _ => None,
            },
            _ => None,
        }
    }
}

/// The exported record of one item node, under the namespace path `ns`: its
/// identifier, `def_id` and discriminated kind.
pub open spec fn bui_item_of(elems: Seq<Sx>, ns: Seq<Seq<char>>) -> Option<BuiItemM> {
    match (node_attr(elems, "kind"@), node_attr(elems, "ident"@), node_attr(elems, "def_id"@)) {
        (Some(Sx::Key(k)), Some(Sx::Sym(nm)), Some(Sx::Num(d))) => {
            if d > u32::MAX {
                None
            } else if k == "class"@ {
                Some(
                    BuiItemM {
                        ident: nm,
                        namespace: ns,
                        def: d as u32,
                        kind: BuiItemKindM::Class(Seq::empty()),
                    },
                )
            } else if k == "defn"@ {
                match bui_defn_of(elems) {
                    Some(f) => Some(
                        BuiItemM {
                            ident: nm,
                            namespace: ns,
                            def: d as u32,
                            kind: BuiItemKindM::Defn(f),
                        },
                    ),
                    None => None,
                }
            } else if k == "interface"@ {
                if node_fields(elems).len() >= 1 {
                    match node_fields(elems)[0] {
                        Sx::List(body_em) => match iface_members(node_fields(body_em)) {
                            Some((ts, ds)) => Some(
                                BuiItemM {
                                    ident: nm,
                                    namespace: ns,
                                    def: d as u32,
                                    kind: BuiItemKindM::Interface(ts, ds),
                                },
                            ),
                            None => None,
                        },
                        _ => None,
                    }
                } else {
                    None
                }
            } else if k == "module"@ {
                if node_fields(elems).len() >= 1 {
                    match node_fields(elems)[0] {
                        Sx::List(body_em) => match module_members(node_fields(body_em)) {
                            Some((ts, ds)) => Some(
                                BuiItemM {
                                    ident: nm,
                                    namespace: ns,
                                    def: d as u32,
                                    kind: BuiItemKindM::Module(ts, ds),
                                },
                            ),
                            None => None,
                        },
                        _ => None,
                    }
                } else {
                    None
                }
            } else {
                None
            }
        },
        _ => None,
    }
}

/// Model of the export walk's state: the namespace path being walked and the
/// records collected so far.
#[verifier::ext_equal]
pub struct BuiSt {
    pub stack: Seq<Seq<char>>,
    pub items: Seq<BuiItemM>,
}

/// The effect of reaching one node in the export walk.
pub open spec fn bui_enter(elems: Seq<Sx>, st: BuiSt) -> Option<BuiSt> {
    if crate::ast::head_is(elems, "Item"@) {
        match bui_item_of(elems, st.stack) {
            Some(it) => Some(BuiSt { stack: st.stack, items: st.items.push(it) }),
            None => None,
        }
    } else if crate::ast::head_is(elems, "Namespace"@) {
        if node_fields(elems).len() >= 1 && node_fields(elems)[0] is Sym {
            Some(BuiSt { stack: st.stack.push(node_fields(elems)[0]->Sym_0), items: st.items })
        } else {
            None
        }
    } else {
        Some(st)
    }
}

/// The effect of leaving one node in the export walk.
pub open spec fn bui_exit(elems: Seq<Sx>, st: BuiSt) -> BuiSt {
    if crate::ast::head_is(elems, "Namespace"@) && st.stack.len() > 0 {
        BuiSt { stack: st.stack.drop_last(), items: st.items }
    } else {
        st
    }
}

/// The export walk over one tree.
pub open spec fn bui_walk(x: Sx, st: BuiSt) -> Option<BuiSt>
    decreases x,
{
    match x {
        Sx::List(elems) => match bui_enter(elems, st) {
            Some(st1) => match bui_walk_seq(elems, st1) {
                Some(st2) => Some(bui_exit(elems, st2)),
                None => None,
            },
            None => None,
        },
        Sx::Vect(elems) => bui_walk_seq(elems, st),
        _ => Some(st),
    }
}

/// The export walk over a sequence of trees.
pub open spec fn bui_walk_seq(elems: Seq<Sx>, st: BuiSt) -> Option<BuiSt>
    decreases elems,
{
    if elems.len() == 0 {
        Some(st)
    } else {
        match bui_walk(elems.first(), st) {
            Some(st1) => bui_walk_seq(elems.drop_first(), st1),
            None => None,
        }
    }
}

/// The unit-interface record of a HIL tree: the root must be a `Unit` node
/// all of whose fields are items, and the walk must not hit a fatal shape.
pub open spec fn to_bui_spec(hil: Sx) -> Option<Seq<BuiItemM>> {
    match hil {
        Sx::List(em) => {
            if crate::ast::head_is(em, "Unit"@) && (forall|i: int|
                0 <= i < node_fields(em).len() ==> ((#[trigger] node_fields(em)[i]) matches Sx::List(fe)
                    && crate::ast::head_is(fe, "Item"@))) {
                match bui_walk(hil, BuiSt { stack: Seq::empty(), items: Seq::empty() }) {
                    Some(st) => Some(st.items),
                    None => None,
                }
            } else {
                None
            }
        },
        _ => None,
    }
}

/// A deep copy of a list of names.
fn clone_names(v: &Vec<String>) -> (r: Vec<String>)
    ensures
        r.deep_view() == v.deep_view(),
{
    let mut r: Vec<String> = Vec::new();
    let mut i: usize = 0;
    #[verifier::loop_isolation(false)]
    while i < v.len()
        invariant
            0 <= i <= v.len(),
            r.deep_view().len() == i,
            forall|j: int| 0 <= j < i ==> r.deep_view()[j] == v.deep_view()[j],
        decreases v.len() - i,
    {
        let ghost pre = r.deep_view();
        r.push(v[i].clone());
        proof {
            assert(r.deep_view() =~= pre.push(v@[i as int]@));
        }
        i = i + 1;
    }
    proof {
        assert(r.deep_view() =~= v.deep_view());
    }
    r
}

/// The export walk: collects one record per item, tracking the namespace
/// path with the entry/exit hooks.
pub struct ToBuiVisitor {
    pub items: Vec<BuiItem>,
    pub namespace: Vec<String>,
}

impl ToBuiVisitor {
    /// Model of the walk's state.
    pub open spec fn model(self) -> BuiSt {
        BuiSt { stack: self.namespace.deep_view(), items: bui_items_model(self.items@) }
    }

    /// A fresh walk at the unit root.
    pub fn new() -> (r: Self)
        ensures
            r.model() == (BuiSt { stack: Seq::<Seq<char>>::empty(), items: Seq::<BuiItemM>::empty() }),
    {
        let r = ToBuiVisitor { items: Vec::new(), namespace: Vec::new() };
        proof {
            assert(r.model().stack =~= Seq::<Seq<char>>::empty());
            assert(r.model().items =~= Seq::<BuiItemM>::empty());
        }
        r
    }

    /// Exports one item node under the current namespace path; `false` is the
    /// fatal outcome on malformed input.
    fn visit_item(&mut self, node: &Vec<SExpr>) -> (r: bool)
        ensures
            match bui_item_of(sxs(node@), old(self).model().stack) {
                Some(it) => r && final(self).model() == (BuiSt {
                    stack: old(self).model().stack,
                    items: old(self).model().items.push(it),
                }),
                None => !r,
            },
    {
        proof {
            lemma_sxs(node@);
        }
        let kind = match node_get_attr(node, "kind") {
            Some(SExpr::Key(k)) => k,
            _ => {
                return false;
            },
        };
        let ident = match node_get_attr(node, "ident") {
            Some(SExpr::Sym(s)) => s.clone(),
            _ => {
                return false;
            },
        };
        let def = match node_get_attr(node, "def_id") {
            Some(SExpr::Num(n)) => {
                if *n > u32::MAX as u64 {
                    return false;
                }
                *n as u32
            },
            _ => {
                return false;
            },
        };
        let namespace = clone_names(&self.namespace);
        let built: BuiItemKind;
        if *kind == "class".to_owned() {
            let cls = BuiClass { fields: Vec::new() };
            proof {
                assert(cls.model() =~= Seq::<Seq<char>>::empty());
            }
            built = BuiItemKind::Class(cls);
        } else if *kind == "defn".to_owned() {
            let d = match set_defn(node) {
                Some(d) => d,
                None => {
                    return false;
                },
            };
            built = BuiItemKind::Defn(d);
        } else if *kind == "interface".to_owned() {
            let body = match node_get_field(node, 0) {
                Some(SExpr::List(v)) => {
                    proof {
                        assert(node_fields(sxs(node@))[0] == Sx::List(sxs(v@)));
                    }
                    v
                },
                _ => {
                    return false;
                },
            };
            let decls = node_get_fields(body);
            let ghost dm = node_fields(sxs(body@));
            proof {
                assert(dm == sxs_refs(decls@));
                assert(dm.skip(0) =~= dm);
            }
            let mut types: Vec<(String, BuiTyDecl)> = Vec::new();
            let mut defns: Vec<(String, BuiDefn)> = Vec::new();
            let mut i: usize = 0;
            #[verifier::loop_isolation(false)]
            while i < decls.len()
                invariant
                    0 <= i <= decls.len(),
                    decls@.len() == dm.len(),
                    iface_members(dm) == (match iface_members(dm.skip(i as int)) {
                        None => None::<(Seq<(Seq<char>, BuiTyDeclM)>, Seq<(Seq<char>, BuiDefnM)>)>,
                        Some((ts, ds)) => Some(
                            (named_tydecls_model(types@) + ts, named_defns_model(defns@) + ds),
                        ),
                    }),
                decreases decls.len() - i,
            {
                let ghost pre = dm.skip(i as int);
                proof {
                    assert(pre.first() == dm[i as int]);
                    assert(pre.first() == decls@[i as int]@);
                    assert(pre.drop_first() =~= dm.skip(i + 1 as int));
                }
                let d_em = match decls[i] {
                    SExpr::List(v) => {
                        proof {
                            assert(decls@[i as int]@ == Sx::List(sxs(v@)));
                        }
                        v
                    },
                    _ => {
                        return false;
                    },
                };
                let dkind = match node_get_attr(d_em, "kind") {
                    Some(SExpr::Key(k)) => k,
                    _ => {
                        return false;
                    },
                };
                if *dkind == "ty".to_owned() {
                    let nm = match node_get_attr(d_em, "ident") {
                        Some(SExpr::Sym(s)) => s.clone(),
                        _ => {
                            return false;
                        },
                    };
                    let value: BuiTyDecl;
                    match node_get_field(d_em, 0) {
                        Some(f0) => {
                            match set_ty(f0) {
                                Some(t) => {
                                    value = BuiTyDecl::Transparent(t);
                                },
                                None => {
                                    return false;
                                },
                            }
                        },
                        None => {
                            value = BuiTyDecl::Opaque;
                        },
                    }
                    let ghost prev = named_tydecls_model(types@);
                    let ghost valm = value.model();
                    let ghost nmm = nm@;
                    types.push((nm, value));
                    proof {
                        assert(named_tydecls_model(types@) =~= prev.push((nmm, valm)));
                    }
                } else if *dkind == "defn".to_owned() {
                    let nm = match node_get_attr(d_em, "ident") {
                        Some(SExpr::Sym(s)) => s.clone(),
                        _ => {
                            return false;
                        },
                    };
                    let f = match set_defn(d_em) {
                        Some(f) => f,
                        None => {
                            return false;
                        },
                    };
                    let ghost prev = named_defns_model(defns@);
                    let ghost valm = f.model();
                    let ghost nmm = nm@;
                    defns.push((nm, f));
                    proof {
                        assert(named_defns_model(defns@) =~= prev.push((nmm, valm)));
                    }
                }
                i = i + 1;
                proof {
                    match iface_members(dm.skip(i as int)) {
                        None => {},
                        Some((ts, ds)) => {
                            assert forall|a: Seq<(Seq<char>, BuiTyDeclM)>,
                                e: (Seq<char>, BuiTyDeclM)|
                                true implies #[trigger] (a.push(e)) + ts =~= a + (seq![e] + ts) by {}
                            assert forall|a: Seq<(Seq<char>, BuiDefnM)>, e: (Seq<char>, BuiDefnM)|
                                true implies #[trigger] (a.push(e)) + ds =~= a + (seq![e] + ds) by {}
                        },
                    }
                }
            }
            proof {
                assert(dm.skip(i as int).len() == 0);
                match iface_members(dm) {
                    None => {},
                    Some((ts, ds)) => {
                        assert(named_tydecls_model(types@) + Seq::<(Seq<char>, BuiTyDeclM)>::empty()
                            =~= named_tydecls_model(types@));
                        assert(named_defns_model(defns@) + Seq::<(Seq<char>, BuiDefnM)>::empty()
                            =~= named_defns_model(defns@));
                    },
                }
            }
            let iface = BuiInterface { types, defns };
            proof {
                assert(iface.types_model() =~= named_tydecls_model(iface.types@));
                assert(iface.defns_model() =~= named_defns_model(iface.defns@));
            }
            built = BuiItemKind::Interface(iface);
        } else if *kind == "module".to_owned() {
            let body = match node_get_field(node, 0) {
                Some(SExpr::List(v)) => {
                    proof {
                        assert(node_fields(sxs(node@))[0] == Sx::List(sxs(v@)));
                    }
                    v
                },
                _ => {
                    return false;
                },
            };
            let decls = node_get_fields(body);
            let ghost dm = node_fields(sxs(body@));
            proof {
                assert(dm == sxs_refs(decls@));
                assert(dm.skip(0) =~= dm);
            }
            let mut types: Vec<(String, BuiTy)> = Vec::new();
            let mut defns: Vec<(String, BuiDefn)> = Vec::new();
            let mut i: usize = 0;
            #[verifier::loop_isolation(false)]
            while i < decls.len()
                invariant
                    0 <= i <= decls.len(),
                    decls@.len() == dm.len(),
                    module_members(dm) == (match module_members(dm.skip(i as int)) {
                        None => None::<(Seq<(Seq<char>, BuiTyM)>, Seq<(Seq<char>, BuiDefnM)>)>,
                        Some((ts, ds)) => Some(
                            (named_tys_model(types@) + ts, named_defns_model(defns@) + ds),
                        ),
                    }),
                decreases decls.len() - i,
            {
                let ghost pre = dm.skip(i as int);
                proof {
                    assert(pre.first() == dm[i as int]);
                    assert(pre.first() == decls@[i as int]@);
                    assert(pre.drop_first() =~= dm.skip(i + 1 as int));
                }
                let d_em = match decls[i] {
                    SExpr::List(v) => {
                        proof {
                            assert(decls@[i as int]@ == Sx::List(sxs(v@)));
                        }
                        v
                    },
                    _ => {
                        return false;
                    },
                };
                let dkind = match node_get_attr(d_em, "kind") {
                    Some(SExpr::Key(k)) => k,
                    _ => {
                        return false;
                    },
                };
                if *dkind == "ty".to_owned() {
                    let nm = match node_get_attr(d_em, "ident") {
                        Some(SExpr::Sym(s)) => s.clone(),
                        _ => {
                            return false;
                        },
                    };
                    let f0 = match node_get_field(d_em, 0) {
                        Some(f0) => f0,
                        None => {
                            return false;
                        },
                    };
                    let t = match set_ty(f0) {
                        Some(t) => t,
                        None => {
                            return false;
                        },
                    };
                    let ghost prev = named_tys_model(types@);
                    let ghost valm = t.model();
                    let ghost nmm = nm@;
                    types.push((nm, t));
                    proof {
                        assert(named_tys_model(types@) =~= prev.push((nmm, valm)));
                    }
                } else if *dkind == "defn".to_owned() {
                    let nm = match node_get_attr(d_em, "ident") {
                        Some(SExpr::Sym(s)) => s.clone(),
                        _ => {
                            return false;
                        },
                    };
                    let f = match set_defn(d_em) {
                        Some(f) => f,
                        None => {
                            return false;
                        },
                    };
                    let ghost prev = named_defns_model(defns@);
                    let ghost valm = f.model();
                    let ghost nmm = nm@;
                    defns.push((nm, f));
                    proof {
                        assert(named_defns_model(defns@) =~= prev.push((nmm, valm)));
                    }
                }
                i = i + 1;
                proof {
                    match module_members(dm.skip(i as int)) {
                        None => {},
                        Some((ts, ds)) => {
                            assert forall|a: Seq<(Seq<char>, BuiTyM)>, e: (Seq<char>, BuiTyM)|
                                true implies #[trigger] (a.push(e)) + ts =~= a + (seq![e] + ts) by {}
                            assert forall|a: Seq<(Seq<char>, BuiDefnM)>, e: (Seq<char>, BuiDefnM)|
                                true implies #[trigger] (a.push(e)) + ds =~= a + (seq![e] + ds) by {}
                        },
                    }
                }
            }
            proof {
                assert(dm.skip(i as int).len() == 0);
                match module_members(dm) {
                    None => {},
                    Some((ts, ds)) => {
                        assert(named_tys_model(types@) + Seq::<(Seq<char>, BuiTyM)>::empty()
                            =~= named_tys_model(types@));
                        assert(named_defns_model(defns@) + Seq::<(Seq<char>, BuiDefnM)>::empty()
                            =~= named_defns_model(defns@));
                    },
                }
            }
            let module = BuiModule { types, defns };
            proof {
                assert(module.types_model() =~= named_tys_model(module.types@));
                assert(module.defns_model() =~= named_defns_model(module.defns@));
            }
            built = BuiItemKind::Module(module);
        } else {
            return false;
        }
        let item = BuiItem { ident, namespace, def, kind: built };
        let ghost itm = item.model();
        let ghost previtems = bui_items_model(self.items@);
        self.items.push(item);
        proof {
            assert(bui_items_model(self.items@) =~= previtems.push(itm));
        }
        true
    }

    /// Walks one tree, dispatching the hooks by head tag.
    pub fn visit(&mut self, ast: &SExpr) -> (r: bool)
        ensures
            match bui_walk(ast@, old(self).model()) {
                Some(st) => r && final(self).model() == st,
                None => !r,
            },
        decreases ast,
    {
        match ast {
            SExpr::List(elems) => {
                proof {
                    lemma_sxs(elems@);
                    crate::ast::lemma_tags_distinct();
                    assert(ast@ == Sx::List(sxs(elems@)));
                }
                let is_item = elems.len() > 0 && sym_is(&elems[0], "Item");
                let is_ns = elems.len() > 0 && sym_is(&elems[0], "Namespace");
                if is_item {
                    if !self.visit_item(elems) {
                        return false;
                    }
                } else if is_ns {
                    let name = match node_get_field(elems, 0) {
                        Some(SExpr::Sym(s)) => s.clone(),
                        _ => {
                            return false;
                        },
                    };
                    let ghost prestack = self.namespace.deep_view();
                    let ghost nmm = name@;
                    self.namespace.push(name);
                    proof {
                        assert(self.namespace.deep_view() =~= prestack.push(nmm));
                    }
                }
                proof {
                    assert(bui_enter(sxs(elems@), old(self).model()) == Some(self.model()));
                    assert(sxs(elems@).skip(0) =~= sxs(elems@));
                }
                let ghost st1 = self.model();
                let mut i: usize = 0;
                #[verifier::loop_isolation(false)]
                while i < elems.len()
                    invariant
                        0 <= i <= elems.len(),
                        bui_walk_seq(sxs(elems@), st1) == bui_walk_seq(
                            sxs(elems@).skip(i as int),
                            self.model(),
                        ),
                    decreases elems.len() - i,
                {
                    let ghost pre = sxs(elems@).skip(i as int);
                    proof {
                        assert(pre.first() == sxs(elems@)[i as int]);
                        assert(pre.first() == elems@[i as int]@);
                        assert(pre.drop_first() =~= sxs(elems@).skip(i + 1 as int));
                    }
                    if !self.visit(&elems[i]) {
                        return false;
                    }
                    i = i + 1;
                }
                proof {
                    assert(sxs(elems@).skip(i as int).len() == 0);
                }
                let ghost st2 = self.model();
                if is_ns {
                    let ghost prestack = self.namespace.deep_view();
                    let _ = self.namespace.pop();
                    proof {
                        if prestack.len() > 0 {
                            assert(self.namespace.deep_view() =~= prestack.drop_last());
                        }
                    }
                }
                proof {
                    assert(self.model() =~= bui_exit(sxs(elems@), st2));
                    match bui_walk(ast@, old(self).model()) {
                        Some(st) => {
                            assert(self.model() =~= st);
                        },
                        None => {
                            assert(false);
                        },
                    }
                }
                true
            },
            SExpr::Vect(elems) => {
                proof {
                    lemma_sxs(elems@);
                    assert(ast@ == Sx::Vect(sxs(elems@)));
                    assert(sxs(elems@).skip(0) =~= sxs(elems@));
                }
                let mut i: usize = 0;
                #[verifier::loop_isolation(false)]
                while i < elems.len()
                    invariant
                        0 <= i <= elems.len(),
                        bui_walk_seq(sxs(elems@), old(self).model()) == bui_walk_seq(
                            sxs(elems@).skip(i as int),
                            self.model(),
                        ),
                    decreases elems.len() - i,
                {
                    let ghost pre = sxs(elems@).skip(i as int);
                    proof {
                        assert(pre.first() == sxs(elems@)[i as int]);
                        assert(pre.first() == elems@[i as int]@);
                        assert(pre.drop_first() =~= sxs(elems@).skip(i + 1 as int));
                    }
                    if !self.visit(&elems[i]) {
                        return false;
                    }
                    i = i + 1;
                }
                proof {
                    assert(sxs(elems@).skip(i as int).len() == 0);
                }
                true
            },
            _ => true,
        }
    }

    /// Hands the finished record over.
    pub fn collect(self) -> (r: BuiMessage)
        ensures
            r.model() == self.model().items,
    {
        BuiMessage { items: self.items }
    }
}

/// Walks a lowered unit and serializes its items into the unit-interface
/// record; `None` is the fatal outcome when the root is not a unit of items
/// or an item is malformed.
pub fn to_bui(hil: &crate::hil::Hil, ctx: &crate::context::GlobalContext) -> (r: Option<
    BuiMessage,
>)
    ensures
        match r {
            Some(m) => to_bui_spec(hil@) == Some(m.model()),
            None => to_bui_spec(hil@) is None,
        },
{
    let elems = match hil {
        SExpr::List(v) => {
            proof {
                assert(hil@ == Sx::List(crate::s_expr::sxs(v@)));
            }
            v
        },
        _ => {
            return None;
        },
    };
    proof {
        lemma_sxs(elems@);
    }
    if !(elems.len() > 0 && sym_is(&elems[0], "Unit")) {
        proof {
            if elems.len() > 0 {
                assert(sxs(elems@)[0] == elems@[0]@);
            }
        }
        return None;
    }
    proof {
        assert(sxs(elems@)[0] == elems@[0]@);
    }
    let fields = node_get_fields(elems);
    let ghost fm = node_fields(sxs(elems@));
    proof {
        assert(fm == sxs_refs(fields@));
    }
    let mut i: usize = 0;
    #[verifier::loop_isolation(false)]
    while i < fields.len()
        invariant
            0 <= i <= fields.len(),
            forall|j: int|
                0 <= j < i ==> ((#[trigger] fm[j]) matches Sx::List(fe) && crate::ast::head_is(
                    fe,
                    "Item"@,
                )),
        decreases fields.len() - i,
    {
        match fields[i] {
            SExpr::List(fe) => {
                proof {
                    assert(fields@[i as int]@ == Sx::List(sxs(fe@)));
                    lemma_sxs(fe@);
                }
                if !(fe.len() > 0 && sym_is(&fe[0], "Item")) {
                    proof {
                        if fe.len() > 0 {
                            assert(sxs(fe@)[0] == fe@[0]@);
                        }
                        assert(fm[i as int] matches Sx::List(q) && !crate::ast::head_is(
                            q,
                            "Item"@,
                        ));
                    }
                    return None;
                }
                proof {
                    assert(sxs(fe@)[0] == fe@[0]@);
                    assert(fm[i as int] matches Sx::List(q) && crate::ast::head_is(q, "Item"@));
                }
            },
            _ => {
                return None;
            },
        }
        i = i + 1;
    }
    let mut collector = ToBuiVisitor::new();
    if !collector.visit(hil) {
        return None;
    }
    Some(collector.collect())
}

/// One loaded unit: its exported items, or nothing for the empty stub.
pub struct Bui {
    pub items: Option<Vec<BuiItem>>,
}

impl Bui {
    /// The stub for a unit whose interface has not been read.
    pub fn empty() -> (r: Self)
        ensures
            r.items is None,
    {
        Bui { items: None }
    }

    /// The exported items of a loaded unit.
    pub fn items(&self) -> (r: &Vec<BuiItem>)
        requires
            self.items is Some,
        ensures
            r == self.items.unwrap(),
    {
        match &self.items {
            Some(v) => v,
            None => vstd::pervasive::unreached(),
        }
    }
}

} // verus!
