//! The lowering transform: rewrites the input tree into the HIL.
//!
//! Every resolved reference is replaced by a canonical qualified-path payload
//! carrying a `def` or `local` discriminant; (almost) every node gains a fresh
//! `hil_id`; definition-introducing nodes gain a `def_id` from a second
//! counter that advances once per such node in document pre-order. That
//! counter is deliberately distinct from the collect pass's offset counter,
//! which advances only on `Item` nodes: the two numbering schemes coincide
//! only up to the first nested definition and must not be conflated — the
//! `DefId` inside a resolved reference comes from the collect pass, the
//! `def_id` attribute of a lowered node from this one.

use vstd::prelude::*;

use crate::ast::{
    count_nodes, lemma_node_count_nonneg, lemma_node_count_seq_nonneg, node_count, node_count_seq,
};
use crate::def::{DefId, DefLocalId};
use crate::hil::{hil_counter_next, Hil, HilId};
use crate::resolve::{rmap, find_resolution, Resolution};
use crate::s_expr::{add_attr_spec, fields_scan, lemma_sxs, node_attr, node_add_attr, node_fields, node_get_attr, key_is, sym_is, sxs, SExpr, Sx};

verus! {

/// The map a node-to-identity list denotes.
pub open spec fn hmap(l: Seq<(u32, u32)>) -> Map<int, u32>
    decreases l.len(),
{
    if l.len() == 0 {
        Map::empty()
    } else {
        hmap(l.drop_last()).insert(l.last().0 as int, l.last().1)
    }
}

/// If entry `i` has key `k` and no later entry does, the list maps `k` to
/// that entry's value.
pub proof fn lemma_hmap_found(l: Seq<(u32, u32)>, k: u32, i: int)
    requires
        0 <= i < l.len(),
        l[i].0 == k,
        forall|j: int| i < j < l.len() ==> l[j].0 != k,
    ensures
        hmap(l).contains_key(k as int),
        hmap(l)[k as int] == l[i].1,
    decreases l.len(),
{
    if i == l.len() - 1 {
    } else {
        lemma_hmap_found(l.drop_last(), k, i);
    }
}

/// If no entry has key `k`, the list does not map it.
pub proof fn lemma_hmap_absent(l: Seq<(u32, u32)>, k: u32)
    requires
        forall|j: int| 0 <= j < l.len() ==> l[j].0 != k,
    ensures
        !hmap(l).contains_key(k as int),
    decreases l.len(),
{
    if l.len() > 0 {
        lemma_hmap_absent(l.drop_last(), k);
    }
}

/// Model of the identity map of one lowering run: which nodes have been
/// assigned an identity, and the identity counter.
#[verifier::ext_equal]
pub struct HilMapSt {
    pub node_to_hil: Map<int, u32>,
    pub next_hil: u32,
}

/// Model of the state threaded through one lowering run: the identity map
/// and the per-node definition counter.
#[verifier::ext_equal]
pub struct LowerSt {
    pub hil: HilMapSt,
    pub next_def: int,
}

/// The identity of node `n` within one lowering run: the one already
/// recorded, or a fresh one recorded now. Asking twice yields the same
/// identity, from whichever direction the node is reached first.
pub open spec fn hil_id_spec(st: HilMapSt, n: int) -> (HilMapSt, u32) {
    if st.node_to_hil.contains_key(n) {
        (st, st.node_to_hil[n])
    } else {
        (
            HilMapSt {
                node_to_hil: st.node_to_hil.insert(n, st.next_hil),
                next_hil: hil_counter_next(st.next_hil),
            },
            st.next_hil,
        )
    }
}

/// Requesting a node's identity twice within one lowering run returns the
/// same identity, however the two requests interleave with requests for
/// other nodes.
pub proof fn lemma_hil_id_idempotent(st: HilMapSt, n: int)
    ensures
        hil_id_spec(hil_id_spec(st, n).0, n).1 == hil_id_spec(st, n).1,
        hil_id_spec(hil_id_spec(st, n).0, n).0 == hil_id_spec(st, n).0,
{
}

/// The canonical qualified-path payload of a resolved reference: the original
/// head, a `qpath` kind, and a `Path` node whose `kind` keyword discriminates
/// a definition from a local binding.
pub open spec fn qpath_payload(head: Sx, disc: Seq<char>, target: Sx) -> Seq<Sx> {
    seq![
        head,
        Sx::Key("kind"@),
        Sx::Key("qpath"@),
        Sx::List(seq![Sx::Sym("Path"@), Sx::Key("kind"@), Sx::Key(disc), target]),
    ]
}

/// Whether a head tag introduces a definition and therefore receives a
/// `def_id` attribute from the lowering counter.
pub open spec fn is_def_tag(head: Seq<char>) -> bool {
    head == "Item"@ || head == "Decl"@ || head == "Binding"@ || head == "Variant"@ || head
        == "FieldDef"@
}

/// The lowering of one tree whose root is node `id`, given the resolution
/// map. `None` is the fatal outcome on malformed input: a list without a
/// symbol head, a reference without a `kind` attribute, or a reference that
/// the resolve pass left unresolved.
pub open spec fn lower_node(x: Sx, id: int, res: Map<int, Resolution<u32>>, st: LowerSt) -> Option<
    (Sx, LowerSt),
>
    decreases x,
{
    match x {
        Sx::List(elems) => {
            if elems.len() == 0 || !(elems[0] is Sym) {
                None
            } else {
                let head = elems[0]->Sym_0;
                let d = st.next_def;
                let st0 = if is_def_tag(head) {
                    LowerSt { hil: st.hil, next_def: st.next_def + 1 }
                } else {
                    st
                };
                let step: Option<(Seq<Sx>, LowerSt)> = if head == "Expr"@ || head == "Ty"@ {
                    match node_attr(elems, "kind"@) {
                        None => None,
                        Some(kind) => if kind == Sx::Key("path"@) {
                            if !res.contains_key(id) {
                                None
                            } else {
                                match res[id] {
                                    Resolution::Def(did) => Some(
                                        (qpath_payload(elems[0], "def"@, did.sx_of()), st0),
                                    ),
                                    Resolution::Local(nid) => {
                                        let (hs, h) = hil_id_spec(st0.hil, nid as int);
                                        Some(
                                            (
                                                qpath_payload(
                                                    elems[0],
                                                    "local"@,
                                                    Sx::Num(h as u64),
                                                ),
                                                LowerSt { hil: hs, next_def: st0.next_def },
                                            ),
                                        )
                                    },
                                }
                            }
                        } else {
                            lower_seq(elems, id + 1, res, st0)
                        },
                    }
                } else {
                    lower_seq(elems, id + 1, res, st0)
                };
                match step {
                    None => None,
                    Some((elems2, st1)) => {
                        let elems3 = if is_def_tag(head) {
                            add_attr_spec(elems2, "def_id"@, Sx::Num(d as u32 as u64))
                        } else {
                            elems2
                        };
                        if head != "Item"@ && head != "Unit"@ {
                            let (hs, h) = hil_id_spec(st1.hil, id);
                            Some(
                                (
                                    Sx::List(add_attr_spec(elems3, "hil_id"@, Sx::Num(h as u64))),
                                    LowerSt { hil: hs, next_def: st1.next_def },
                                ),
                            )
                        } else {
                            Some((Sx::List(elems3), st1))
                        }
                    },
                }
            }
        },
        Sx::Vect(elems) => match lower_seq(elems, id, res, st) {
            None => None,
            Some((ys, st1)) => Some((Sx::Vect(ys), st1)),
        },
        _ => Some((x, st)),
    }
}

/// The lowering of a sequence of trees, each shifted past the node
/// identities its predecessors span.
pub open spec fn lower_seq(elems: Seq<Sx>, id: int, res: Map<int, Resolution<u32>>, st: LowerSt) -> Option<
    (Seq<Sx>, LowerSt),
>
    decreases elems,
{
    if elems.len() == 0 {
        Some((Seq::empty(), st))
    } else {
        match lower_node(elems.first(), id, res, st) {
            None => None,
            Some((y, st1)) => match lower_seq(
                elems.drop_first(),
                id + node_count(elems.first()),
                res,
                st1,
            ) {
                None => None,
                Some((ys, st2)) => Some((seq![y] + ys, st2)),
            },
        }
    }
}

/// The lowering advances the definition counter at most once per node and
/// never moves it backwards.
pub proof fn lemma_lower_node_def_bound(x: Sx, id: int, res: Map<int, Resolution<u32>>, st: LowerSt)
    ensures
        match lower_node(x, id, res, st) {
            Some((y, st2)) => st.next_def <= st2.next_def <= st.next_def + node_count(x),
            None => true,
        },
    decreases x,
{
    lemma_node_count_nonneg(x);
    match x {
        Sx::List(elems) => {
            if elems.len() == 0 || !(elems[0] is Sym) {
            } else {
                let head = elems[0]->Sym_0;
                let st0 = if is_def_tag(head) {
                    LowerSt { hil: st.hil, next_def: st.next_def + 1 }
                } else {
                    st
                };
                lemma_lower_seq_def_bound(elems, id + 1, res, st0);
                lemma_node_count_seq_nonneg(elems);
            }
        },
        Sx::Vect(elems) => {
            lemma_lower_seq_def_bound(elems, id, res, st);
        },
        _ => (),
    }
}

/// As `lemma_lower_node_def_bound`, for a sequence of trees.
pub proof fn lemma_lower_seq_def_bound(
    elems: Seq<Sx>,
    id: int,
    res: Map<int, Resolution<u32>>,
    st: LowerSt,
)
    ensures
        match lower_seq(elems, id, res, st) {
            Some((ys, st2)) => st.next_def <= st2.next_def <= st.next_def + node_count_seq(elems),
            None => true,
        },
    decreases elems,
{
    if elems.len() > 0 {
        lemma_lower_node_def_bound(elems.first(), id, res, st);
        lemma_node_count_nonneg(elems.first());
        lemma_node_count_seq_nonneg(elems.drop_first());
        match lower_node(elems.first(), id, res, st) {
            Some((y, st1)) => {
                lemma_lower_seq_def_bound(
                    elems.drop_first(),
                    id + node_count(elems.first()),
                    res,
                    st1,
                );
            },
            None => (),
        }
    }
}

/// The identity state of one lowering run: the resolution map produced by the
/// resolve pass, the node-to-identity map, and the identity counter.
pub struct LoweringContext {
    pub resolutions: Vec<(u32, Resolution<u32>)>,
    pub node_to_hil: Vec<(u32, u32)>,
    pub next_hil: u32,
}

impl LoweringContext {
    /// The model of the identity map this run has built so far.
    pub open spec fn hmodel(self) -> HilMapSt {
        HilMapSt { node_to_hil: hmap(self.node_to_hil@), next_hil: self.next_hil }
    }

    /// The model of the identity state, together with a definition counter
    /// owned by the traversal.
    pub open spec fn model_with(self, next_def: int) -> LowerSt {
        LowerSt { hil: self.hmodel(), next_def: next_def }
    }

    /// The resolution map this run consumes.
    pub open spec fn res(self) -> Map<int, Resolution<u32>> {
        rmap(self.resolutions@)
    }

    /// A fresh lowering run over the given resolution map.
    pub fn new(resolutions: Vec<(u32, Resolution<u32>)>) -> (r: Self)
        ensures
            r.res() == rmap(resolutions@),
            r.hmodel() == (HilMapSt { node_to_hil: Map::<int, u32>::empty(), next_hil: 0 }),
    {
        LoweringContext { resolutions, node_to_hil: Vec::new(), next_hil: 0 }
    }

    /// The `HilId` of the node with identity `node_id`: the one recorded
    /// earlier in this run, or a fresh one recorded now.
    pub fn hil_id(&mut self, node_id: u32) -> (r: HilId)
        ensures
            final(self).resolutions == old(self).resolutions,
            final(self).hmodel() == hil_id_spec(old(self).hmodel(), node_id as int).0,
            r.private == hil_id_spec(old(self).hmodel(), node_id as int).1,
    {
        let found = {
            let mut i: usize = self.node_to_hil.len();
            let mut f: Option<u32> = None;
            while i > 0 && f.is_none()
                invariant
                    0 <= i <= self.node_to_hil@.len(),
                    match f {
                        Some(v) => hmap(self.node_to_hil@).contains_key(node_id as int) && hmap(
                            self.node_to_hil@,
                        )[node_id as int] == v,
                        None => forall|j: int|
                            i <= j < self.node_to_hil@.len() ==> self.node_to_hil@[j].0 != node_id,
                    },
                decreases i,
            {
                i = i - 1;
                if self.node_to_hil[i].0 == node_id {
                    proof {
                        lemma_hmap_found(self.node_to_hil@, node_id, i as int);
                    }
                    f = Some(self.node_to_hil[i].1);
                }
            }
            proof {
                if f is None {
                    lemma_hmap_absent(self.node_to_hil@, node_id);
                }
            }
            f
        };
        match found {
            Some(v) => HilId { private: v },
            None => {
                let ghost pre = self.node_to_hil@;
                let fresh = HilId::new(&mut self.next_hil);
                self.node_to_hil.push((node_id, fresh.private));
                proof {
                    assert(self.node_to_hil@.drop_last() =~= pre);
                }
                fresh
            },
        }
    }
}

/// The traversal state of one lowering run: the per-node definition counter,
/// which advances once per definition-introducing tag, in document pre-order.
pub struct AstLowering {
    pub def_local_id: DefLocalId,
}

impl AstLowering {
    /// Lowers one tree whose root has node identity `k`. `None` is the fatal
    /// outcome on malformed or unresolved input.
    fn run(&mut self, ast: &SExpr, ctx: &mut LoweringContext, k: u32) -> (r: (Option<SExpr>, u32))
        requires
            k as int + node_count(ast@) <= u32::MAX as int,
            old(self).def_local_id.0 + node_count(ast@) <= u32::MAX,
        ensures
            final(ctx).resolutions == old(ctx).resolutions,
            match lower_node(
                ast@,
                k as int,
                old(ctx).res(),
                old(ctx).model_with(old(self).def_local_id.0 as int),
            ) {
                Some((y, st2)) => (r.0 matches Some(out) && out@ == y) && final(ctx).model_with(
                    final(self).def_local_id.0 as int,
                ) == st2 && r.1 as int == k as int + node_count(ast@),
                None => r.0 is None,
            },
        decreases ast,
    {
        let ghost res0 = old(ctx).res();
        let ghost st_in = old(ctx).model_with(old(self).def_local_id.0 as int);
        match ast {
            SExpr::List(elems) => {
                proof {
                    lemma_sxs(elems@);
                    lemma_node_count_seq_nonneg(sxs(elems@));
                    crate::ast::lemma_tags_distinct();
                    assert(ast@ == Sx::List(sxs(elems@)));
                }
                if elems.len() == 0 {
                    return (None, k);
                }
                let head_ok = match &elems[0] {
                    SExpr::Sym(_) => true,
                    _ => false,
                };
                proof {
                    assert(sxs(elems@)[0] == elems@[0]@);
                }
                if !head_ok {
                    return (None, k);
                }
                let ghost head = sxs(elems@)[0]->Sym_0;
                let five = sym_is(&elems[0], "Item") || sym_is(&elems[0], "Decl") || sym_is(
                    &elems[0],
                    "Binding",
                ) || sym_is(&elems[0], "Variant") || sym_is(&elems[0], "FieldDef");
                proof {
                    assert(five == is_def_tag(head));
                }
                let dopt: Option<DefLocalId> = if five {
                    let d = self.def_local_id;
                    self.def_local_id = d.next();
                    Some(d)
                } else {
                    None
                };
                let ghost st0 = if is_def_tag(head) {
                    LowerSt { hil: st_in.hil, next_def: st_in.next_def + 1 }
                } else {
                    st_in
                };
                proof {
                    assert(ctx.model_with(self.def_local_id.0 as int) =~= st0);
                }
                let is_expr_ty = sym_is(&elems[0], "Expr") || sym_is(&elems[0], "Ty");
                let mut is_path = false;
                if is_expr_ty {
                    match node_get_attr(elems, "kind") {
                        Some(v) => {
                            proof {
                                assert(node_attr(sxs(elems@), "kind"@) == Some(v@));
                            }
                            is_path = key_is(v, "path");
                        },
                        None => {
                            return (None, k);
                        },
                    }
                }
                let out_elems: Vec<SExpr>;
                let k_after: u32;
                let ghost st1: LowerSt;
                if is_path {
                    let resv = match find_resolution(&ctx.resolutions, k) {
                        Some(v) => v,
                        None => {
                            return (None, k);
                        },
                    };
                    let disc: &str;
                    let target: SExpr;
                    match resv {
                        Resolution::Def(did) => {
                            disc = "def";
                            target = did.to_s_expr();
                            proof {
                                st1 = st0;
                            }
                        },
                        Resolution::Local(nid) => {
                            disc = "local";
                            let h = ctx.hil_id(nid);
                            target = h.to_s_expr();
                            proof {
                                st1 = LowerSt {
                                    hil: hil_id_spec(st0.hil, nid as int).0,
                                    next_def: st0.next_def,
                                };
                                assert(ctx.model_with(self.def_local_id.0 as int) =~= st1);
                            }
                        },
                    }
                    let ghost target_m = target@;
                    let inner: Vec<SExpr> = vec![
                        SExpr::Sym("Path".to_owned()),
                        SExpr::Key("kind".to_owned()),
                        SExpr::Key(disc.to_owned()),
                        target,
                    ];
                    proof {
                        lemma_sxs(inner@);
                        assert(sxs(inner@) =~= seq![
                            Sx::Sym("Path"@),
                            Sx::Key("kind"@),
                            Sx::Key(disc@),
                            target_m,
                        ]);
                    }
                    let head_dup = elems[0].duplicate();
                    let out: Vec<SExpr> = vec![
                        head_dup,
                        SExpr::Key("kind".to_owned()),
                        SExpr::Key("qpath".to_owned()),
                        SExpr::List(inner),
                    ];
                    proof {
                        lemma_sxs(out@);
                        assert(sxs(out@) =~= qpath_payload(sxs(elems@)[0], disc@, target_m));
                    }
                    out_elems = out;
                    k_after = k + count_nodes(ast);
                } else {
                    let (lowered, k2) = self.run_seq(elems, ctx, k + 1);
                    match lowered {
                        Some(v) => {
                            out_elems = v;
                            k_after = k2;
                            proof {
                                st1 = match lower_seq(sxs(elems@), k as int + 1, res0, st0) {
                                    Some((ys, s)) => s,
                                    None => st0,
                                };
                            }
                        },
                        None => {
                            return (None, k);
                        },
                    }
                }
                let ghost payload_m = sxs(out_elems@);
                let mut out_elems = out_elems;
                if let Some(d) = dopt {
                    out_elems = node_add_attr(out_elems, "def_id", d.to_s_expr());
                    proof {
                        assert(sxs(out_elems@) == add_attr_spec(
                            payload_m,
                            "def_id"@,
                            Sx::Num(st_in.next_def as u32 as u64),
                        ));
                    }
                }
                let ghost elems3_m = sxs(out_elems@);
                let plain = sym_is(&elems[0], "Item") || sym_is(&elems[0], "Unit");
                if !plain {
                    proof {
                        assert(ctx.hmodel() =~= st1.hil);
                    }
                    let h = ctx.hil_id(k);
                    proof {
                        assert(h.private == hil_id_spec(st1.hil, k as int).1);
                    }
                    out_elems = node_add_attr(out_elems, "hil_id", h.to_s_expr());
                    proof {
                        assert(ctx.model_with(self.def_local_id.0 as int) =~= (LowerSt {
                            hil: hil_id_spec(st1.hil, k as int).0,
                            next_def: st1.next_def,
                        }));
                        assert(sxs(out_elems@) == add_attr_spec(
                            elems3_m,
                            "hil_id"@,
                            Sx::Num(hil_id_spec(st1.hil, k as int).1 as u64),
                        ));
                    }
                }
                proof {
                    assert(SExpr::List(out_elems)@ == Sx::List(sxs(out_elems@)));
                }
                (Some(SExpr::List(out_elems)), k_after)
            },
            SExpr::Vect(elems) => {
                proof {
                    assert(ast@ == Sx::Vect(sxs(elems@)));
                }
                let (lowered, k2) = self.run_seq(elems, ctx, k);
                match lowered {
                    Some(v) => {
                        proof {
                            assert(SExpr::Vect(v)@ == Sx::Vect(sxs(v@)));
                        }
                        (Some(SExpr::Vect(v)), k2)
                    },
                    None => (None, k),
                }
            },
            _ => (Some(ast.duplicate()), k),
        }
    }

    /// Lowers a sequence of trees left to right, the first rooted at node
    /// identity `k`.
    #[verifier::loop_isolation(false)]
    fn run_seq(&mut self, elems: &Vec<SExpr>, ctx: &mut LoweringContext, k: u32) -> (r: (
        Option<Vec<SExpr>>,
        u32,
    ))
        requires
            k as int + node_count_seq(sxs(elems@)) <= u32::MAX as int,
            old(self).def_local_id.0 + node_count_seq(sxs(elems@)) <= u32::MAX,
        ensures
            final(ctx).resolutions == old(ctx).resolutions,
            match lower_seq(
                sxs(elems@),
                k as int,
                old(ctx).res(),
                old(ctx).model_with(old(self).def_local_id.0 as int),
            ) {
                Some((ys, st2)) => (r.0 matches Some(out) && sxs(out@) == ys)
                    && final(ctx).model_with(final(self).def_local_id.0 as int) == st2
                    && r.1 as int == k as int + node_count_seq(sxs(elems@)),
                None => r.0 is None,
            },
        decreases elems,
    {
        let ghost res0 = old(ctx).res();
        let ghost st_init = old(ctx).model_with(old(self).def_local_id.0 as int);
        let ghost all = sxs(elems@);
        proof {
            lemma_sxs(elems@);
            assert(all.skip(0) =~= all);
        }
        let mut out: Vec<SExpr> = Vec::new();
        let mut cur: u32 = k;
        let mut i: usize = 0;
        while i < elems.len()
            invariant
                0 <= i <= elems.len(),
                cur as int + node_count_seq(all.skip(i as int)) == k as int + node_count_seq(all),
                self.def_local_id.0 + node_count_seq(all.skip(i as int)) <= u32::MAX,
                ctx.resolutions == old(ctx).resolutions,
                lower_seq(all, k as int, res0, st_init) == (match lower_seq(
                    all.skip(i as int),
                    cur as int,
                    res0,
                    ctx.model_with(self.def_local_id.0 as int),
                ) {
                    None => None::<(Seq<Sx>, LowerSt)>,
                    Some((ys, stf)) => Some((sxs(out@) + ys, stf)),
                }),
            decreases elems.len() - i,
        {
            let ghost pre = all.skip(i as int);
            let ghost st_before = ctx.model_with(self.def_local_id.0 as int);
            proof {
                assert(pre.first() == all[i as int]);
                assert(pre.first() == elems@[i as int]@);
                assert(pre.drop_first() =~= all.skip(i + 1 as int));
                lemma_node_count_nonneg(pre.first());
                lemma_node_count_seq_nonneg(pre.drop_first());
            }
            let (y_opt, k2) = self.run(&elems[i], ctx, cur);
            let y = match y_opt {
                Some(y) => y,
                None => {
                    return (None, cur);
                },
            };
            proof {
                lemma_lower_node_def_bound(pre.first(), cur as int, res0, st_before);
                let ghost prev_out = sxs(out@);
                assert(sxs(out@.push(y)) =~= sxs(out@) + seq![y@]) by {
                    lemma_sxs(out@.push(y));
                    lemma_sxs(out@);
                }
            }
            let ghost prev_out_m = sxs(out@);
            out.push(y);
            cur = k2;
            i = i + 1;
            proof {
                let stepped = lower_node(pre.first(), cur as int - node_count(pre.first()), res0, st_before);
                match lower_seq(
                    all.skip(i as int),
                    cur as int,
                    res0,
                    ctx.model_with(self.def_local_id.0 as int),
                ) {
                    None => {},
                    Some((ys, stf)) => {
                        assert((prev_out_m + seq![y@]) + ys =~= prev_out_m + (seq![y@] + ys));
                    },
                }
            }
        }
        proof {
            assert(all.skip(i as int).len() == 0);
            match lower_seq(all, k as int, res0, st_init) {
                None => {},
                Some((ys, stf)) => {
                    assert(sxs(out@) + Seq::<Sx>::empty() =~= sxs(out@));
                },
            }
        }
        (Some(out), cur)
    }
}

/// Whether the resolution map covers every reference node of the tree rooted
/// at node identity `id`: the nodes a lowering of that tree looks up.
pub open spec fn paths_resolved(x: Sx, id: int, res: Map<int, Resolution<u32>>) -> bool
    decreases x,
{
    match x {
        Sx::List(elems) => {
            if crate::ast::is_path_node(elems) {
                res.contains_key(id)
            } else {
                paths_resolved_seq(elems, id + 1, res)
            }
        },
        Sx::Vect(elems) => paths_resolved_seq(elems, id, res),
        _ => true,
    }
}

/// As `paths_resolved`, for a sequence of trees.
pub open spec fn paths_resolved_seq(elems: Seq<Sx>, id: int, res: Map<int, Resolution<u32>>) -> bool
    decreases elems,
{
    if elems.len() == 0 {
        true
    } else {
        paths_resolved(elems.first(), id, res) && paths_resolved_seq(
            elems.drop_first(),
            id + node_count(elems.first()),
            res,
        )
    }
}

/// Coverage survives adding resolutions.
pub proof fn lemma_paths_resolved_lift(
    x: Sx,
    id: int,
    res: Map<int, Resolution<u32>>,
    res2: Map<int, Resolution<u32>>,
)
    requires
        paths_resolved(x, id, res),
        forall|k: int| res.contains_key(k) ==> res2.contains_key(k),
    ensures
        paths_resolved(x, id, res2),
    decreases x,
{
    match x {
        Sx::List(elems) => {
            if !crate::ast::is_path_node(elems) {
                lemma_paths_resolved_seq_lift(elems, id + 1, res, res2);
            }
        },
        Sx::Vect(elems) => {
            lemma_paths_resolved_seq_lift(elems, id, res, res2);
        },
        _ => (),
    }
}

/// As `lemma_paths_resolved_lift`, for a sequence of trees.
pub proof fn lemma_paths_resolved_seq_lift(
    elems: Seq<Sx>,
    id: int,
    res: Map<int, Resolution<u32>>,
    res2: Map<int, Resolution<u32>>,
)
    requires
        paths_resolved_seq(elems, id, res),
        forall|k: int| res.contains_key(k) ==> res2.contains_key(k),
    ensures
        paths_resolved_seq(elems, id, res2),
    decreases elems,
{
    if elems.len() > 0 {
        lemma_paths_resolved_lift(elems.first(), id, res, res2);
        lemma_paths_resolved_seq_lift(
            elems.drop_first(),
            id + node_count(elems.first()),
            res,
            res2,
        );
    }
}

/// On a structurally sound tree whose references are all covered by the
/// resolution map, the lowering cannot hit its fatal outcome.
pub proof fn lemma_lower_succeeds(x: Sx, id: int, res: Map<int, Resolution<u32>>, st: LowerSt)
    requires
        crate::ast::wf_tree(x),
        paths_resolved(x, id, res),
    ensures
        lower_node(x, id, res, st) is Some,
    decreases x,
{
    match x {
        Sx::List(elems) => {
            let head = elems[0]->Sym_0;
            let st0 = if is_def_tag(head) {
                LowerSt { hil: st.hil, next_def: st.next_def + 1 }
            } else {
                st
            };
            if head == "Expr"@ || head == "Ty"@ {
                crate::ast::lemma_tags_distinct();
                match node_attr(elems, "kind"@) {
                    None => {
                        assert(false);
                    },
                    Some(kind) => {
                        if kind == Sx::Key("path"@) {
                            assert(crate::ast::kind_of(elems) == Some("path"@));
                            assert(crate::ast::is_path_node(elems));
                        } else {
                            assert(crate::ast::kind_of(elems) != Some("path"@));
                            assert(!crate::ast::is_path_node(elems));
                            lemma_lower_seq_succeeds(elems, id + 1, res, st0);
                        }
                    },
                }
            } else {
                assert(!crate::ast::is_path_node(elems));
                lemma_lower_seq_succeeds(elems, id + 1, res, st0);
            }
        },
        Sx::Vect(elems) => {
            lemma_lower_seq_succeeds(elems, id, res, st);
        },
        _ => (),
    }
}

/// As `lemma_lower_succeeds`, for a sequence of trees.
pub proof fn lemma_lower_seq_succeeds(
    elems: Seq<Sx>,
    id: int,
    res: Map<int, Resolution<u32>>,
    st: LowerSt,
)
    requires
        crate::ast::wf_seq(elems),
        paths_resolved_seq(elems, id, res),
    ensures
        lower_seq(elems, id, res, st) is Some,
    decreases elems,
{
    if elems.len() > 0 {
        lemma_lower_succeeds(elems.first(), id, res, st);
        match lower_node(elems.first(), id, res, st) {
            Some((y, st1)) => {
                lemma_lower_seq_succeeds(
                    elems.drop_first(),
                    id + node_count(elems.first()),
                    res,
                    st1,
                );
            },
            None => (),
        }
    }
}

/// The lowered tree has the shape of the source tree: the same head tag and
/// the same field count at every position, except for replaced path payloads
/// (where only the head is promised) and added attributes; leaves are kept
/// as they are.
pub open spec fn same_shape(a: Sx, h: Sx) -> bool
    decreases a,
    via same_shape_dec
{
    match a {
        Sx::List(xs) => match h {
            Sx::List(ys) => {
                &&& xs.len() >= 1
                &&& ys.len() >= 1
                &&& ys[0] == xs[0]
                &&& !crate::ast::is_path_node(xs) ==> {
                    &&& node_fields(ys).len() == node_fields(xs).len()
                    &&& forall|i: int|
                        0 <= i < node_fields(xs).len() ==> same_shape(
                            #[trigger] node_fields(xs)[i],
                            node_fields(ys)[i],
                        )
                }
            },
            _ => false,
        },
        Sx::Vect(xs) => match h {
            Sx::Vect(ys) => ys.len() == xs.len() && forall|i: int|
                0 <= i < xs.len() ==> same_shape(#[trigger] xs[i], ys[i]),
            _ => false,
        },
        _ => h == a,
    }
}

#[via_fn]
proof fn same_shape_dec(a: Sx, h: Sx) {
    match a {
        Sx::List(xs) => {
            assert forall|i: int| 0 <= i < node_fields(xs).len() implies decreases_to!(
                a => node_fields(xs)[i]) by {
                crate::s_expr::lemma_node_fields_membership(xs, i);
                let j = choose|j: int| 0 <= j < xs.len() && xs[j] == node_fields(xs)[i];
                assert(decreases_to!(a => xs));
                assert(decreases_to!(xs => xs[j]));
            }
        },
        Sx::Vect(xs) => {
            assert forall|i: int| 0 <= i < xs.len() implies decreases_to!(a => xs[i]) by {
                assert(decreases_to!(a => xs));
                assert(decreases_to!(xs => xs[i]));
            }
        },
        _ => (),
    }
}

/// A pointwise shape-related element list yields pointwise shape-related
/// fields: shape preservation keeps keywords as they are, so the attribute
/// scan consumes the same positions on both sides.
pub proof fn lemma_fields_scan_shape(xs: Seq<Sx>, ys: Seq<Sx>)
    requires
        ys.len() == xs.len(),
        forall|i: int| 0 <= i < xs.len() ==> same_shape(#[trigger] xs[i], ys[i]),
    ensures
        fields_scan(ys).len() == fields_scan(xs).len(),
        forall|i: int|
            0 <= i < fields_scan(xs).len() ==> same_shape(
                #[trigger] fields_scan(xs)[i],
                fields_scan(ys)[i],
            ),
    decreases xs.len(),
{
    if xs.len() == 0 {
    } else {
        assert(same_shape(xs[0], ys[0]));
        if xs[0] is Key {
            assert(ys[0] == xs[0]);
            if xs.len() >= 2 {
                assert(xs.skip(2).len() == ys.skip(2).len());
                assert forall|i: int| 0 <= i < xs.skip(2).len() implies same_shape(
                    #[trigger] xs.skip(2)[i],
                    ys.skip(2)[i],
                ) by {
                    assert(xs.skip(2)[i] == xs[i + 2]);
                    assert(ys.skip(2)[i] == ys[i + 2]);
                }
                lemma_fields_scan_shape(xs.skip(2), ys.skip(2));
            }
        } else {
            assert(!(ys[0] is Key)) by {
                match xs[0] {
                    Sx::List(_) => {},
                    Sx::Vect(_) => {},
                    _ => {},
                }
            }
            assert forall|i: int| 0 <= i < xs.drop_first().len() implies same_shape(
                #[trigger] xs.drop_first()[i],
                ys.drop_first()[i],
            ) by {
                assert(xs.drop_first()[i] == xs[i + 1]);
                assert(ys.drop_first()[i] == ys[i + 1]);
            }
            lemma_fields_scan_shape(xs.drop_first(), ys.drop_first());
            assert forall|i: int| 0 <= i < fields_scan(xs).len() implies same_shape(
                #[trigger] fields_scan(xs)[i],
                fields_scan(ys)[i],
            ) by {
                if i > 0 {
                    assert(fields_scan(xs)[i] == fields_scan(xs.drop_first())[i - 1]);
                    assert(fields_scan(ys)[i] == fields_scan(ys.drop_first())[i - 1]);
                }
            }
        }
    }
}

/// Lowering preserves shape: whenever the lowering of a tree succeeds, the
/// lowered tree has the same tag and field count at every position, except
/// for replaced path payloads and added attributes.
pub proof fn lemma_lower_preserves_shape(x: Sx, id: int, res: Map<int, Resolution<u32>>, st: LowerSt)
    ensures
        match lower_node(x, id, res, st) {
            Some(p) => same_shape(x, p.0),
            None => true,
        },
    decreases x,
{
    match x {
        Sx::List(elems) => {
            if elems.len() == 0 || !(elems[0] is Sym) {
            } else {
                let head = elems[0]->Sym_0;
                let st0 = if is_def_tag(head) {
                    LowerSt { hil: st.hil, next_def: st.next_def + 1 }
                } else {
                    st
                };
                lemma_lower_seq_preserves_shape(elems, id + 1, res, st0);
                match lower_node(x, id, res, st) {
                    None => (),
                    Some((y, st2)) => {
                        let is_path = (head == "Expr"@ || head == "Ty"@) && (match node_attr(
                            elems,
                            "kind"@,
                        ) {
                            Some(kind) => kind == Sx::Key("path"@),
                            None => false,
                        });
                        if is_path {
                            assert(crate::ast::is_path_node(elems));
                            assert(y matches Sx::List(ys) && ys.len() >= 1 && ys[0] == elems[0]);
                        } else {
                            assert(!crate::ast::is_path_node(elems));
                            let step = lower_seq(elems, id + 1, res, st0);
                            assert(step is Some);
                            let (elems2, st1) = step.unwrap();
                            assert(elems2.len() == elems.len());
                            assert(same_shape(elems[0], elems2[0]));
                            assert(elems2[0] == elems[0]);
                            let elems3 = if is_def_tag(head) {
                                add_attr_spec(elems2, "def_id"@, Sx::Num(st.next_def as u32 as u64))
                            } else {
                                elems2
                            };
                            assert(node_fields(elems3) == node_fields(elems2) && elems3[0]
                                == elems2[0] && elems3.len() >= 1) by {
                                if is_def_tag(head) {
                                    crate::s_expr::lemma_add_attr_fields(
                                        elems2,
                                        "def_id"@,
                                        Sx::Num(st.next_def as u32 as u64),
                                    );
                                }
                            }
                            let hil_elems = if head != "Item"@ && head != "Unit"@ {
                                add_attr_spec(
                                    elems3,
                                    "hil_id"@,
                                    Sx::Num(hil_id_spec(st1.hil, id).1 as u64),
                                )
                            } else {
                                elems3
                            };
                            assert(node_fields(hil_elems) == node_fields(elems3) && hil_elems[0]
                                == elems3[0] && hil_elems.len() >= 1) by {
                                if head != "Item"@ && head != "Unit"@ {
                                    crate::s_expr::lemma_add_attr_fields(
                                        elems3,
                                        "hil_id"@,
                                        Sx::Num(hil_id_spec(st1.hil, id).1 as u64),
                                    );
                                }
                            }
                            assert(y == Sx::List(hil_elems));
                            assert(elems2.skip(1).len() == elems.skip(1).len());
                            assert forall|i: int| 0 <= i < elems.skip(1).len() implies same_shape(
                                #[trigger] elems.skip(1)[i],
                                elems2.skip(1)[i],
                            ) by {
                                assert(elems.skip(1)[i] == elems[i + 1]);
                                assert(elems2.skip(1)[i] == elems2[i + 1]);
                            }
                            lemma_fields_scan_shape(elems.skip(1), elems2.skip(1));
                            assert(node_fields(hil_elems).len() == node_fields(elems).len());
                            assert forall|i: int| 0 <= i < node_fields(elems).len() implies
                                same_shape(
                                #[trigger] node_fields(elems)[i],
                                node_fields(hil_elems)[i],
                            ) by {}
                        }
                    },
                }
            }
        },
        Sx::Vect(elems) => {
            lemma_lower_seq_preserves_shape(elems, id, res, st);
        },
        _ => (),
    }
}

/// As `lemma_lower_preserves_shape`, for a sequence of trees.
pub proof fn lemma_lower_seq_preserves_shape(
    elems: Seq<Sx>,
    id: int,
    res: Map<int, Resolution<u32>>,
    st: LowerSt,
)
    ensures
        match lower_seq(elems, id, res, st) {
            Some(p) => p.0.len() == elems.len() && forall|i: int|
                0 <= i < elems.len() ==> same_shape(#[trigger] elems[i], p.0[i]),
            None => true,
        },
    decreases elems,
{
    if elems.len() > 0 {
        lemma_lower_preserves_shape(elems.first(), id, res, st);
        match lower_node(elems.first(), id, res, st) {
            None => (),
            Some((y, st1)) => {
                lemma_lower_seq_preserves_shape(
                    elems.drop_first(),
                    id + node_count(elems.first()),
                    res,
                    st1,
                );
                match lower_seq(elems.drop_first(), id + node_count(elems.first()), res, st1) {
                    None => (),
                    Some((ys, st2)) => {
                        assert forall|i: int| 0 <= i < elems.len() implies same_shape(
                            #[trigger] elems[i],
                            (seq![y] + ys)[i],
                        ) by {
                            if i > 0 {
                                assert(elems[i] == elems.drop_first()[i - 1]);
                                assert((seq![y] + ys)[i] == ys[i - 1]);
                            }
                        }
                    },
                }
            },
        }
    }
}

/// Produces the HIL tree by rewriting the original tree node by node,
/// consuming the resolution map; `None` is the fatal outcome on malformed or
/// unresolved input.
pub fn lower_ast(ast: &SExpr, ctx: &mut LoweringContext) -> (r: Option<Hil>)
    requires
        node_count(ast@) <= u32::MAX,
    ensures
        final(ctx).resolutions == old(ctx).resolutions,
        match lower_node(ast@, 0, old(ctx).res(), old(ctx).model_with(0)) {
            Some((y, st2)) => r matches Some(h) && h@ == y,
            None => r is None,
        },
{
    proof {
        lemma_node_count_nonneg(ast@);
    }
    let mut lowering = AstLowering { def_local_id: DefLocalId::new() };
    let (out, _) = lowering.run(ast, ctx, 0);
    out
}

} // verus!
