//! The input syntax tree: traversal vocabulary and the front-end pipeline.
//!
//! A traversal visits every node in document pre-order; constructs that open a
//! lexical region (namespaces) get a matching exit after all descendants.
//! Node *instances* are identified by their pre-order index among list nodes:
//! the identity of one instance, not of its content, so that two structurally
//! identical nodes stay distinct. All passes thread the same index discipline
//! and therefore agree on every node's identity.

use vstd::prelude::*;
use vstd::pervasive::unreached;

use crate::hil::Hil;
use crate::lower::{
    lemma_lower_succeeds, lemma_paths_resolved_lift, lower_ast, lower_node, paths_resolved,
    paths_resolved_seq, HilMapSt, LowerSt, LoweringContext,
};
use crate::resolve::{
    collect_node, initial_ns, lemma_resolve_node_grows, lemma_resolve_seq_grows, res_keys_below,
    resolve_enter, resolve_node, resolve_seq, CollectSt, ResolveCollectVisitor, ResolvePathVisitor,
    ResolveSt,
};
use crate::s_expr::{lemma_sxs, node_attr, node_fields, node_get_attr, sxs, SExpr, Sx};

verus! {

/// The input syntax tree.
pub type Ast = SExpr;

/// Whether the node's head tag is the symbol `tag`.
pub open spec fn head_is(elems: Seq<Sx>, tag: Seq<char>) -> bool {
    elems.len() >= 1 && elems[0] == Sx::Sym(tag)
}

/// The number of list nodes in a tree: every list counts, in pre-order.
pub open spec fn node_count(x: Sx) -> int
    decreases x,
{
    match x {
        Sx::List(elems) => 1 + node_count_seq(elems),
        Sx::Vect(elems) => node_count_seq(elems),
        _ => 0,
    }
}

/// The number of list nodes in a sequence of trees.
pub open spec fn node_count_seq(elems: Seq<Sx>) -> int
    decreases elems,
{
    if elems.len() == 0 {
        0
    } else {
        node_count(elems.first()) + node_count_seq(elems.drop_first())
    }
}

/// Node counts are never negative.
pub broadcast proof fn lemma_node_count_nonneg(x: Sx)
    ensures
        #[trigger] node_count(x) >= 0,
    decreases x,
{
    match x {
        Sx::List(elems) => lemma_node_count_seq_nonneg(elems),
        Sx::Vect(elems) => lemma_node_count_seq_nonneg(elems),
        _ => (),
    }
}

/// Node counts of sequences are never negative.
pub broadcast proof fn lemma_node_count_seq_nonneg(elems: Seq<Sx>)
    ensures
        #[trigger] node_count_seq(elems) >= 0,
    decreases elems,
{
    if elems.len() > 0 {
        lemma_node_count_nonneg(elems.first());
        lemma_node_count_seq_nonneg(elems.drop_first());
    }
}

/// The head tags that dispatch the per-definition walk are pairwise distinct.
pub proof fn lemma_tags_distinct2()
    ensures
        "FnSig"@ != "Stmt"@,
        "FnSig"@ != "Block"@,
        "Stmt"@ != "Block"@,
{
    broadcast use vstd::string::group_string_axioms;

    reveal_strlit("FnSig");
    reveal_strlit("Stmt");
    reveal_strlit("Block");
    assert("FnSig"@.len() == 5);
    assert("Stmt"@.len() == 4);
    assert("Block"@.len() == 5);
    assert("FnSig"@[0] != "Block"@[0]);
}

/// Counts the list nodes of a tree.
pub fn count_nodes(x: &SExpr) -> (r: u32)
    requires
        node_count(x@) <= u32::MAX,
    ensures
        r as int == node_count(x@),
    decreases x,
{
    proof {
        lemma_node_count_nonneg(x@);
    }
    match x {
        SExpr::List(v) => 1 + count_nodes_seq(v),
        SExpr::Vect(v) => count_nodes_seq(v),
        _ => 0,
    }
}

/// Counts the list nodes of a sequence of trees.
fn count_nodes_seq(v: &Vec<SExpr>) -> (r: u32)
    requires
        node_count_seq(sxs(v@)) <= u32::MAX,
    ensures
        r as int == node_count_seq(sxs(v@)),
    decreases v,
{
    proof {
        lemma_sxs(v@);
        lemma_node_count_seq_nonneg(sxs(v@));
        assert(sxs(v@).skip(0) =~= sxs(v@));
    }
    let mut acc: u32 = 0;
    let mut i: usize = 0;
    while i < v.len()
        invariant
            0 <= i <= v.len(),
            sxs(v@).len() == v@.len(),
            forall|j: int| 0 <= j < v@.len() ==> sxs(v@)[j] == v@[j]@,
            acc as int + node_count_seq(sxs(v@).skip(i as int)) == node_count_seq(sxs(v@)),
            node_count_seq(sxs(v@)) <= u32::MAX,
        decreases v.len() - i,
    {
        let ghost pre = sxs(v@).skip(i as int);
        proof {
            assert(pre.first() == sxs(v@)[i as int]);
            assert(pre.drop_first() =~= sxs(v@).skip(i + 1 as int));
            lemma_node_count_nonneg(pre.first());
            lemma_node_count_seq_nonneg(pre.drop_first());
        }
        acc = acc + count_nodes(&v[i]);
        i = i + 1;
    }
    proof {
        assert(sxs(v@).skip(i as int).len() == 0);
    }
    acc
}

/// The name of an `ident` attribute that is a symbol; empty otherwise.
pub open spec fn ident_of(elems: Seq<Sx>) -> Seq<char> {
    match node_attr(elems, "ident"@) {
        Some(Sx::Sym(s)) => s,
        _ => Seq::empty(),
    }
}

/// The `kind` attribute of a node, which must be a keyword to count.
pub open spec fn kind_of(elems: Seq<Sx>) -> Option<Seq<char>> {
    match node_attr(elems, "kind"@) {
        Some(Sx::Key(k)) => Some(k),
        _ => None,
    }
}

/// The name of a namespace node: its first field, a symbol.
pub open spec fn ns_name_of(elems: Seq<Sx>) -> Seq<char> {
    if node_fields(elems).len() >= 1 {
        match node_fields(elems)[0] {
            Sx::Sym(s) => s,
            _ => Seq::empty(),
        }
    } else {
        Seq::empty()
    }
}

/// The name bound by a parameter node: its first field, a symbol.
pub open spec fn param_name_of(elems: Seq<Sx>) -> Seq<char> {
    ns_name_of(elems)
}

/// Whether the node is a reference: an expression or type whose `kind`
/// attribute marks it as a path.
pub open spec fn is_path_node(elems: Seq<Sx>) -> bool {
    (head_is(elems, "Expr"@) || head_is(elems, "Ty"@)) && kind_of(elems) == Some("path"@)
}

/// The single segment of a path reference: the sole symbol in its first
/// field's vector.
pub open spec fn path_seg_of(elems: Seq<Sx>) -> Seq<char> {
    if node_fields(elems).len() >= 1 {
        match node_fields(elems)[0] {
            Sx::Vect(segs) => if segs.len() >= 1 {
                match segs[0] {
                    Sx::Sym(s) => s,
                    _ => Seq::empty(),
                }
            } else {
                Seq::empty()
            },
            _ => Seq::empty(),
        }
    } else {
        Seq::empty()
    }
}

/// The head tags that dispatch a traversal are pairwise distinct.
pub proof fn lemma_tags_distinct()
    ensures
        "Item"@ != "Expr"@,
        "Item"@ != "Ty"@,
        "Item"@ != "Param"@,
        "Item"@ != "Namespace"@,
        "Item"@ != "Unit"@,
        "Item"@ != "Decl"@,
        "Item"@ != "Binding"@,
        "Item"@ != "Variant"@,
        "Item"@ != "FieldDef"@,
        "Expr"@ != "Ty"@,
        "Expr"@ != "Param"@,
        "Expr"@ != "Namespace"@,
        "Expr"@ != "Unit"@,
        "Expr"@ != "Decl"@,
        "Expr"@ != "Binding"@,
        "Expr"@ != "Variant"@,
        "Expr"@ != "FieldDef"@,
        "Ty"@ != "Param"@,
        "Ty"@ != "Namespace"@,
        "Ty"@ != "Unit"@,
        "Ty"@ != "Decl"@,
        "Ty"@ != "Binding"@,
        "Ty"@ != "Variant"@,
        "Ty"@ != "FieldDef"@,
        "Param"@ != "Namespace"@,
        "Param"@ != "Unit"@,
        "Param"@ != "Decl"@,
        "Param"@ != "Binding"@,
        "Param"@ != "Variant"@,
        "Param"@ != "FieldDef"@,
        "Namespace"@ != "Unit"@,
        "Namespace"@ != "Decl"@,
        "Namespace"@ != "Binding"@,
        "Namespace"@ != "Variant"@,
        "Namespace"@ != "FieldDef"@,
        "Unit"@ != "Decl"@,
        "Unit"@ != "Binding"@,
        "Unit"@ != "Variant"@,
        "Unit"@ != "FieldDef"@,
        "Decl"@ != "Binding"@,
        "Decl"@ != "Variant"@,
        "Decl"@ != "FieldDef"@,
        "Binding"@ != "Variant"@,
        "Binding"@ != "FieldDef"@,
        "Variant"@ != "FieldDef"@,
{
    broadcast use vstd::string::group_string_axioms;

    reveal_strlit("Item");
    reveal_strlit("Expr");
    reveal_strlit("Ty");
    reveal_strlit("Param");
    reveal_strlit("Namespace");
    reveal_strlit("Unit");
    reveal_strlit("Decl");
    reveal_strlit("Binding");
    reveal_strlit("Variant");
    reveal_strlit("FieldDef");
    assert("Item"@.len() == 4);
    assert("Expr"@.len() == 4);
    assert("Ty"@.len() == 2);
    assert("Param"@.len() == 5);
    assert("Namespace"@.len() == 9);
    assert("Unit"@.len() == 4);
    assert("Decl"@.len() == 4);
    assert("Binding"@.len() == 7);
    assert("Variant"@.len() == 7);
    assert("FieldDef"@.len() == 8);
    assert("Item"@[0] != "Expr"@[0]);
    assert("Item"@[0] != "Unit"@[0]);
    assert("Item"@[0] != "Decl"@[0]);
    assert("Expr"@[0] != "Unit"@[0]);
    assert("Expr"@[0] != "Decl"@[0]);
    assert("Unit"@[0] != "Decl"@[0]);
    assert("Binding"@[0] != "Variant"@[0]);
}

/// The structural assumptions one node must satisfy: items carry a symbol
/// `ident`, namespaces and parameters name themselves with a symbol first
/// field, references carry a keyword `kind`, and a path reference carries
/// exactly one symbol segment — a multi-segment (qualified) path is rejected
/// outright.
pub open spec fn wf_node(elems: Seq<Sx>) -> bool {
    &&& elems.len() >= 1 && elems[0] is Sym
    &&& head_is(elems, "Item"@) ==> (node_attr(elems, "ident"@) matches Some(a) && a is Sym)
    &&& head_is(elems, "Namespace"@) ==> node_fields(elems).len() >= 1 && node_fields(elems)[0]
        is Sym
    &&& head_is(elems, "Param"@) ==> node_fields(elems).len() >= 1 && node_fields(elems)[0]
        is Sym
    &&& (head_is(elems, "Expr"@) || head_is(elems, "Ty"@)) ==> {
        &&& (node_attr(elems, "kind"@) matches Some(k) && k is Key)
        &&& kind_of(elems) == Some("path"@) ==> {
            &&& node_fields(elems).len() >= 1
            &&& (node_fields(elems)[0] matches Sx::Vect(segs) && segs.len() == 1 && segs[0]
                is Sym)
        }
    }
}

/// Every node of the tree satisfies the structural assumptions.
pub open spec fn wf_tree(x: Sx) -> bool
    decreases x,
{
    match x {
        Sx::List(elems) => wf_node(elems) && wf_seq(elems),
        Sx::Vect(elems) => wf_seq(elems),
        _ => true,
    }
}

/// Every node of every tree in the sequence satisfies the assumptions.
pub open spec fn wf_seq(elems: Seq<Sx>) -> bool
    decreases elems,
{
    if elems.len() == 0 {
        true
    } else {
        wf_tree(elems.first()) && wf_seq(elems.drop_first())
    }
}

/// A well-formed sequence is well formed at every index.
pub proof fn lemma_wf_seq_index(s: Seq<Sx>)
    requires
        wf_seq(s),
    ensures
        forall|i: int| 0 <= i < s.len() ==> wf_tree(#[trigger] s[i]),
    decreases s,
{
    if s.len() > 0 {
        lemma_wf_seq_index(s.drop_first());
        assert forall|i: int| 0 <= i < s.len() implies wf_tree(#[trigger] s[i]) by {
            if i > 0 {
                assert(s[i] == s.drop_first()[i - 1]);
            }
        }
    }
}

/// Counts the list nodes of an arbitrary tree, refusing a tree with more
/// than fit in a node identity.
pub fn try_count_nodes(x: &SExpr) -> (r: Option<u32>)
    ensures
        match r {
            Some(c) => c as int == node_count(x@),
            None => node_count(x@) > u32::MAX,
        },
    decreases x,
{
    proof {
        lemma_node_count_nonneg(x@);
    }
    match x {
        SExpr::List(v) => {
            match try_count_nodes_seq(v) {
                Some(c) => {
                    if c == u32::MAX {
                        None
                    } else {
                        Some(c + 1)
                    }
                },
                None => None,
            }
        },
        SExpr::Vect(v) => try_count_nodes_seq(v),
        _ => Some(0),
    }
}

/// Counts the list nodes of a sequence of arbitrary trees, with the same
/// bound.
fn try_count_nodes_seq(v: &Vec<SExpr>) -> (r: Option<u32>)
    ensures
        match r {
            Some(c) => c as int == node_count_seq(sxs(v@)),
            None => node_count_seq(sxs(v@)) > u32::MAX,
        },
    decreases v,
{
    proof {
        lemma_sxs(v@);
        lemma_node_count_seq_nonneg(sxs(v@));
        assert(sxs(v@).skip(0) =~= sxs(v@));
    }
    let mut acc: u32 = 0;
    let mut i: usize = 0;
    #[verifier::loop_isolation(false)]
    while i < v.len()
        invariant
            0 <= i <= v.len(),
            acc as int + node_count_seq(sxs(v@).skip(i as int)) == node_count_seq(sxs(v@)),
        decreases v.len() - i,
    {
        let ghost pre = sxs(v@).skip(i as int);
        proof {
            assert(pre.first() == sxs(v@)[i as int]);
            assert(pre.first() == v@[i as int]@);
            assert(pre.drop_first() =~= sxs(v@).skip(i + 1 as int));
            lemma_node_count_nonneg(pre.first());
            lemma_node_count_seq_nonneg(pre.drop_first());
        }
        let c = match try_count_nodes(&v[i]) {
            Some(c) => c,
            None => {
                return None;
            },
        };
        let wide = acc as u64 + c as u64;
        if wide > u32::MAX as u64 {
            return None;
        }
        acc = acc + c;
        i = i + 1;
    }
    proof {
        assert(sxs(v@).skip(i as int).len() == 0);
    }
    Some(acc)
}

/// Decides the structural assumptions for one node.
fn check_node(elems: &Vec<SExpr>) -> (r: bool)
    ensures
        r == wf_node(sxs(elems@)),
{
    proof {
        lemma_sxs(elems@);
        lemma_tags_distinct();
    }
    if elems.len() == 0 {
        return false;
    }
    proof {
        assert(sxs(elems@)[0] == elems@[0]@);
    }
    let head_sym = match &elems[0] {
        SExpr::Sym(_) => true,
        _ => false,
    };
    if !head_sym {
        return false;
    }
    if crate::s_expr::sym_is(&elems[0], "Item") {
        match node_get_attr(elems, "ident") {
            Some(SExpr::Sym(_)) => true,
            _ => false,
        }
    } else if crate::s_expr::sym_is(&elems[0], "Namespace") || crate::s_expr::sym_is(
        &elems[0],
        "Param",
    ) {
        match crate::s_expr::node_get_field(elems, 0) {
            Some(SExpr::Sym(_)) => true,
            _ => false,
        }
    } else if crate::s_expr::sym_is(&elems[0], "Expr") || crate::s_expr::sym_is(&elems[0], "Ty") {
        let kind = match node_get_attr(elems, "kind") {
            Some(SExpr::Key(k)) => k.clone(),
            _ => {
                return false;
            },
        };
        if kind == "path".to_owned() {
            match crate::s_expr::node_get_field(elems, 0) {
                Some(SExpr::Vect(segs)) => {
                    proof {
                        lemma_sxs(segs@);
                    }
                    if segs.len() != 1 {
                        return false;
                    }
                    proof {
                        assert(sxs(segs@)[0] == segs@[0]@);
                    }
                    match &segs[0] {
                        SExpr::Sym(_) => true,
                        _ => false,
                    }
                },
                _ => false,
            }
        } else {
            true
        }
    } else {
        true
    }
}

/// Decides the structural assumptions for a whole tree.
pub fn check_wf(ast: &SExpr) -> (r: bool)
    ensures
        r == wf_tree(ast@),
    decreases ast,
{
    match ast {
        SExpr::List(elems) => {
            proof {
                assert(ast@ == Sx::List(sxs(elems@)));
            }
            if !check_node(elems) {
                return false;
            }
            check_wf_seq(elems)
        },
        SExpr::Vect(elems) => {
            proof {
                assert(ast@ == Sx::Vect(sxs(elems@)));
            }
            check_wf_seq(elems)
        },
        _ => true,
    }
}

/// Decides the structural assumptions for a sequence of trees.
fn check_wf_seq(elems: &Vec<SExpr>) -> (r: bool)
    ensures
        r == wf_seq(sxs(elems@)),
    decreases elems,
{
    proof {
        lemma_sxs(elems@);
        assert(sxs(elems@).skip(0) =~= sxs(elems@));
    }
    let mut i: usize = 0;
    #[verifier::loop_isolation(false)]
    while i < elems.len()
        invariant
            0 <= i <= elems.len(),
            wf_seq(sxs(elems@)) == wf_seq(sxs(elems@).skip(i as int)),
        decreases elems.len() - i,
    {
        let ghost pre = sxs(elems@).skip(i as int);
        proof {
            assert(pre.first() == sxs(elems@)[i as int]);
            assert(pre.first() == elems@[i as int]@);
            assert(pre.drop_first() =~= sxs(elems@).skip(i + 1 as int));
        }
        if !check_wf(&elems[i]) {
            return false;
        }
        i = i + 1;
    }
    proof {
        assert(sxs(elems@).skip(i as int).len() == 0);
    }
    true
}

/// A resolve run over a structurally sound tree that reported no error
/// covered every reference node of that tree.
pub proof fn lemma_resolve_covers(x: Sx, id: int, st: ResolveSt)
    requires
        wf_tree(x),
        res_keys_below(st, id),
        resolve_node(x, id, st).errs == st.errs,
    ensures
        paths_resolved(x, id, resolve_node(x, id, st).res),
    decreases x,
{
    match x {
        Sx::List(elems) => {
            let st1 = resolve_enter(elems, id, st);
            let st2 = resolve_seq(elems, id + 1, st1);
            lemma_resolve_seq_grows(elems, id + 1, st1);
            if is_path_node(elems) {
                lemma_tags_distinct();
                if !(crate::resolve::resolve_ref(st, id, path_seg_of(elems), head_is(elems, "Expr"@)).res.contains_key(id)) {
                    assert(st1.errs.len() == st.errs.len() + 1);
                    assert(resolve_node(x, id, st).errs.len() >= st1.errs.len());
                    assert(false);
                }
                assert(st1.res.contains_key(id));
                assert(st2.res.contains_key(id));
                assert(resolve_node(x, id, st).res.contains_key(id));
            } else {
                assert(st1.errs == st.errs);
                assert(st2.errs == st1.errs) by {
                    assert(st2.errs.len() >= st1.errs.len());
                    assert(resolve_node(x, id, st).errs == st2.errs);
                    assert forall|i: int| 0 <= i < st1.errs.len() implies st1.errs[i]
                        == st2.errs[i] by {}
                    assert(st1.errs =~= st2.errs);
                }
                lemma_resolve_seq_covers(elems, id + 1, st1);
                assert(paths_resolved_seq(elems, id + 1, st2.res));
                assert(resolve_node(x, id, st).res == st2.res);
            }
        },
        Sx::Vect(elems) => {
            lemma_resolve_seq_covers(elems, id, st);
        },
        _ => (),
    }
}

/// As `lemma_resolve_covers`, for a sequence of trees.
pub proof fn lemma_resolve_seq_covers(elems: Seq<Sx>, id: int, st: ResolveSt)
    requires
        wf_seq(elems),
        res_keys_below(st, id),
        resolve_seq(elems, id, st).errs == st.errs,
    ensures
        paths_resolved_seq(elems, id, resolve_seq(elems, id, st).res),
    decreases elems,
{
    if elems.len() > 0 {
        let first = elems.first();
        let st1 = resolve_node(first, id, st);
        let id1 = id + node_count(first);
        let st2 = resolve_seq(elems.drop_first(), id1, st1);
        lemma_resolve_node_grows(first, id, st);
        lemma_resolve_seq_grows(elems.drop_first(), id1, st1);
        assert(st1.errs == st.errs) by {
            assert(st1.errs.len() >= st.errs.len());
            assert(st2.errs.len() >= st1.errs.len());
            assert(st2.errs == st.errs);
            assert forall|i: int| 0 <= i < st.errs.len() implies st.errs[i] == st1.errs[i] by {}
            assert forall|i: int| 0 <= i < st1.errs.len() implies st1.errs[i] == st2.errs[i] by {}
            assert(st.errs =~= st1.errs);
        }
        lemma_resolve_covers(first, id, st);
        lemma_resolve_seq_covers(elems.drop_first(), id1, st1);
        lemma_paths_resolved_lift(first, id, st1.res, st2.res);
    }
}

/// The namespace forest and definition table the collect pass builds for a
/// tree, starting from the root namespace and offset 0.
pub open spec fn pipeline_collect(ast: Sx) -> CollectSt {
    collect_node(ast, CollectSt { ns: initial_ns(), next_def: 0 })
}

/// The outcome of the resolve pass over a tree: the resolution map keyed by
/// pre-order node identity, and the reported error lines, in order.
pub open spec fn pipeline_resolve(ast: Sx) -> ResolveSt {
    resolve_node(
        ast,
        0,
        ResolveSt {
            ns: pipeline_collect(ast).ns,
            locals: Map::empty(),
            res: Map::empty(),
            errs: Seq::empty(),
        },
    )
}

/// The outcome of the lowering pass over a tree, consuming the resolution
/// map, with fresh identity counters.
pub open spec fn pipeline_lower(ast: Sx) -> Option<(Sx, LowerSt)> {
    lower_node(
        ast,
        0,
        pipeline_resolve(ast).res,
        LowerSt { hil: HilMapSt { node_to_hil: Map::empty(), next_hil: 0 }, next_def: 0 },
    )
}

/// Lowering preserves shape end to end: whenever the front end produces a
/// HIL tree, that tree has the same tag and field count as the input at
/// every position, except for replaced path payloads and added attributes.
pub proof fn lemma_to_hil_preserves_shape(ast: Sx)
    ensures
        match pipeline_lower(ast) {
            Some(p) => crate::lower::same_shape(ast, p.0),
            None => true,
        },
{
    crate::lower::lemma_lower_preserves_shape(
        ast,
        0,
        pipeline_resolve(ast).res,
        LowerSt { hil: HilMapSt { node_to_hil: Map::empty(), next_hil: 0 }, next_def: 0 },
    );
}

/// Runs the whole front end over one tree: the collect pass, the resolve
/// pass, and — only when resolution reported no error — the lowering.
/// `Err` carries the reported error lines, of which there is then at least
/// one; `Ok` is owed exactly when resolution reports none.
pub fn to_hil(ast: &Ast) -> (r: Result<Hil, Vec<String>>)
    requires
        wf_tree(ast@),
        node_count(ast@) <= u32::MAX,
    ensures
        match r {
            Ok(h) => pipeline_resolve(ast@).errs == Seq::<Seq<char>>::empty() && (
            pipeline_lower(ast@) matches Some(p) && h@ == p.0),
            Err(es) => es.deep_view() == pipeline_resolve(ast@).errs && es.deep_view().len() > 0,
        },
{
    let mut collector = ResolveCollectVisitor::new();
    collector.visit(ast);
    let mut resolver = ResolvePathVisitor::new(collector.collect());
    proof {
        assert(resolver.model() =~= ResolveSt {
            ns: pipeline_collect(ast@).ns,
            locals: Map::empty(),
            res: Map::empty(),
            errs: Seq::empty(),
        });
    }
    resolver.visit(ast);
    proof {
        assert(resolver.model() == pipeline_resolve(ast@));
    }
    let ResolvePathVisitor { ns_ctx: _, locals: _, resolutions, errors } = resolver;
    if errors.len() > 0 {
        return Err(errors);
    }
    proof {
        assert(errors.deep_view() =~= Seq::<Seq<char>>::empty());
        lemma_resolve_covers(
            ast@,
            0,
            ResolveSt {
                ns: pipeline_collect(ast@).ns,
                locals: Map::empty(),
                res: Map::empty(),
                errs: Seq::empty(),
            },
        );
        lemma_lower_succeeds(
            ast@,
            0,
            pipeline_resolve(ast@).res,
            LowerSt { hil: HilMapSt { node_to_hil: Map::empty(), next_hil: 0 }, next_def: 0 },
        );
    }
    let mut ctx = LoweringContext::new(resolutions);
    proof {
        assert(ctx.model_with(0) =~= LowerSt {
            hil: HilMapSt { node_to_hil: Map::empty(), next_hil: 0 },
            next_def: 0,
        });
    }
    match lower_ast(ast, &mut ctx) {
        Some(h) => Ok(h),
        None => unreached(),
    }
}

} // verus!
