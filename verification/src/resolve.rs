//! Namespace construction and two-pass name resolution.
//!
//! The collect pass walks the tree once, building the namespace tree and the
//! definition table. The resolve pass walks it again with the identical
//! namespace entry/exit rules, resolving every path reference against the
//! local-binding table first and the namespace chain second, and reporting an
//! error for every reference that matches neither.

use vstd::prelude::*;
use vstd::pervasive::unreached;

use crate::ast::{
    head_is, ident_of, kind_of, lemma_node_count_nonneg, lemma_node_count_seq_nonneg, node_count,
    node_count_seq, ns_name_of, param_name_of, path_seg_of, wf_node, wf_seq, wf_tree,
};
use crate::def::{DefId, DefLocalId, UnitNum, LOCAL_UNIT};
use crate::error::{undefined_line, Error};
use crate::s_expr::{
    node_attr, sxs, lemma_sxs, node_get_attr, node_get_field, sym_is, key_is, SExpr, Sx,
};

verus! {

/// The outcome of resolving one reference: a namespace-registered definition,
/// or a local binding introduced earlier in the same traversal.
#[derive(Clone, Copy, PartialEq, Eq, Structural, Debug)]
pub enum Resolution<Id> {
    Def(DefId),
    Local(Id),
}

/// The map an association list denotes; a later entry overrides an earlier
/// one with the same key.
pub open spec fn smap<V>(l: Seq<(String, V)>) -> Map<Seq<char>, V>
    decreases l.len(),
{
    if l.len() == 0 {
        Map::empty()
    } else {
        smap(l.drop_last()).insert(l.last().0@, l.last().1)
    }
}

/// If entry `i` has key `k` and no later entry does, the association list maps
/// `k` to that entry's value.
pub proof fn lemma_smap_found<V>(l: Seq<(String, V)>, k: Seq<char>, i: int)
    requires
        0 <= i < l.len(),
        l[i].0@ == k,
        forall|j: int| i < j < l.len() ==> l[j].0@ != k,
    ensures
        smap(l).contains_key(k),
        smap(l)[k] == l[i].1,
    decreases l.len(),
{
    if i == l.len() - 1 {
    } else {
        lemma_smap_found(l.drop_last(), k, i);
    }
}

/// If no entry has key `k`, the association list does not map it.
pub proof fn lemma_smap_absent<V>(l: Seq<(String, V)>, k: Seq<char>)
    requires
        forall|j: int| 0 <= j < l.len() ==> l[j].0@ != k,
    ensures
        !smap(l).contains_key(k),
    decreases l.len(),
{
    if l.len() > 0 {
        lemma_smap_absent(l.drop_last(), k);
    }
}

/// Looks a key up in an association list, scanning from the most recent entry.
pub fn assoc_get<'a, V>(l: &'a Vec<(String, V)>, k: &str) -> (r: Option<&'a V>)
    ensures
        match r {
            Some(v) => smap(l@).contains_key(k@) && smap(l@)[k@] == *v,
            None => !smap(l@).contains_key(k@),
        },
{
    let mut i: usize = l.len();
    while i > 0
        invariant
            0 <= i <= l.len(),
            forall|j: int| i <= j < l@.len() ==> l@[j].0@ != k@,
        decreases i,
    {
        i = i - 1;
        if l[i].0 == k.to_owned() {
            proof {
                lemma_smap_found(l@, k@, i as int);
            }
            return Some(&l[i].1);
        }
    }
    proof {
        lemma_smap_absent(l@, k@);
    }
    None
}

/// Appends a binding, which overrides any earlier entry with the same key.
pub fn assoc_set<V>(l: &mut Vec<(String, V)>, k: String, v: V)
    ensures
        smap(final(l)@) == smap(old(l)@).insert(k@, v),
        final(l)@.len() == old(l)@.len() + 1,
{
    let ghost k0 = k@;
    l.push((k, v));
    proof {
        assert(l@.drop_last() =~= old(l)@);
    }
}

/// The identity of one namespace: its index in the order of creation.
#[derive(Clone, Copy, PartialEq, Eq, Structural, Debug)]
pub struct NamespaceId {
    pub idx: usize,
}

impl NamespaceId {
    pub fn new(private: usize) -> (r: Self)
        ensures
            r.idx == private,
    {
        NamespaceId { idx: private }
    }
}

/// Model of one scope level.
#[verifier::ext_equal]
pub struct NamespaceModel {
    pub parent: int,
    pub children: Map<Seq<char>, int>,
    pub defs: Map<Seq<char>, DefId>,
}

/// Model of the namespace forest: every namespace ever created, in creation
/// order, and the one currently open.
#[verifier::ext_equal]
pub struct NsCtxModel {
    pub spaces: Seq<NamespaceModel>,
    pub current: int,
}

impl NsCtxModel {
    /// Well-formed namespace forest: the root is its own sentinel parent,
    /// every other namespace was created after its parent, and every recorded
    /// child points back at the namespace that recorded it.
    pub open spec fn wf(self) -> bool {
        &&& self.spaces.len() >= 1
        &&& 0 <= self.current < self.spaces.len()
        &&& self.spaces[0].parent == 0
        &&& forall|i: int|
            1 <= i < self.spaces.len() ==> 0 <= #[trigger] self.spaces[i].parent < i
        &&& forall|i: int, n: Seq<char>|
            0 <= i < self.spaces.len() && #[trigger] self.spaces[i].children.contains_key(n)
                ==> i < self.spaces[i].children[n] < self.spaces.len()
                    && self.spaces[self.spaces[i].children[n]].parent == i
    }

    /// Entering the child namespace named `name` of the current namespace,
    /// creating and recording it first if there is none yet.
    pub open spec fn enter(self, name: Seq<char>) -> NsCtxModel {
        if self.spaces[self.current].children.contains_key(name) {
            NsCtxModel { spaces: self.spaces, current: self.spaces[self.current].children[name] }
        } else {
            let fresh = NamespaceModel {
                parent: self.current,
                children: Map::empty(),
                defs: Map::empty(),
            };
            let recorded = NamespaceModel {
                parent: self.spaces[self.current].parent,
                children: self.spaces[self.current].children.insert(
                    name,
                    self.spaces.len() as int,
                ),
                defs: self.spaces[self.current].defs,
            };
            NsCtxModel {
                spaces: self.spaces.update(self.current, recorded).push(fresh),
                current: self.spaces.len() as int,
            }
        }
    }

    /// Leaving the current namespace for its parent.
    pub open spec fn exit(self) -> NsCtxModel {
        NsCtxModel { spaces: self.spaces, current: self.spaces[self.current].parent }
    }

    /// Registering a definition in the current namespace; an identically named
    /// earlier definition in the same scope is overwritten.
    pub open spec fn define(self, name: Seq<char>, d: DefId) -> NsCtxModel {
        let cur = self.spaces[self.current];
        NsCtxModel {
            spaces: self.spaces.update(
                self.current,
                NamespaceModel {
                    parent: cur.parent,
                    children: cur.children,
                    defs: cur.defs.insert(name, d),
                },
            ),
            current: self.current,
        }
    }

    /// The innermost definition of `name` visible from namespace `i`, walking
    /// the parent chain to the root.
    pub open spec fn lookup_from(spaces: Seq<NamespaceModel>, i: int, name: Seq<char>) -> Option<
        DefId,
    >
        decreases i,
    {
        if i < 0 || i >= spaces.len() {
            None
        } else if spaces[i].defs.contains_key(name) {
            Some(spaces[i].defs[name])
        } else if 0 <= spaces[i].parent < i {
            Self::lookup_from(spaces, spaces[i].parent, name)
        } else {
            None
        }
    }
}

/// Entering a namespace preserves well-formedness, opens a namespace whose
/// parent is the one that was current, and touches no parent link of any
/// existing namespace.
pub proof fn lemma_enter_wf(m: NsCtxModel, name: Seq<char>)
    requires
        m.wf(),
    ensures
        m.enter(name).wf(),
        m.enter(name).spaces[m.enter(name).current].parent == m.current,
        m.enter(name).spaces.len() >= m.spaces.len(),
        forall|i: int|
            0 <= i < m.spaces.len() ==> #[trigger] m.enter(name).spaces[i].parent
                == m.spaces[i].parent,
{
    let e = m.enter(name);
    if m.spaces[m.current].children.contains_key(name) {
    } else {
        assert forall|i: int, n: Seq<char>|
            0 <= i < e.spaces.len() && #[trigger] e.spaces[i].children.contains_key(n)
            implies i < e.spaces[i].children[n] < e.spaces.len()
                && e.spaces[e.spaces[i].children[n]].parent == i by {
            if i == m.current {
                if n == name {
                } else {
                    assert(m.spaces[i].children.contains_key(n));
                }
            } else if i < m.spaces.len() {
                assert(m.spaces[i].children.contains_key(n));
            } else {
            }
        }
    }
}

/// Leaving a namespace preserves well-formedness and changes no namespace.
pub proof fn lemma_exit_wf(m: NsCtxModel)
    requires
        m.wf(),
    ensures
        m.exit().wf(),
        m.exit().spaces == m.spaces,
{
}

/// Defining in the current namespace preserves well-formedness.
pub proof fn lemma_define_wf(m: NsCtxModel, name: Seq<char>, d: DefId)
    requires
        m.wf(),
    ensures
        m.define(name, d).wf(),
{
    let e = m.define(name, d);
    assert forall|i: int, n: Seq<char>|
        0 <= i < e.spaces.len() && #[trigger] e.spaces[i].children.contains_key(n)
        implies i < e.spaces[i].children[n] < e.spaces.len()
            && e.spaces[e.spaces[i].children[n]].parent == i by {
        assert(m.spaces[i].children.contains_key(n));
        assert(m.spaces[i].children[n] == e.spaces[i].children[n]);
    }
}

/// One scope level.
pub struct Namespace {
    pub parent: NamespaceId,
    pub children: Vec<(String, NamespaceId)>,
    pub defs: Vec<(String, DefId)>,
}

impl Namespace {
    /// Model of the scope level.
    pub open spec fn model(self) -> NamespaceModel {
        NamespaceModel {
            parent: self.parent.idx as int,
            children: Map::new(
                |n: Seq<char>| smap(self.children@).contains_key(n),
                |n: Seq<char>| smap(self.children@)[n].idx as int,
            ),
            defs: smap(self.defs@),
        }
    }

    /// A fresh scope level under `parent`.
    pub fn new(parent: NamespaceId) -> (r: Self)
        ensures
            r.model().parent == parent.idx,
            r.model().children == Map::<Seq<char>, int>::empty(),
            r.model().defs == Map::<Seq<char>, DefId>::empty(),
    {
        let r = Namespace { parent, children: Vec::new(), defs: Vec::new() };
        proof {
            assert(r.model().children =~= Map::<Seq<char>, int>::empty());
        }
        r
    }

    /// Registers `ident` in this scope, overwriting an identically named
    /// earlier definition.
    pub fn def(&mut self, ident: String, def_id: DefId)
        ensures
            final(self).model().parent == old(self).model().parent,
            final(self).model().children == old(self).model().children,
            final(self).model().defs == old(self).model().defs.insert(ident@, def_id),
    {
        let ghost pre = *self;
        assoc_set(&mut self.defs, ident, def_id);
        proof {
            assert(self.model().children =~= pre.model().children);
        }
    }

    /// The definition of `ident` in this one scope, if any.
    pub fn lookup(&self, ident: &str) -> (r: Option<DefId>)
        ensures
            match r {
                Some(d) => self.model().defs.contains_key(ident@) && self.model().defs[ident@]
                    == d,
                None => !self.model().defs.contains_key(ident@),
            },
    {
        match assoc_get(&self.defs, ident) {
            Some(d) => Some(*d),
            None => None,
        }
    }
}

/// The namespace forest at the start of a run: only the root, which is its
/// own sentinel parent and is current.
pub open spec fn initial_ns() -> NsCtxModel {
    NsCtxModel {
        spaces: seq![
            NamespaceModel {
                parent: 0,
                children: Map::<Seq<char>, int>::empty(),
                defs: Map::<Seq<char>, DefId>::empty(),
            },
        ],
        current: 0,
    }
}

/// The namespace forest built by the collect pass and replayed by the resolve
/// pass.
pub struct NamespaceContext {
    pub namespaces: Vec<Namespace>,
    pub current_ns: NamespaceId,
}

impl NamespaceContext {
    /// Model of the namespace forest.
    pub open spec fn model(self) -> NsCtxModel {
        NsCtxModel {
            spaces: Seq::new(self.namespaces@.len(), |i: int| self.namespaces@[i].model()),
            current: self.current_ns.idx as int,
        }
    }

    /// A forest holding only the root namespace, which is current.
    pub fn new() -> (r: Self)
        ensures
            r.model() == initial_ns(),
            r.model().wf(),
    {
        let root = Namespace::new(NamespaceId::new(0));
        let mut namespaces: Vec<Namespace> = Vec::new();
        namespaces.push(root);
        let r = NamespaceContext { namespaces, current_ns: NamespaceId::new(0) };
        proof {
            assert(r.model().spaces[0] =~= initial_ns().spaces[0]);
            assert(r.model().spaces =~= initial_ns().spaces);
            assert(r.model() =~= initial_ns());
        }
        r
    }

    /// Enters the child namespace of the current one named `name`, creating it
    /// first if there is none, and makes it current.
    pub fn enter_namespace(&mut self, name: String)
        requires
            old(self).model().wf(),
        ensures
            final(self).model() == old(self).model().enter(name@),
            final(self).model().wf(),
    {
        let ghost pre = self.model();
        let cur = self.current_ns.idx;
        let found = match assoc_get(&self.namespaces[cur].children, name.as_str()) {
            Some(child) => Some(*child),
            None => None,
        };
        match found {
            Some(child) => {
                self.current_ns = child;
                proof {
                    assert(self.model() =~= pre.enter(name@));
                    lemma_enter_wf(pre, name@);
                }
            },
            None => {
                let fresh_id = NamespaceId::new(self.namespaces.len());
                let fresh = Namespace::new(self.current_ns);
                self.namespaces.push(fresh);
                let cur2 = self.current_ns.idx;
                assoc_set(&mut self.namespaces[cur2].children, name, fresh_id);
                self.current_ns = fresh_id;
                proof {
                    let post = self.model();
                    let target = pre.enter(name@);
                    assert forall|i: int| 0 <= i < post.spaces.len() implies post.spaces[i]
                        =~= target.spaces[i] by {
                        if i == pre.current {
                            assert(post.spaces[i].children =~= target.spaces[i].children);
                        }
                    }
                    assert(post.spaces =~= target.spaces);
                    assert(post =~= target);
                    lemma_enter_wf(pre, name@);
                }
            },
        }
    }

    /// Leaves the current namespace for its parent; one exit undoes one entry.
    pub fn exit_namespace(&mut self)
        requires
            old(self).model().wf(),
        ensures
            final(self).model() == old(self).model().exit(),
            final(self).model().wf(),
    {
        let ghost pre = self.model();
        let cur = self.current_ns.idx;
        self.current_ns = self.namespaces[cur].parent;
        proof {
            assert(self.model() =~= pre.exit());
            lemma_exit_wf(pre);
        }
    }

    /// Registers `ident` in the current namespace.
    pub fn define(&mut self, ident: String, def_id: DefId)
        requires
            old(self).model().wf(),
        ensures
            final(self).model() == old(self).model().define(ident@, def_id),
            final(self).model().wf(),
    {
        let ghost pre = self.model();
        let cur = self.current_ns.idx;
        self.namespaces[cur].def(ident, def_id);
        proof {
            let post = self.model();
            let target = pre.define(ident@, def_id);
            assert forall|i: int| 0 <= i < post.spaces.len() implies post.spaces[i]
                =~= target.spaces[i] by {}
            assert(post.spaces =~= target.spaces);
            assert(post =~= target);
            lemma_define_wf(pre, ident@, def_id);
        }
    }

    /// The innermost visible definition of `ident`: the current namespace
    /// first, then its ancestors up to the root.
    pub fn lookup(&self, ident: &str) -> (r: Option<DefId>)
        requires
            self.model().wf(),
        ensures
            r == NsCtxModel::lookup_from(self.model().spaces, self.model().current, ident@),
    {
        let ghost spaces = self.model().spaces;
        let mut i = self.current_ns.idx;
        loop
            invariant
                self.model().wf(),
                spaces == self.model().spaces,
                0 <= i < self.namespaces.len(),
                NsCtxModel::lookup_from(spaces, self.model().current, ident@)
                    == NsCtxModel::lookup_from(spaces, i as int, ident@),
            decreases i,
        {
            match self.namespaces[i].lookup(ident) {
                Some(d) => {
                    return Some(d);
                },
                None => (),
            }
            if i == 0 {
                return None;
            }
            i = self.namespaces[i].parent.idx;
        }
    }
}

/// Model of the collect pass state: the namespace forest under construction
/// and the definition-offset counter, which advances once per `Item`, in
/// document order.
#[verifier::ext_equal]
pub struct CollectSt {
    pub ns: NsCtxModel,
    pub next_def: int,
}

/// The effect of reaching one node in the collect pass: an `Item` registers
/// its identifier under the next offset, a `Namespace` is entered.
pub open spec fn collect_enter(elems: Seq<Sx>, st: CollectSt) -> CollectSt {
    if head_is(elems, "Item"@) {
        CollectSt {
            ns: st.ns.define(
                ident_of(elems),
                DefId { unit: UnitNum(LOCAL_UNIT), offset: DefLocalId(st.next_def as u32) },
            ),
            next_def: st.next_def + 1,
        }
    } else if head_is(elems, "Namespace"@) {
        CollectSt { ns: st.ns.enter(ns_name_of(elems)), next_def: st.next_def }
    } else {
        st
    }
}

/// The effect of leaving one node in the collect pass: a `Namespace` is
/// exited.
pub open spec fn collect_exit(elems: Seq<Sx>, st: CollectSt) -> CollectSt {
    if head_is(elems, "Namespace"@) {
        CollectSt { ns: st.ns.exit(), next_def: st.next_def }
    } else {
        st
    }
}

/// The collect pass over one tree: entry hook, all elements in order, exit
/// hook.
pub open spec fn collect_node(x: Sx, st: CollectSt) -> CollectSt
    decreases x,
{
    match x {
        Sx::List(elems) => collect_exit(elems, collect_seq(elems, collect_enter(elems, st))),
        Sx::Vect(elems) => collect_seq(elems, st),
        _ => st,
    }
}

/// The collect pass over a sequence of trees, left to right.
pub open spec fn collect_seq(elems: Seq<Sx>, st: CollectSt) -> CollectSt
    decreases elems,
{
    if elems.len() == 0 {
        st
    } else {
        collect_seq(elems.drop_first(), collect_node(elems.first(), st))
    }
}

/// The collect pass keeps the namespace forest well formed and advances the
/// offset counter at most once per node.
pub proof fn lemma_collect_node_props(x: Sx, st: CollectSt)
    requires
        st.ns.wf(),
    ensures
        collect_node(x, st).ns.wf(),
        st.next_def <= collect_node(x, st).next_def <= st.next_def + node_count(x),
    decreases x,
{
    match x {
        Sx::List(elems) => {
            let st1 = collect_enter(elems, st);
            if head_is(elems, "Item"@) {
                lemma_define_wf(
                    st.ns,
                    ident_of(elems),
                    DefId { unit: UnitNum(LOCAL_UNIT), offset: DefLocalId(st.next_def as u32) },
                );
            } else if head_is(elems, "Namespace"@) {
                lemma_enter_wf(st.ns, ns_name_of(elems));
            }
            lemma_collect_seq_props(elems, st1);
            let st2 = collect_seq(elems, st1);
            if head_is(elems, "Namespace"@) {
                lemma_exit_wf(st2.ns);
            }
        },
        Sx::Vect(elems) => {
            lemma_collect_seq_props(elems, st);
        },
        _ => (),
    }
}

/// As `lemma_collect_node_props`, for a sequence of trees.
pub proof fn lemma_collect_seq_props(elems: Seq<Sx>, st: CollectSt)
    requires
        st.ns.wf(),
    ensures
        collect_seq(elems, st).ns.wf(),
        st.next_def <= collect_seq(elems, st).next_def <= st.next_def + node_count_seq(elems),
    decreases elems,
{
    if elems.len() > 0 {
        lemma_collect_node_props(elems.first(), st);
        lemma_collect_seq_props(elems.drop_first(), collect_node(elems.first(), st));
        lemma_node_count_nonneg(elems.first());
        lemma_node_count_seq_nonneg(elems.drop_first());
    }
}

/// The collect pass: builds the complete namespace forest and definition
/// table in one forward traversal, independent of reference resolution.
pub struct ResolveCollectVisitor {
    pub ns_ctx: NamespaceContext,
    pub def_local_id: DefLocalId,
}

impl ResolveCollectVisitor {
    /// Model of the pass state.
    pub open spec fn model(self) -> CollectSt {
        CollectSt { ns: self.ns_ctx.model(), next_def: self.def_local_id.0 as int }
    }

    /// A fresh collect pass: only the root namespace, offsets from 0.
    pub fn new() -> (r: Self)
        ensures
            r.model() == (CollectSt { ns: initial_ns(), next_def: 0 }),
            r.model().ns.wf(),
    {
        let r = ResolveCollectVisitor {
            ns_ctx: NamespaceContext::new(),
            def_local_id: DefLocalId::new(),
        };
        proof {
            assert(r.model() =~= CollectSt { ns: initial_ns(), next_def: 0 });
        }
        r
    }

    /// Assigns the item the next definition offset and registers its
    /// identifier in the current namespace.
    fn visit_item(&mut self, node: &Vec<SExpr>)
        requires
            head_is(sxs(node@), "Item"@),
            wf_node(sxs(node@)),
            old(self).model().ns.wf(),
            old(self).model().next_def < u32::MAX,
        ensures
            final(self).model() == collect_enter(sxs(node@), old(self).model()),
            final(self).model().ns.wf(),
    {
        let ident = match node_get_attr(node, "ident") {
            Some(v) => v,
            None => unreached(),
        };
        let name = match ident {
            SExpr::Sym(s) => s.clone(),
            _ => unreached(),
        };
        let id = self.def_local_id;
        self.def_local_id = id.next();
        let did = id.to_def_id();
        self.ns_ctx.define(name, did);
        proof {
            lemma_define_wf(old(self).model().ns, ident_of(sxs(node@)), did);
            assert(self.model() =~= collect_enter(sxs(node@), old(self).model()));
        }
    }

    /// Enters (creating if absent) the child namespace named by the node's
    /// first field.
    fn visit_pre_namespace(&mut self, node: &Vec<SExpr>)
        requires
            head_is(sxs(node@), "Namespace"@),
            wf_node(sxs(node@)),
            old(self).model().ns.wf(),
        ensures
            final(self).model() == collect_enter(sxs(node@), old(self).model()),
            final(self).model().ns.wf(),
    {
        let name = match node_get_field(node, 0) {
            Some(SExpr::Sym(s)) => s.clone(),
            _ => unreached(),
        };
        self.ns_ctx.enter_namespace(name);
        proof {
            crate::ast::lemma_tags_distinct();
            assert(self.model() =~= collect_enter(sxs(node@), old(self).model()));
        }
    }

    /// Exits to the parent namespace.
    fn visit_post_namespace(&mut self, node: &Vec<SExpr>)
        requires
            head_is(sxs(node@), "Namespace"@),
            old(self).model().ns.wf(),
        ensures
            final(self).model() == collect_exit(sxs(node@), old(self).model()),
            final(self).model().ns.wf(),
    {
        self.ns_ctx.exit_namespace();
        proof {
            assert(self.model() =~= collect_exit(sxs(node@), old(self).model()));
        }
    }

    /// Walks the whole tree, dispatching the hooks by head tag; recursion
    /// into children is unconditional and not a hook's responsibility.
    pub fn visit(&mut self, ast: &SExpr)
        requires
            wf_tree(ast@),
            old(self).model().ns.wf(),
            old(self).model().next_def + node_count(ast@) <= u32::MAX,
        ensures
            final(self).model() == collect_node(ast@, old(self).model()),
            final(self).model().ns.wf(),
        decreases ast,
    {
        match ast {
            SExpr::List(elems) => {
                proof {
                    lemma_sxs(elems@);
                    lemma_node_count_seq_nonneg(sxs(elems@));
                    crate::ast::lemma_tags_distinct();
                }
                let is_item = elems.len() > 0 && sym_is(&elems[0], "Item");
                let is_ns = elems.len() > 0 && sym_is(&elems[0], "Namespace");
                if is_item {
                    self.visit_item(elems);
                } else if is_ns {
                    self.visit_pre_namespace(elems);
                }
                proof {
                    assert(self.model() =~= collect_enter(sxs(elems@), old(self).model()));
                }
                self.visit_seq(elems);
                if is_ns {
                    self.visit_post_namespace(elems);
                }
                proof {
                    assert(self.model() =~= collect_node(ast@, old(self).model()));
                }
            },
            SExpr::Vect(elems) => {
                self.visit_seq(elems);
            },
            _ => (),
        }
    }

    /// Walks a sequence of trees left to right.
    fn visit_seq(&mut self, elems: &Vec<SExpr>)
        requires
            wf_seq(sxs(elems@)),
            old(self).model().ns.wf(),
            old(self).model().next_def + node_count_seq(sxs(elems@)) <= u32::MAX,
        ensures
            final(self).model() == collect_seq(sxs(elems@), old(self).model()),
            final(self).model().ns.wf(),
        decreases elems,
    {
        proof {
            lemma_sxs(elems@);
            crate::ast::lemma_wf_seq_index(sxs(elems@));
            assert(sxs(elems@).skip(0) =~= sxs(elems@));
        }
        let mut i: usize = 0;
        while i < elems.len()
            invariant
                0 <= i <= elems.len(),
                sxs(elems@).len() == elems@.len(),
                forall|j: int| 0 <= j < elems@.len() ==> sxs(elems@)[j] == elems@[j]@,
                forall|j: int| 0 <= j < elems@.len() ==> wf_tree(#[trigger] sxs(elems@)[j]),
                self.model().ns.wf(),
                collect_seq(sxs(elems@).skip(i as int), self.model()) == collect_seq(
                    sxs(elems@),
                    old(self).model(),
                ),
                self.model().next_def + node_count_seq(sxs(elems@).skip(i as int)) <= u32::MAX,
            decreases elems.len() - i,
        {
            let ghost pre = sxs(elems@).skip(i as int);
            let ghost st_before = self.model();
            proof {
                assert(pre.first() == sxs(elems@)[i as int]);
                assert(pre.drop_first() =~= sxs(elems@).skip(i + 1 as int));
                lemma_node_count_nonneg(pre.first());
                lemma_node_count_seq_nonneg(pre.drop_first());
            }
            self.visit(&elems[i]);
            proof {
                lemma_collect_node_props(sxs(elems@)[i as int], st_before);
            }
            i = i + 1;
        }
        proof {
            assert(sxs(elems@).skip(i as int).len() == 0);
        }
    }

    /// Hands the finished namespace forest over to the resolve pass.
    pub fn collect(self) -> (r: NamespaceContext)
        ensures
            r.model() == self.model().ns,
    {
        self.ns_ctx
    }
}

/// The map a resolution list denotes, keyed by node identity.
pub open spec fn rmap(l: Seq<(u32, Resolution<u32>)>) -> Map<int, Resolution<u32>>
    decreases l.len(),
{
    if l.len() == 0 {
        Map::empty()
    } else {
        rmap(l.drop_last()).insert(l.last().0 as int, l.last().1)
    }
}

/// Records the resolution of the node with identity `k`.
pub fn record_resolution(l: &mut Vec<(u32, Resolution<u32>)>, k: u32, v: Resolution<u32>)
    ensures
        rmap(final(l)@) == rmap(old(l)@).insert(k as int, v),
{
    l.push((k, v));
    proof {
        assert(l@.drop_last() =~= old(l)@);
    }
}

/// If entry `i` has key `k` and no later entry does, the resolution list maps
/// `k` to that entry's value.
pub proof fn lemma_rmap_found(l: Seq<(u32, Resolution<u32>)>, k: u32, i: int)
    requires
        0 <= i < l.len(),
        l[i].0 == k,
        forall|j: int| i < j < l.len() ==> l[j].0 != k,
    ensures
        rmap(l).contains_key(k as int),
        rmap(l)[k as int] == l[i].1,
    decreases l.len(),
{
    if i == l.len() - 1 {
    } else {
        lemma_rmap_found(l.drop_last(), k, i);
    }
}

/// If no entry has key `k`, the resolution list does not map it.
pub proof fn lemma_rmap_absent(l: Seq<(u32, Resolution<u32>)>, k: u32)
    requires
        forall|j: int| 0 <= j < l.len() ==> l[j].0 != k,
    ensures
        !rmap(l).contains_key(k as int),
    decreases l.len(),
{
    if l.len() > 0 {
        lemma_rmap_absent(l.drop_last(), k);
    }
}

/// Looks up the recorded resolution of the node with identity `k`.
pub fn find_resolution(l: &Vec<(u32, Resolution<u32>)>, k: u32) -> (r: Option<Resolution<u32>>)
    ensures
        match r {
            Some(v) => rmap(l@).contains_key(k as int) && rmap(l@)[k as int] == v,
            None => !rmap(l@).contains_key(k as int),
        },
{
    let mut i: usize = l.len();
    while i > 0
        invariant
            0 <= i <= l.len(),
            forall|j: int| i <= j < l@.len() ==> l@[j].0 != k,
        decreases i,
    {
        i = i - 1;
        if l[i].0 == k {
            proof {
                lemma_rmap_found(l@, k, i as int);
            }
            return Some(l[i].1);
        }
    }
    proof {
        lemma_rmap_absent(l@, k);
    }
    None
}

/// Model of the resolve pass state: the replayed namespace forest, the
/// local-binding table, the resolution map keyed by node identity, and the
/// error sink.
#[verifier::ext_equal]
pub struct ResolveSt {
    pub ns: NsCtxModel,
    pub locals: Map<Seq<char>, u32>,
    pub res: Map<int, Resolution<u32>>,
    pub errs: Seq<Seq<char>>,
}

/// The resolution policy for one reference named `nm` at node identity `id`:
/// a local binding if one is recorded (and the reference admits locals), else
/// the innermost namespace definition, else one reported error and no
/// resolution entry.
pub open spec fn resolve_ref(st: ResolveSt, id: int, nm: Seq<char>, allow_locals: bool) -> ResolveSt {
    if allow_locals && st.locals.contains_key(nm) {
        ResolveSt {
            ns: st.ns,
            locals: st.locals,
            res: st.res.insert(id, Resolution::Local(st.locals[nm])),
            errs: st.errs,
        }
    } else {
        match NsCtxModel::lookup_from(st.ns.spaces, st.ns.current, nm) {
            Some(d) => ResolveSt {
                ns: st.ns,
                locals: st.locals,
                res: st.res.insert(id, Resolution::Def(d)),
                errs: st.errs,
            },
            None => ResolveSt {
                ns: st.ns,
                locals: st.locals,
                res: st.res,
                errs: st.errs.push(undefined_line(nm)),
            },
        }
    }
}

/// The effect of reaching one node in the resolve pass: a parameter records a
/// local binding under its node identity, a path expression or type resolves,
/// a namespace is re-entered.
pub open spec fn resolve_enter(elems: Seq<Sx>, id: int, st: ResolveSt) -> ResolveSt {
    if head_is(elems, "Item"@) {
        st
    } else if head_is(elems, "Expr"@) {
        if kind_of(elems) == Some("path"@) {
            resolve_ref(st, id, path_seg_of(elems), true)
        } else {
            st
        }
    } else if head_is(elems, "Ty"@) {
        if kind_of(elems) == Some("path"@) {
            resolve_ref(st, id, path_seg_of(elems), false)
        } else {
            st
        }
    } else if head_is(elems, "Param"@) {
        ResolveSt {
            ns: st.ns,
            locals: st.locals.insert(param_name_of(elems), id as u32),
            res: st.res,
            errs: st.errs,
        }
    } else if head_is(elems, "Namespace"@) {
        ResolveSt { ns: st.ns.enter(ns_name_of(elems)), locals: st.locals, res: st.res, errs: st.errs }
    } else {
        st
    }
}

/// The effect of leaving one node in the resolve pass.
pub open spec fn resolve_exit(elems: Seq<Sx>, st: ResolveSt) -> ResolveSt {
    if head_is(elems, "Namespace"@) {
        ResolveSt { ns: st.ns.exit(), locals: st.locals, res: st.res, errs: st.errs }
    } else {
        st
    }
}

/// The resolve pass over one tree rooted at node identity `id`: entry hook,
/// all elements in order with consecutive identities, exit hook.
pub open spec fn resolve_node(x: Sx, id: int, st: ResolveSt) -> ResolveSt
    decreases x,
{
    match x {
        Sx::List(elems) => resolve_exit(
            elems,
            resolve_seq(elems, id + 1, resolve_enter(elems, id, st)),
        ),
        Sx::Vect(elems) => resolve_seq(elems, id, st),
        _ => st,
    }
}

/// The resolve pass over a sequence of trees, each shifted past the node
/// identities its predecessors consumed.
pub open spec fn resolve_seq(elems: Seq<Sx>, id: int, st: ResolveSt) -> ResolveSt
    decreases elems,
{
    if elems.len() == 0 {
        st
    } else {
        resolve_seq(
            elems.drop_first(),
            id + node_count(elems.first()),
            resolve_node(elems.first(), id, st),
        )
    }
}

/// The resolve pass keeps the namespace forest well formed.
pub proof fn lemma_resolve_node_props(x: Sx, id: int, st: ResolveSt)
    requires
        st.ns.wf(),
    ensures
        resolve_node(x, id, st).ns.wf(),
    decreases x,
{
    match x {
        Sx::List(elems) => {
            let st1 = resolve_enter(elems, id, st);
            assert(st1.ns.wf()) by {
                if head_is(elems, "Namespace"@) && !head_is(elems, "Item"@) && !head_is(
                    elems,
                    "Expr"@,
                ) && !head_is(elems, "Ty"@) && !head_is(elems, "Param"@) {
                    lemma_enter_wf(st.ns, ns_name_of(elems));
                }
            }
            lemma_resolve_seq_props(elems, id + 1, st1);
            let st2 = resolve_seq(elems, id + 1, st1);
            if head_is(elems, "Namespace"@) {
                lemma_exit_wf(st2.ns);
            }
        },
        Sx::Vect(elems) => {
            lemma_resolve_seq_props(elems, id, st);
        },
        _ => (),
    }
}

/// As `lemma_resolve_node_props`, for a sequence of trees.
pub proof fn lemma_resolve_seq_props(elems: Seq<Sx>, id: int, st: ResolveSt)
    requires
        st.ns.wf(),
    ensures
        resolve_seq(elems, id, st).ns.wf(),
    decreases elems,
{
    if elems.len() > 0 {
        lemma_resolve_node_props(elems.first(), id, st);
        lemma_resolve_seq_props(
            elems.drop_first(),
            id + node_count(elems.first()),
            resolve_node(elems.first(), id, st),
        );
    }
}

/// The resolve pass: replays the namespace entry/exit rules of the collect
/// pass over the finished forest, records local bindings from parameters, and
/// resolves every path reference.
///
/// Local bindings accumulate for the whole traversal; they are deliberately
/// not scoped out at function boundaries, so a parameter stays visible to
/// everything after it in document order.
pub struct ResolvePathVisitor {
    pub ns_ctx: NamespaceContext,
    pub locals: Vec<(String, u32)>,
    pub resolutions: Vec<(u32, Resolution<u32>)>,
    pub errors: Vec<String>,
}

impl ResolvePathVisitor {
    /// Model of the pass state.
    pub open spec fn model(self) -> ResolveSt {
        ResolveSt {
            ns: self.ns_ctx.model(),
            locals: smap(self.locals@),
            res: rmap(self.resolutions@),
            errs: self.errors.deep_view(),
        }
    }

    /// A fresh resolve pass over the namespace forest the collect pass built.
    pub fn new(ns_ctx: NamespaceContext) -> (r: Self)
        ensures
            r.model().ns == ns_ctx.model(),
            r.model().locals == Map::<Seq<char>, u32>::empty(),
            r.model().res == Map::<int, Resolution<u32>>::empty(),
            r.model().errs == Seq::<Seq<char>>::empty(),
    {
        let r = ResolvePathVisitor {
            ns_ctx,
            locals: Vec::new(),
            resolutions: Vec::new(),
            errors: Vec::new(),
        };
        proof {
            assert(r.model().errs =~= Seq::<Seq<char>>::empty());
        }
        r
    }

    /// Records the local binding the parameter introduces, under the node's
    /// identity.
    fn visit_param(&mut self, node: &Vec<SExpr>, id: u32)
        requires
            head_is(sxs(node@), "Param"@),
            wf_node(sxs(node@)),
            old(self).model().ns.wf(),
        ensures
            final(self).model() == resolve_enter(sxs(node@), id as int, old(self).model()),
            final(self).model().ns.wf(),
    {
        let name = match node_get_field(node, 0) {
            Some(SExpr::Sym(s)) => s.clone(),
            _ => unreached(),
        };
        assoc_set(&mut self.locals, name, id);
        proof {
            crate::ast::lemma_tags_distinct();
            assert(self.model() =~= resolve_enter(sxs(node@), id as int, old(self).model()));
        }
    }

    /// Resolves a path expression: the local-binding table first, then the
    /// namespace chain; an identifier matching neither is reported.
    fn visit_expr(&mut self, node: &Vec<SExpr>, id: u32)
        requires
            head_is(sxs(node@), "Expr"@),
            wf_node(sxs(node@)),
            old(self).model().ns.wf(),
        ensures
            final(self).model() == resolve_enter(sxs(node@), id as int, old(self).model()),
            final(self).model().ns.wf(),
    {
        proof {
            crate::ast::lemma_tags_distinct();
        }
        let kind = match node_get_attr(node, "kind") {
            Some(v) => v,
            None => unreached(),
        };
        if !key_is(kind, "path") {
            proof {
                assert(self.model() =~= resolve_enter(sxs(node@), id as int, old(self).model()));
            }
            return;
        }
        let ident = self.path_ident(node);
        match assoc_get(&self.locals, ident.as_str()) {
            Some(nid) => {
                let nid = *nid;
                record_resolution(&mut self.resolutions, id, Resolution::Local(nid));
                proof {
                    assert(self.model() =~= resolve_enter(
                        sxs(node@),
                        id as int,
                        old(self).model(),
                    ));
                }
            },
            None => {
                match self.ns_ctx.lookup(ident.as_str()) {
                    Some(d) => {
                        record_resolution(&mut self.resolutions, id, Resolution::Def(d));
                    },
                    None => {
                        crate::error::report_error(
                            &mut self.errors,
                            Error::UndefinedName(ident),
                        );
                    },
                }
                proof {
                    assert(self.model() =~= resolve_enter(
                        sxs(node@),
                        id as int,
                        old(self).model(),
                    ));
                }
            },
        }
    }

    /// Resolves a path type against the namespace chain alone: types have no
    /// local bindings.
    fn visit_type(&mut self, node: &Vec<SExpr>, id: u32)
        requires
            head_is(sxs(node@), "Ty"@),
            wf_node(sxs(node@)),
            old(self).model().ns.wf(),
        ensures
            final(self).model() == resolve_enter(sxs(node@), id as int, old(self).model()),
            final(self).model().ns.wf(),
    {
        proof {
            crate::ast::lemma_tags_distinct();
        }
        let kind = match node_get_attr(node, "kind") {
            Some(v) => v,
            None => unreached(),
        };
        if !key_is(kind, "path") {
            proof {
                assert(self.model() =~= resolve_enter(sxs(node@), id as int, old(self).model()));
            }
            return;
        }
        let ident = self.path_ident(node);
        match self.ns_ctx.lookup(ident.as_str()) {
            Some(d) => {
                record_resolution(&mut self.resolutions, id, Resolution::Def(d));
            },
            None => {
                crate::error::report_error(&mut self.errors, Error::UndefinedName(ident));
            },
        }
        proof {
            assert(self.model() =~= resolve_enter(sxs(node@), id as int, old(self).model()));
        }
    }

    /// The single segment of a path reference node; a multi-segment path is
    /// ruled out by the structural assumptions.
    fn path_ident(&self, node: &Vec<SExpr>) -> (r: String)
        requires
            (head_is(sxs(node@), "Expr"@) || head_is(sxs(node@), "Ty"@)),
            wf_node(sxs(node@)),
            kind_of(sxs(node@)) == Some("path"@),
        ensures
            r@ == path_seg_of(sxs(node@)),
    {
        let segs_v = match node_get_field(node, 0) {
            Some(v) => v,
            None => unreached(),
        };
        let segs = match segs_v {
            SExpr::Vect(v) => v,
            _ => unreached(),
        };
        proof {
            lemma_sxs(segs@);
        }
        if segs.len() == 0 {
            proof {
                assert(false);
            }
        }
        match &segs[0] {
            SExpr::Sym(s) => s.clone(),
            _ => unreached(),
        }
    }

    /// Re-enters the child namespace named by the node's first field.
    fn visit_pre_namespace(&mut self, node: &Vec<SExpr>, id: u32)
        requires
            head_is(sxs(node@), "Namespace"@),
            wf_node(sxs(node@)),
            old(self).model().ns.wf(),
        ensures
            final(self).model() == resolve_enter(sxs(node@), id as int, old(self).model()),
            final(self).model().ns.wf(),
    {
        let name = match node_get_field(node, 0) {
            Some(SExpr::Sym(s)) => s.clone(),
            _ => unreached(),
        };
        self.ns_ctx.enter_namespace(name);
        proof {
            crate::ast::lemma_tags_distinct();
            assert(self.model() =~= resolve_enter(sxs(node@), id as int, old(self).model()));
        }
    }

    /// Exits to the parent namespace.
    fn visit_post_namespace(&mut self, node: &Vec<SExpr>)
        requires
            head_is(sxs(node@), "Namespace"@),
            old(self).model().ns.wf(),
        ensures
            final(self).model() == resolve_exit(sxs(node@), old(self).model()),
            final(self).model().ns.wf(),
    {
        self.ns_ctx.exit_namespace();
        proof {
            assert(self.model() =~= resolve_exit(sxs(node@), old(self).model()));
        }
    }

    /// Walks the whole tree once, assigning node identities in pre-order from
    /// 0 and dispatching the hooks by head tag.
    pub fn visit(&mut self, ast: &SExpr)
        requires
            wf_tree(ast@),
            old(self).model().ns.wf(),
            node_count(ast@) <= u32::MAX,
        ensures
            final(self).model() == resolve_node(ast@, 0, old(self).model()),
            final(self).model().ns.wf(),
    {
        proof {
            lemma_node_count_nonneg(ast@);
        }
        self.walk(ast, 0);
    }

    /// Walks one tree whose root has node identity `k`.
    fn walk(&mut self, ast: &SExpr, k: u32) -> (k2: u32)
        requires
            wf_tree(ast@),
            old(self).model().ns.wf(),
            k as int + node_count(ast@) <= u32::MAX as int,
        ensures
            k2 as int == k as int + node_count(ast@),
            final(self).model() == resolve_node(ast@, k as int, old(self).model()),
            final(self).model().ns.wf(),
        decreases ast,
    {
        match ast {
            SExpr::List(elems) => {
                proof {
                    lemma_sxs(elems@);
                    lemma_node_count_seq_nonneg(sxs(elems@));
                    crate::ast::lemma_tags_distinct();
                }
                let is_ns = elems.len() > 0 && sym_is(&elems[0], "Namespace");
                if elems.len() > 0 && sym_is(&elems[0], "Item") {
                } else if elems.len() > 0 && sym_is(&elems[0], "Expr") {
                    self.visit_expr(elems, k);
                } else if elems.len() > 0 && sym_is(&elems[0], "Ty") {
                    self.visit_type(elems, k);
                } else if elems.len() > 0 && sym_is(&elems[0], "Param") {
                    self.visit_param(elems, k);
                } else if is_ns {
                    self.visit_pre_namespace(elems, k);
                }
                proof {
                    assert(self.model() =~= resolve_enter(
                        sxs(elems@),
                        k as int,
                        old(self).model(),
                    ));
                }
                let k2 = self.walk_seq(elems, k + 1);
                if is_ns {
                    self.visit_post_namespace(elems);
                }
                proof {
                    assert(self.model() =~= resolve_node(ast@, k as int, old(self).model()));
                }
                k2
            },
            SExpr::Vect(elems) => self.walk_seq(elems, k),
            _ => k,
        }
    }

    /// Walks a sequence of trees left to right, the first rooted at node
    /// identity `k`, each next one shifted past its predecessor's nodes.
    fn walk_seq(&mut self, elems: &Vec<SExpr>, k: u32) -> (k2: u32)
        requires
            wf_seq(sxs(elems@)),
            old(self).model().ns.wf(),
            k as int + node_count_seq(sxs(elems@)) <= u32::MAX as int,
        ensures
            k2 as int == k as int + node_count_seq(sxs(elems@)),
            final(self).model() == resolve_seq(sxs(elems@), k as int, old(self).model()),
            final(self).model().ns.wf(),
        decreases elems,
    {
        proof {
            lemma_sxs(elems@);
            crate::ast::lemma_wf_seq_index(sxs(elems@));
            assert(sxs(elems@).skip(0) =~= sxs(elems@));
        }
        let mut i: usize = 0;
        let mut cur: u32 = k;
        while i < elems.len()
            invariant
                0 <= i <= elems.len(),
                sxs(elems@).len() == elems@.len(),
                forall|j: int| 0 <= j < elems@.len() ==> sxs(elems@)[j] == elems@[j]@,
                forall|j: int| 0 <= j < elems@.len() ==> wf_tree(#[trigger] sxs(elems@)[j]),
                self.model().ns.wf(),
                cur as int + node_count_seq(sxs(elems@).skip(i as int)) == k as int
                    + node_count_seq(sxs(elems@)),
                cur as int + node_count_seq(sxs(elems@).skip(i as int)) <= u32::MAX as int,
                resolve_seq(sxs(elems@).skip(i as int), cur as int, self.model()) == resolve_seq(
                    sxs(elems@),
                    k as int,
                    old(self).model(),
                ),
            decreases elems.len() - i,
        {
            let ghost pre = sxs(elems@).skip(i as int);
            proof {
                assert(pre.first() == sxs(elems@)[i as int]);
                assert(pre.drop_first() =~= sxs(elems@).skip(i + 1 as int));
                lemma_node_count_nonneg(pre.first());
                lemma_node_count_seq_nonneg(pre.drop_first());
            }
            cur = self.walk(&elems[i], cur);
            i = i + 1;
        }
        proof {
            assert(sxs(elems@).skip(i as int).len() == 0);
        }
        cur
    }

    /// Hands the finished resolution map over to the lowering pass.
    pub fn resolve(self) -> (r: Vec<(u32, Resolution<u32>)>)
        ensures
            rmap(r@) == self.model().res,
    {
        self.resolutions
    }
}

/// Whether `b` has every resolution of `a`, unchanged, and every error of
/// `a`, in order, at the front.
pub open spec fn res_extends(a: ResolveSt, b: ResolveSt) -> bool {
    &&& forall|k: int|
        #[trigger] a.res.contains_key(k) ==> b.res.contains_key(k) && b.res[k] == a.res[k]
    &&& a.errs.len() <= b.errs.len()
    &&& forall|i: int| 0 <= i < a.errs.len() ==> #[trigger] a.errs[i] == b.errs[i]
}

/// Whether every recorded resolution keys a node identity below `n`.
pub open spec fn res_keys_below(st: ResolveSt, n: int) -> bool {
    forall|k: int| #[trigger] st.res.contains_key(k) ==> k < n
}

/// `res_extends` is transitive.
pub proof fn lemma_res_extends_trans(a: ResolveSt, b: ResolveSt, c: ResolveSt)
    requires
        res_extends(a, b),
        res_extends(b, c),
    ensures
        res_extends(a, c),
{
    assert forall|k: int| a.res.contains_key(k) implies c.res.contains_key(k) && c.res[k]
        == a.res[k] by {
        assert(b.res.contains_key(k) && b.res[k] == a.res[k]);
    }
    assert forall|i: int| 0 <= i < a.errs.len() implies a.errs[i] == c.errs[i] by {
        assert(a.errs[i] == b.errs[i]);
    }
}

/// One resolve step only adds resolutions, for node identities within the
/// subtree it walks, and only appends errors.
pub proof fn lemma_resolve_node_grows(x: Sx, id: int, st: ResolveSt)
    requires
        res_keys_below(st, id),
    ensures
        res_extends(st, resolve_node(x, id, st)),
        res_keys_below(resolve_node(x, id, st), id + node_count(x)),
    decreases x,
{
    lemma_node_count_nonneg(x);
    match x {
        Sx::List(elems) => {
            let st1 = resolve_enter(elems, id, st);
            lemma_node_count_seq_nonneg(elems);
            assert(res_extends(st, st1) && res_keys_below(st1, id + 1));
            lemma_resolve_seq_grows(elems, id + 1, st1);
            let st2 = resolve_seq(elems, id + 1, st1);
            lemma_res_extends_trans(st, st1, st2);
        },
        Sx::Vect(elems) => {
            lemma_resolve_seq_grows(elems, id, st);
        },
        _ => (),
    }
}

/// As `lemma_resolve_node_grows`, for a sequence of trees.
pub proof fn lemma_resolve_seq_grows(elems: Seq<Sx>, id: int, st: ResolveSt)
    requires
        res_keys_below(st, id),
    ensures
        res_extends(st, resolve_seq(elems, id, st)),
        res_keys_below(resolve_seq(elems, id, st), id + node_count_seq(elems)),
    decreases elems,
{
    lemma_node_count_seq_nonneg(elems);
    if elems.len() > 0 {
        lemma_resolve_node_grows(elems.first(), id, st);
        let st1 = resolve_node(elems.first(), id, st);
        lemma_node_count_nonneg(elems.first());
        lemma_node_count_seq_nonneg(elems.drop_first());
        lemma_resolve_seq_grows(elems.drop_first(), id + node_count(elems.first()), st1);
        let st2 = resolve_seq(elems.drop_first(), id + node_count(elems.first()), st1);
        lemma_res_extends_trans(st, st1, st2);
    }
}

/// Local bindings shadow namespace definitions unconditionally: a reference
/// whose identifier has a recorded local binding resolves to that binding,
/// whatever the namespace chain holds.
pub proof fn lemma_shadowing(st: ResolveSt, id: int, nm: Seq<char>)
    requires
        st.locals.contains_key(nm),
    ensures
        resolve_ref(st, id, nm, true).res == st.res.insert(
            id,
            Resolution::Local(st.locals[nm]),
        ),
        resolve_ref(st, id, nm, true).errs == st.errs,
{
}

/// A reference whose identifier has no local binding and no namespace entry
/// produces exactly one reported error and no resolution entry for that node.
pub proof fn lemma_undefined_reference(st: ResolveSt, id: int, nm: Seq<char>, allow_locals: bool)
    requires
        !st.locals.contains_key(nm),
        NsCtxModel::lookup_from(st.ns.spaces, st.ns.current, nm) is None,
    ensures
        resolve_ref(st, id, nm, allow_locals).res == st.res,
        !st.res.contains_key(id) ==> !resolve_ref(st, id, nm, allow_locals).res.contains_key(id),
        resolve_ref(st, id, nm, allow_locals).errs == st.errs.push(undefined_line(nm)),
{
}

/// Entering namespace `A` then `B` and exiting twice returns the current
/// namespace to where it started.
pub proof fn lemma_scope_nesting(m: NsCtxModel, a: Seq<char>, b: Seq<char>)
    requires
        m.wf(),
    ensures
        m.enter(a).enter(b).exit().exit().current == m.current,
{
    let m1 = m.enter(a);
    lemma_enter_wf(m, a);
    let m2 = m1.enter(b);
    lemma_enter_wf(m1, b);
    assert(m2.exit().current == m1.current);
    assert(m2.spaces[m1.current].parent == m1.spaces[m1.current].parent);
    assert(m1.spaces[m1.current].parent == m.current);
}

/// A name defined only inside a nested namespace is not visible from the
/// root: the root's lookup consults nothing but the root's own definitions.
pub proof fn lemma_root_sees_only_root(m: NsCtxModel, nm: Seq<char>)
    requires
        m.wf(),
        !m.spaces[0].defs.contains_key(nm),
    ensures
        NsCtxModel::lookup_from(m.spaces, 0, nm) is None,
{
}

} // verus!
