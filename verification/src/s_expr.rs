//! The generic tagged-tree representation.
//!
//! A tree value is a symbol, a keyword, a number, a proper list or a vector.
//! A list whose first element is a symbol is a *node*: the symbol is its head
//! tag, and the remaining elements are scanned left to right — a keyword
//! element names an attribute whose value is the next element, and every other
//! element is a positional field.

use vstd::prelude::*;

verus! {

/// Mathematical model of a tree value.
pub enum Sx {
    Sym(Seq<char>),
    Key(Seq<char>),
    Num(u64),
    List(Seq<Sx>),
    Vect(Seq<Sx>),
}

/// A tree value: immutable, uniformly shaped, sharing allowed.
#[derive(Debug)]
pub enum SExpr {
    Sym(String),
    Key(String),
    Num(u64),
    List(Vec<SExpr>),
    Vect(Vec<SExpr>),
}

impl SExpr {
    /// The model of a tree value.
    pub open spec fn model(self) -> Sx
        decreases self,
    {
        match self {
            SExpr::Sym(s) => Sx::Sym(s@),
            SExpr::Key(s) => Sx::Key(s@),
            SExpr::Num(n) => Sx::Num(n),
            SExpr::List(v) => Sx::List(Self::model_seq(v@)),
            SExpr::Vect(v) => Sx::Vect(Self::model_seq(v@)),
        }
    }

    /// The models of a sequence of tree values, element by element.
    pub open spec fn model_seq(s: Seq<SExpr>) -> Seq<Sx>
        decreases s,
    {
        if s.len() == 0 {
            Seq::empty()
        } else {
            seq![s[0].model()] + Self::model_seq(s.drop_first())
        }
    }
}

impl View for SExpr {
    type V = Sx;

    open spec fn view(&self) -> Sx {
        self.model()
    }
}

/// The models of a sequence of tree values.
pub open spec fn sxs(v: Seq<SExpr>) -> Seq<Sx> {
    SExpr::model_seq(v)
}

/// `sxs` is the pointwise model: same length, the model at each index.
pub broadcast proof fn lemma_sxs(v: Seq<SExpr>)
    ensures
        (#[trigger] sxs(v)).len() == v.len(),
        forall|i: int| 0 <= i < v.len() ==> sxs(v)[i] == v[i]@,
    decreases v,
{
    if v.len() > 0 {
        lemma_sxs(v.drop_first());
    }
}

/// The attribute named `name` among the elements `rest` of a node (the head
/// excluded): the element that follows the first occurrence of the keyword.
pub open spec fn attr_lookup(rest: Seq<Sx>, name: Seq<char>) -> Option<Sx>
    decreases rest.len(),
{
    if rest.len() == 0 {
        None
    } else if rest[0] == Sx::Key(name) {
        if rest.len() >= 2 {
            Some(rest[1])
        } else {
            None
        }
    } else {
        attr_lookup(rest.drop_first(), name)
    }
}

/// The positional fields among the elements `rest` of a node (the head
/// excluded): a keyword consumes the element after it, everything else is a
/// field.
pub open spec fn fields_scan(rest: Seq<Sx>) -> Seq<Sx>
    decreases rest.len(),
{
    if rest.len() == 0 {
        Seq::empty()
    } else if rest[0] is Key {
        if rest.len() >= 2 {
            fields_scan(rest.skip(2))
        } else {
            Seq::empty()
        }
    } else {
        seq![rest[0]] + fields_scan(rest.drop_first())
    }
}

/// Every field produced by the scan is one of the scanned elements.
pub proof fn lemma_fields_scan_membership(rest: Seq<Sx>, i: int)
    requires
        0 <= i < fields_scan(rest).len(),
    ensures
        exists|j: int| 0 <= j < rest.len() && rest[j] == fields_scan(rest)[i],
    decreases rest.len(),
{
    if rest[0] is Key {
        if rest.len() >= 2 {
            lemma_fields_scan_membership(rest.skip(2), i);
            let j = choose|j: int|
                0 <= j < rest.skip(2).len() && rest.skip(2)[j] == fields_scan(rest.skip(2))[i];
            assert(rest[j + 2] == fields_scan(rest)[i]);
        }
    } else {
        if i > 0 {
            lemma_fields_scan_membership(rest.drop_first(), i - 1);
            let j = choose|j: int|
                0 <= j < rest.drop_first().len() && rest.drop_first()[j] == fields_scan(
                    rest.drop_first(),
                )[i - 1];
            assert(rest[j + 1] == fields_scan(rest)[i]);
        } else {
            assert(rest[0] == fields_scan(rest)[0]);
        }
    }
}

/// Every field of a node is one of the node's elements.
pub proof fn lemma_node_fields_membership(elems: Seq<Sx>, i: int)
    requires
        0 <= i < node_fields(elems).len(),
    ensures
        exists|j: int| 0 <= j < elems.len() && elems[j] == node_fields(elems)[i],
{
    lemma_fields_scan_membership(elems.skip(1), i);
    let j = choose|j: int|
        0 <= j < elems.skip(1).len() && elems.skip(1)[j] == fields_scan(elems.skip(1))[i];
    assert(elems[j + 1] == node_fields(elems)[i]);
}

/// The attribute `name` of the node whose element list is `elems`.
pub open spec fn node_attr(elems: Seq<Sx>, name: Seq<char>) -> Option<Sx> {
    if elems.len() == 0 {
        None
    } else {
        attr_lookup(elems.skip(1), name)
    }
}

/// The fields of the node whose element list is `elems`.
pub open spec fn node_fields(elems: Seq<Sx>) -> Seq<Sx> {
    if elems.len() == 0 {
        Seq::empty()
    } else {
        fields_scan(elems.skip(1))
    }
}

/// Looks up the attribute `name` among the elements of the node `elems`
/// (element 0 is the head tag).
pub fn node_get_attr<'a>(elems: &'a Vec<SExpr>, name: &str) -> (r: Option<&'a SExpr>)
    ensures
        match r {
            Some(v) => node_attr(sxs(elems@), name@) == Some(v@),
            None => node_attr(sxs(elems@), name@) is None,
        },
{
    proof {
        lemma_sxs(elems@);
    }
    if elems.len() == 0 {
        return None;
    }
    let mut i: usize = 1;
    while i < elems.len()
        invariant
            1 <= i <= elems.len(),
            sxs(elems@).len() == elems@.len(),
            forall|j: int| 0 <= j < elems@.len() ==> sxs(elems@)[j] == elems@[j]@,
            attr_lookup(sxs(elems@).skip(1), name@) == attr_lookup(
                sxs(elems@).skip(i as int),
                name@,
            ),
        decreases elems.len() - i,
    {
        proof {
            assert(sxs(elems@).skip(i as int)[0] == elems@[i as int]@);
        }
        let is_key = match &elems[i] {
            SExpr::Key(k) => *k == name.to_owned(),
            _ => false,
        };
        if is_key {
            if i + 1 < elems.len() {
                proof {
                    assert(sxs(elems@).skip(i as int)[1] == elems@[i + 1 as int]@);
                }
                return Some(&elems[i + 1]);
            } else {
                return None;
            }
        }
        proof {
            assert(sxs(elems@).skip(i as int).drop_first() =~= sxs(elems@).skip(i + 1 as int));
        }
        i = i + 1;
    }
    proof {
        assert(sxs(elems@).skip(i as int).len() == 0);
    }
    None
}

/// The models of a sequence of borrowed tree values.
pub open spec fn sxs_refs(v: Seq<&SExpr>) -> Seq<Sx> {
    Seq::new(v.len(), |i: int| v[i]@)
}

/// Collects the positional fields of the node `elems` (element 0 is the head
/// tag): a keyword element consumes the element after it; every other element
/// is a field.
pub fn node_get_fields<'a>(elems: &'a Vec<SExpr>) -> (r: Vec<&'a SExpr>)
    ensures
        sxs_refs(r@) == node_fields(sxs(elems@)),
{
    proof {
        lemma_sxs(elems@);
    }
    let mut res: Vec<&'a SExpr> = Vec::new();
    if elems.len() == 0 {
        proof {
            assert(sxs_refs(res@) =~= node_fields(sxs(elems@)));
        }
        return res;
    }
    let mut i: usize = 1;
    while i < elems.len()
        invariant
            1 <= i <= elems.len(),
            sxs(elems@).len() == elems@.len(),
            forall|j: int| 0 <= j < elems@.len() ==> sxs(elems@)[j] == elems@[j]@,
            fields_scan(sxs(elems@).skip(1)) =~= sxs_refs(res@) + fields_scan(
                sxs(elems@).skip(i as int),
            ),
        decreases elems.len() - i,
    {
        proof {
            assert(sxs(elems@).skip(i as int)[0] == elems@[i as int]@);
        }
        let ghost pre = sxs(elems@).skip(i as int);
        if let SExpr::Key(_) = &elems[i] {
            i = i + 1;
            if i < elems.len() {
                proof {
                    assert(pre.skip(2) =~= sxs(elems@).skip(i + 1 as int));
                }
                i = i + 1;
            }
        } else {
            proof {
                assert(pre.drop_first() =~= sxs(elems@).skip(i + 1 as int));
                assert(sxs_refs(res@.push(&elems@[i as int])) =~= sxs_refs(res@) + seq![
                    elems@[i as int]@,
                ]);
            }
            res.push(&elems[i]);
            i = i + 1;
        }
    }
    proof {
        assert(sxs(elems@).skip(i as int).len() == 0);
        assert(sxs_refs(res@) =~= node_fields(sxs(elems@)));
    }
    res
}

/// Returns field `i` of the node `elems`, if it has that many fields.
pub fn node_get_field<'a>(elems: &'a Vec<SExpr>, i: usize) -> (r: Option<&'a SExpr>)
    ensures
        match r {
            Some(v) => i < node_fields(sxs(elems@)).len() && v@ == node_fields(sxs(elems@))[i as int],
            None => i >= node_fields(sxs(elems@)).len(),
        },
{
    let fields = node_get_fields(elems);
    if i < fields.len() {
        proof {
            assert(sxs_refs(fields@)[i as int] == fields@[i as int]@);
        }
        Some(fields[i])
    } else {
        None
    }
}

/// The element list of a node after a new attribute is placed directly after
/// the head, before all original attributes and fields.
pub open spec fn add_attr_spec(elems: Seq<Sx>, name: Seq<char>, value: Sx) -> Seq<Sx> {
    seq![elems[0], Sx::Key(name), value] + elems.skip(1)
}

/// Produces a new node equal to `elems` with the attribute `name = value`
/// placed directly after the head.
pub fn node_add_attr(elems: Vec<SExpr>, name: &str, value: SExpr) -> (r: Vec<SExpr>)
    requires
        elems.len() >= 1,
    ensures
        sxs(r@) == add_attr_spec(sxs(elems@), name@, value@),
{
    proof {
        lemma_sxs(elems@);
    }
    let ghost orig = elems@;
    let ghost val = value@;
    let mut r = elems;
    r.insert(1, value);
    let key = SExpr::Key(name.to_owned());
    r.insert(1, key);
    proof {
        lemma_sxs(r@);
        assert(r@ =~= seq![orig[0], r@[1], r@[2]] + orig.skip(1));
        assert(r@[1]@ == Sx::Key(name@) && r@[2]@ == val);
        assert(sxs(r@) =~= add_attr_spec(sxs(orig), name@, val));
    }
    r
}

/// Inserting an attribute leaves the fields of a node unchanged.
pub proof fn lemma_add_attr_fields(elems: Seq<Sx>, name: Seq<char>, value: Sx)
    requires
        elems.len() >= 1,
    ensures
        node_fields(add_attr_spec(elems, name, value)) == node_fields(elems),
{
    let added = add_attr_spec(elems, name, value);
    assert(added.skip(1).skip(2) =~= elems.skip(1));
    assert(fields_scan(added.skip(1)) == fields_scan(elems.skip(1)));
}

/// After inserting an attribute, looking it up yields the new value.
pub proof fn lemma_add_attr_attr(elems: Seq<Sx>, name: Seq<char>, value: Sx)
    requires
        elems.len() >= 1,
    ensures
        node_attr(add_attr_spec(elems, name, value), name) == Some(value),
{
    let added = add_attr_spec(elems, name, value);
    assert(added.skip(1)[0] == Sx::Key(name));
}

/// Tests whether a tree value is the symbol `t`.
pub fn sym_is(e: &SExpr, t: &str) -> (r: bool)
    ensures
        r <==> e@ == Sx::Sym(t@),
{
    match e {
        SExpr::Sym(s) => *s == t.to_owned(),
        _ => false,
    }
}

/// Tests whether a tree value is the keyword `t`.
pub fn key_is(e: &SExpr, t: &str) -> (r: bool)
    ensures
        r <==> e@ == Sx::Key(t@),
{
    match e {
        SExpr::Key(s) => *s == t.to_owned(),
        _ => false,
    }
}

/// Whether a string is one or more decimal digits.
pub open spec fn is_digits(s: Seq<char>) -> bool {
    s.len() > 0 && forall|i: int| 0 <= i < s.len() ==> '0' <= #[trigger] s[i] <= '9'
}

/// The number a string of decimal digits denotes.
pub open spec fn digits_val(s: Seq<char>) -> int
    decreases s.len(),
{
    if s.len() == 0 {
        0
    } else {
        digits_val(s.drop_last()) * 10 + (s.last() as int - '0' as int)
    }
}

/// A string of digits denotes a number, never less than zero.
pub proof fn lemma_digits_val_nonneg(s: Seq<char>)
    requires
        forall|j: int| 0 <= j < s.len() ==> '0' <= #[trigger] s[j] <= '9',
    ensures
        digits_val(s) >= 0,
    decreases s.len(),
{
    if s.len() > 0 {
        lemma_digits_val_nonneg(s.drop_last());
        assert(forall|j: int|
            0 <= j < s.drop_last().len() ==> '0' <= #[trigger] s.drop_last()[j] <= '9');
    }
}

/// A longer digit string denotes at least as large a number.
pub proof fn lemma_digits_val_grows(s: Seq<char>, i: int)
    requires
        0 <= i <= s.len(),
        forall|j: int| 0 <= j < s.len() ==> '0' <= #[trigger] s[j] <= '9',
    ensures
        digits_val(s.take(i)) <= digits_val(s),
    decreases s.len() - i,
{
    if i < s.len() {
        lemma_digits_val_grows(s, i + 1);
        assert(s.take(i + 1).drop_last() =~= s.take(i));
        assert(s.take(i + 1).last() == s[i]);
        assert(forall|j: int|
            0 <= j < s.take(i).len() ==> '0' <= #[trigger] s.take(i)[j] <= '9');
        lemma_digits_val_nonneg(s.take(i));
        assert(digits_val(s.take(i)) <= digits_val(s.take(i + 1)));
    } else {
        assert(s.take(i) =~= s);
    }
}

/// Reads a number of at most 32 bits from a string of decimal digits;
/// anything else, or a value out of range, is refused.
pub fn parse_u32(s: &str) -> (r: Option<u32>)
    ensures
        match r {
            Some(v) => is_digits(s@) && digits_val(s@) == v,
            None => !is_digits(s@) || digits_val(s@) > u32::MAX,
        },
{
    let n = s.unicode_len();
    if n == 0 {
        return None;
    }
    let mut val: u64 = 0;
    let mut i: usize = 0;
    #[verifier::loop_isolation(false)]
    while i < n
        invariant
            0 <= i <= n,
            val == digits_val(s@.take(i as int)),
            val <= u32::MAX,
            forall|j: int| 0 <= j < i ==> '0' <= #[trigger] s@[j] <= '9',
        decreases n - i,
    {
        let c = s.get_char(i);
        if !(c >= '0' && c <= '9') {
            return None;
        }
        let d = (c as u32) - ('0' as u32);
        proof {
            assert(s@.take(i + 1 as int).drop_last() =~= s@.take(i as int));
            assert(s@.take(i + 1 as int).last() == s@[i as int]);
        }
        val = val * 10 + (d as u64);
        if val > u32::MAX as u64 {
            proof {
                if is_digits(s@) {
                    lemma_digits_val_grows(s@, i + 1);
                }
            }
            return None;
        }
        i = i + 1;
    }
    proof {
        assert(s@.take(i as int) =~= s@);
    }
    Some(val as u32)
}

/// The match variables bound so far, keyed by variable number.
pub open spec fn vmap(l: Seq<(u32, SExpr)>) -> Map<u32, Sx>
    decreases l.len(),
{
    if l.len() == 0 {
        Map::empty()
    } else {
        vmap(l.drop_last()).insert(l.last().0, l.last().1@)
    }
}

/// If entry `i` has key `k` and no later entry does, the binding list maps
/// `k` to that entry's value.
pub proof fn lemma_vmap_found(l: Seq<(u32, SExpr)>, k: u32, i: int)
    requires
        0 <= i < l.len(),
        l[i].0 == k,
        forall|j: int| i < j < l.len() ==> l[j].0 != k,
    ensures
        vmap(l).contains_key(k),
        vmap(l)[k] == l[i].1@,
    decreases l.len(),
{
    if i == l.len() - 1 {
    } else {
        lemma_vmap_found(l.drop_last(), k, i);
    }
}

/// If no entry has key `k`, the binding list does not map it.
pub proof fn lemma_vmap_absent(l: Seq<(u32, SExpr)>, k: u32)
    requires
        forall|j: int| 0 <= j < l.len() ==> l[j].0 != k,
    ensures
        !vmap(l).contains_key(k),
    decreases l.len(),
{
    if l.len() > 0 {
        lemma_vmap_absent(l.drop_last(), k);
    }
}

/// The variables bound while matching a tree against a pattern.
pub struct MatchContext {
    pub vars: Vec<(u32, SExpr)>,
}

impl MatchContext {
    /// Model of the bound variables.
    pub open spec fn model(self) -> Map<u32, Sx> {
        vmap(self.vars@)
    }

    /// No variables bound yet.
    pub fn new() -> (r: Self)
        ensures
            r.model() == Map::<u32, Sx>::empty(),
    {
        MatchContext { vars: Vec::new() }
    }
}

/// Whether a keyword is reserved for patterns: it starts with an underscore.
pub open spec fn reserved_key(x: Sx) -> bool {
    x matches Sx::Key(k) && k.len() > 0 && k[0] == '_'
}

/// One step of matching `a` against the pattern `b` with the bindings `vars`:
/// the verdict and the bindings after. A reserved keyword inside `a` at a
/// compared position is refused outright (`None`): such keywords belong to
/// patterns alone. In `b`, the keyword `_` matches anything; a keyword of an
/// underscore followed by decimal digits is a match variable, bound to the
/// first value it faces and equal to it afterwards; everything else matches
/// structurally.
pub open spec fn match_spec(a: Sx, b: Sx, vars: Map<u32, Sx>) -> Option<(bool, Map<u32, Sx>)>
    decreases a, b,
{
    if reserved_key(a) {
        None
    } else {
        match b {
            Sx::Key(k) => {
                if k.len() > 0 && k[0] == '_' {
                    if k.len() == 1 {
                        Some((true, vars))
                    } else if is_digits(k.skip(1)) && digits_val(k.skip(1)) <= u32::MAX {
                        let i = digits_val(k.skip(1)) as u32;
                        if vars.contains_key(i) {
                            Some((vars[i] == a, vars))
                        } else {
                            Some((true, vars.insert(i, a)))
                        }
                    } else {
                        Some((match_structural(a, b), vars))
                    }
                } else {
                    Some((match_structural(a, b), vars))
                }
            },
            Sx::List(ys) => match a {
                Sx::List(xs) => match_spec_list(xs, ys, vars),
                _ => Some((match_structural(a, b), vars)),
            },
            Sx::Vect(ys) => match a {
                Sx::Vect(xs) => {
                    if xs.len() != ys.len() {
                        Some((false, vars))
                    } else {
                        match_spec_list(xs, ys, vars)
                    }
                },
                _ => Some((match_structural(a, b), vars)),
            },
            _ => Some((match_structural(a, b), vars)),
        }
    }
}

/// Leaf comparison between a value and a non-wildcard pattern leaf.
pub open spec fn match_structural(a: Sx, b: Sx) -> bool {
    match (a, b) {
        (Sx::Sym(x), Sx::Sym(y)) => x == y,
        (Sx::Key(x), Sx::Key(y)) => x == y,
        (Sx::Num(x), Sx::Num(y)) => x == y,
        _ => false,
    }
}

/// Matches two sequences pairwise, left to right, threading the bindings and
/// stopping at the first mismatch; sequences of different lengths mismatch
/// where the shorter ends.
pub open spec fn match_spec_list(xs: Seq<Sx>, ys: Seq<Sx>, vars: Map<u32, Sx>) -> Option<
    (bool, Map<u32, Sx>),
>
    decreases xs, ys,
{
    if xs.len() == 0 && ys.len() == 0 {
        Some((true, vars))
    } else if xs.len() == 0 || ys.len() == 0 {
        Some((false, vars))
    } else {
        match match_spec(xs.first(), ys.first(), vars) {
            None => None,
            Some((ok, vars1)) => if !ok {
                Some((false, vars1))
            } else {
                match_spec_list(xs.drop_first(), ys.drop_first(), vars1)
            },
        }
    }
}

/// Whether a tree holds no reserved keyword anywhere: such a tree is safe to
/// match against any pattern.
pub open spec fn no_reserved(x: Sx) -> bool
    decreases x,
{
    match x {
        Sx::List(xs) => no_reserved_seq(xs),
        Sx::Vect(xs) => no_reserved_seq(xs),
        _ => !reserved_key(x),
    }
}

/// As `no_reserved`, for a sequence of trees.
pub open spec fn no_reserved_seq(xs: Seq<Sx>) -> bool
    decreases xs,
{
    if xs.len() == 0 {
        true
    } else {
        no_reserved(xs.first()) && no_reserved_seq(xs.drop_first())
    }
}

/// A tree with no reserved keyword matches against any pattern without the
/// refused outcome.
pub proof fn lemma_no_reserved_matches(a: Sx, b: Sx, vars: Map<u32, Sx>)
    requires
        no_reserved(a),
    ensures
        match_spec(a, b, vars) is Some,
    decreases a, b,
{
    match b {
        Sx::Key(_) => (),
        Sx::List(ys) => {
            match a {
                Sx::List(xs) => lemma_no_reserved_matches_seq(xs, ys, vars),
                _ => (),
            }
        },
        Sx::Vect(ys) => {
            match a {
                Sx::Vect(xs) => {
                    if xs.len() == ys.len() {
                        lemma_no_reserved_matches_seq(xs, ys, vars)
                    }
                },
                _ => (),
            }
        },
        _ => (),
    }
}

/// As `lemma_no_reserved_matches`, for matching sequences pairwise.
pub proof fn lemma_no_reserved_matches_seq(xs: Seq<Sx>, ys: Seq<Sx>, vars: Map<u32, Sx>)
    requires
        no_reserved_seq(xs),
    ensures
        match_spec_list(xs, ys, vars) is Some,
    decreases xs, ys,
{
    if xs.len() > 0 && ys.len() > 0 {
        lemma_no_reserved_matches(xs.first(), ys.first(), vars);
        match match_spec(xs.first(), ys.first(), vars) {
            Some((ok, vars1)) => {
                if ok {
                    lemma_no_reserved_matches_seq(xs.drop_first(), ys.drop_first(), vars1);
                }
            },
            None => (),
        }
    }
}

/// Decides whether a tree holds no reserved keyword.
pub fn check_no_reserved(x: &SExpr) -> (r: bool)
    ensures
        r == no_reserved(x@),
    decreases x,
{
    match x {
        SExpr::Key(k) => {
            let reserved = if k.as_str().unicode_len() > 0 {
                k.as_str().get_char(0) == '_'
            } else {
                false
            };
            !reserved
        },
        SExpr::List(v) => check_no_reserved_seq(v),
        SExpr::Vect(v) => check_no_reserved_seq(v),
        _ => true,
    }
}

/// Decides `no_reserved` for a sequence of trees.
fn check_no_reserved_seq(v: &Vec<SExpr>) -> (r: bool)
    ensures
        r == no_reserved_seq(sxs(v@)),
    decreases v,
{
    proof {
        lemma_sxs(v@);
        assert(sxs(v@).skip(0) =~= sxs(v@));
    }
    let mut i: usize = 0;
    #[verifier::loop_isolation(false)]
    while i < v.len()
        invariant
            0 <= i <= v.len(),
            no_reserved_seq(sxs(v@)) == no_reserved_seq(sxs(v@).skip(i as int)),
        decreases v.len() - i,
    {
        let ghost pre = sxs(v@).skip(i as int);
        proof {
            assert(pre.first() == sxs(v@)[i as int]);
            assert(pre.first() == v@[i as int]@);
            assert(pre.drop_first() =~= sxs(v@).skip(i + 1 as int));
        }
        if !check_no_reserved(&v[i]) {
            return false;
        }
        i = i + 1;
    }
    proof {
        assert(sxs(v@).skip(i as int).len() == 0);
    }
    true
}

/// Matches the tree `a` against the pattern `b`, binding and checking match
/// variables in `ctx`.
pub fn sexp_match(a: &SExpr, b: &SExpr, ctx: &mut MatchContext) -> (r: bool)
    requires
        match_spec(a@, b@, old(ctx).model()) is Some,
    ensures
        match_spec(a@, b@, old(ctx).model()) == Some((r, final(ctx).model())),
    decreases a, b,
{
    let a_reserved = match a {
        SExpr::Key(k) => {
            if k.as_str().unicode_len() > 0 {
                k.as_str().get_char(0) == '_'
            } else {
                false
            }
        },
        _ => false,
    };
    if a_reserved {
        proof {
            assert(reserved_key(a@));
            assert(false);
        }
    }
    proof {
        assert(!reserved_key(a@));
    }
    if let SExpr::Key(k) = b {
        let ks = k.as_str();
        let klen = ks.unicode_len();
        if klen > 0 && ks.get_char(0) == '_' {
            if klen == 1 {
                return true;
            }
            let digits = ks.substring_char(1, klen);
            proof {
                assert(digits@ =~= k@.skip(1));
            }
            match parse_u32(digits) {
                Some(i) => {
                    let found = {
                        let mut j: usize = ctx.vars.len();
                        let mut f: Option<usize> = None;
                        while j > 0 && f.is_none()
                            invariant
                                0 <= j <= ctx.vars@.len(),
                                match f {
                                    Some(fi) => 0 <= fi < ctx.vars@.len() && ctx.vars@[fi as int].0
                                        == i && vmap(ctx.vars@).contains_key(i) && vmap(
                                        ctx.vars@,
                                    )[i] == ctx.vars@[fi as int].1@,
                                    None => forall|q: int|
                                        j <= q < ctx.vars@.len() ==> ctx.vars@[q].0 != i,
                                },
                            decreases j,
                        {
                            j = j - 1;
                            if ctx.vars[j].0 == i {
                                proof {
                                    lemma_vmap_found(ctx.vars@, i, j as int);
                                }
                                f = Some(j);
                            }
                        }
                        proof {
                            if f is None {
                                lemma_vmap_absent(ctx.vars@, i);
                            }
                        }
                        f
                    };
                    match found {
                        Some(fi) => {
                            let r = ctx.vars[fi].1.tree_eq(a);
                            return r;
                        },
                        None => {
                            let ghost pre = ctx.vars@;
                            ctx.vars.push((i, a.duplicate()));
                            proof {
                                assert(ctx.vars@.drop_last() =~= pre);
                            }
                            return true;
                        },
                    }
                },
                None => {
                    let r = match a {
                        SExpr::Key(x) => *x == *k,
                        _ => false,
                    };
                    return r;
                },
            }
        }
    }
    match (a, b) {
        (SExpr::Sym(x), SExpr::Sym(y)) => *x == *y,
        (SExpr::Key(x), SExpr::Key(y)) => *x == *y,
        (SExpr::Num(x), SExpr::Num(y)) => *x == *y,
        (SExpr::List(xs), SExpr::List(ys)) => {
            proof {
                assert(a@ == Sx::List(sxs(xs@)));
                assert(b@ == Sx::List(sxs(ys@)));
            }
            match_seq(xs, ys, ctx)
        },
        (SExpr::Vect(xs), SExpr::Vect(ys)) => {
            proof {
                assert(a@ == Sx::Vect(sxs(xs@)));
                assert(b@ == Sx::Vect(sxs(ys@)));
                lemma_sxs(xs@);
                lemma_sxs(ys@);
            }
            if xs.len() != ys.len() {
                false
            } else {
                match_seq(xs, ys, ctx)
            }
        },
        _ => false,
    }
}

/// Matches two element vectors pairwise.
fn match_seq(xs: &Vec<SExpr>, ys: &Vec<SExpr>, ctx: &mut MatchContext) -> (r: bool)
    requires
        match_spec_list(sxs(xs@), sxs(ys@), old(ctx).model()) is Some,
    ensures
        match_spec_list(sxs(xs@), sxs(ys@), old(ctx).model()) == Some((r, final(ctx).model())),
    decreases xs, ys,
{
    proof {
        lemma_sxs(xs@);
        lemma_sxs(ys@);
        assert(sxs(xs@).skip(0) =~= sxs(xs@));
        assert(sxs(ys@).skip(0) =~= sxs(ys@));
    }
    let mut i: usize = 0;
    #[verifier::loop_isolation(false)]
    while i < xs.len() && i < ys.len()
        invariant
            0 <= i <= xs.len(),
            0 <= i <= ys.len(),
            match_spec_list(sxs(xs@), sxs(ys@), old(ctx).model()) == match_spec_list(
                sxs(xs@).skip(i as int),
                sxs(ys@).skip(i as int),
                ctx.model(),
            ),
        decreases xs.len() - i,
    {
        let ghost prex = sxs(xs@).skip(i as int);
        let ghost prey = sxs(ys@).skip(i as int);
        proof {
            assert(prex.first() == sxs(xs@)[i as int] && prex.first() == xs@[i as int]@);
            assert(prey.first() == sxs(ys@)[i as int] && prey.first() == ys@[i as int]@);
            assert(prex.drop_first() =~= sxs(xs@).skip(i + 1 as int));
            assert(prey.drop_first() =~= sxs(ys@).skip(i + 1 as int));
        }
        if !sexp_match(&xs[i], &ys[i], ctx) {
            return false;
        }
        i = i + 1;
    }
    proof {
        assert(sxs(xs@).skip(i as int).len() == 0 || sxs(ys@).skip(i as int).len() == 0);
    }
    xs.len() == ys.len()
}

impl SExpr {
    /// Structural equality of two tree values.
    pub fn tree_eq(&self, other: &SExpr) -> (r: bool)
        ensures
            r <==> self@ == other@,
        decreases self,
    {
        match (self, other) {
            (SExpr::Sym(x), SExpr::Sym(y)) => *x == *y,
            (SExpr::Key(x), SExpr::Key(y)) => *x == *y,
            (SExpr::Num(x), SExpr::Num(y)) => *x == *y,
            (SExpr::List(x), SExpr::List(y)) => Self::trees_eq(x, y),
            (SExpr::Vect(x), SExpr::Vect(y)) => Self::trees_eq(x, y),
            _ => false,
        }
    }

    /// Pointwise structural equality of two sequences of tree values.
    fn trees_eq(a: &Vec<SExpr>, b: &Vec<SExpr>) -> (r: bool)
        ensures
            r <==> sxs(a@) == sxs(b@),
        decreases a,
    {
        proof {
            lemma_sxs(a@);
            lemma_sxs(b@);
        }
        if a.len() != b.len() {
            proof {
                assert(sxs(a@).len() != sxs(b@).len());
            }
            return false;
        }
        let mut i: usize = 0;
        while i < a.len()
            invariant
                0 <= i <= a.len(),
                a@.len() == b@.len(),
                sxs(a@).len() == a@.len(),
                sxs(b@).len() == b@.len(),
                forall|j: int| 0 <= j < a@.len() ==> sxs(a@)[j] == a@[j]@,
                forall|j: int| 0 <= j < b@.len() ==> sxs(b@)[j] == b@[j]@,
                forall|j: int| 0 <= j < i ==> a@[j]@ == b@[j]@,
            decreases a.len() - i,
        {
            if !a[i].tree_eq(&b[i]) {
                proof {
                    assert(sxs(a@)[i as int] != sxs(b@)[i as int]);
                }
                return false;
            }
            i = i + 1;
        }
        proof {
            assert(sxs(a@) =~= sxs(b@));
        }
        true
    }

    /// A deep copy with the same model.
    pub fn duplicate(&self) -> (r: SExpr)
        ensures
            r@ == self@,
        decreases self,
    {
        match self {
            SExpr::Sym(s) => SExpr::Sym(s.clone()),
            SExpr::Key(s) => SExpr::Key(s.clone()),
            SExpr::Num(n) => SExpr::Num(*n),
            SExpr::List(v) => SExpr::List(Self::duplicate_seq(v)),
            SExpr::Vect(v) => SExpr::Vect(Self::duplicate_seq(v)),
        }
    }

    /// A deep copy of a sequence of tree values.
    fn duplicate_seq(v: &Vec<SExpr>) -> (r: Vec<SExpr>)
        ensures
            sxs(r@) == sxs(v@),
        decreases v,
    {
        proof {
            lemma_sxs(v@);
        }
        let mut r: Vec<SExpr> = Vec::new();
        let mut i: usize = 0;
        while i < v.len()
            invariant
                0 <= i <= v.len(),
                r@.len() == i,
                sxs(v@).len() == v@.len(),
                forall|j: int| 0 <= j < v@.len() ==> sxs(v@)[j] == v@[j]@,
                forall|j: int| 0 <= j < i ==> r@[j]@ == v@[j]@,
            decreases v.len() - i,
        {
            r.push(v[i].duplicate());
            i = i + 1;
        }
        proof {
            lemma_sxs(r@);
            assert(sxs(r@) =~= sxs(v@));
        }
        r
    }
}

} // verus!
