use hilc::s_expr::{sexp_match, MatchContext, SExpr};

fn sym(s: &str) -> SExpr {
    SExpr::Sym(s.to_string())
}

fn key(s: &str) -> SExpr {
    SExpr::Key(s.to_string())
}

fn num(n: u64) -> SExpr {
    SExpr::Num(n)
}

fn list(v: Vec<SExpr>) -> SExpr {
    SExpr::List(v)
}

#[test]
fn test_sexp_match() {
    let a = list(vec![num(1), list(vec![num(2), num(3)])]);
    let b = list(vec![num(1), list(vec![num(3), num(3)])]);
    assert!(!sexp_match(&a, &b, &mut MatchContext::new()));

    let a = list(vec![num(1), list(vec![num(2), num(3)])]);
    let b = list(vec![num(1), list(vec![num(2), num(3)])]);
    assert!(sexp_match(&a, &b, &mut MatchContext::new()));

    let a = list(vec![num(1), list(vec![num(2), key("a")])]);
    let b = list(vec![num(1), list(vec![num(2), key("_")])]);
    assert!(sexp_match(&a, &b, &mut MatchContext::new()));

    let a = list(vec![num(1), list(vec![num(2), num(1)])]);
    let b = list(vec![key("_1"), list(vec![num(2), key("_1")])]);
    assert!(sexp_match(&a, &b, &mut MatchContext::new()));

    let a = list(vec![num(1), list(vec![num(2), num(3)])]);
    let b = list(vec![key("_1"), list(vec![num(2), key("_1")])]);
    assert!(!sexp_match(&a, &b, &mut MatchContext::new()));
}

#[test]
fn sexp_match_wildcard_matches_subtrees() {
    let a = list(vec![sym("Item"), list(vec![sym("Variant"), num(7)])]);
    let b = list(vec![sym("Item"), key("_")]);
    assert!(sexp_match(&a, &b, &mut MatchContext::new()));
}

#[test]
fn sexp_match_variable_binds_subtree() {
    let sub = list(vec![sym("Variant"), num(7)]);
    let a = list(vec![sub.duplicate(), sub.duplicate()]);
    let b = list(vec![key("_3"), key("_3")]);
    assert!(sexp_match(&a, &b, &mut MatchContext::new()));

    let other = list(vec![sym("Variant"), num(8)]);
    let a2 = list(vec![sub, other]);
    let b2 = list(vec![key("_3"), key("_3")]);
    assert!(!sexp_match(&a2, &b2, &mut MatchContext::new()));
}

#[test]
fn sexp_match_length_mismatch_fails() {
    let a = list(vec![num(1), num(2)]);
    let b = list(vec![num(1)]);
    assert!(!sexp_match(&a, &b, &mut MatchContext::new()));
    let a = SExpr::Vect(vec![num(1), num(2)]);
    let b = SExpr::Vect(vec![num(1)]);
    assert!(!sexp_match(&a, &b, &mut MatchContext::new()));
}
