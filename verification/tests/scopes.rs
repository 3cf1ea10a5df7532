use hilc::ast::{check_wf, try_count_nodes};
use hilc::error::Error;
use hilc::resolve::NamespaceContext;
use hilc::s_expr::{check_no_reserved, parse_u32, SExpr};

#[test]
fn entering_twice_and_exiting_twice_returns_to_the_root() {
    let mut ctx = NamespaceContext::new();
    assert_eq!(ctx.current_ns.idx, 0);
    ctx.enter_namespace("A".to_string());
    ctx.enter_namespace("B".to_string());
    assert_ne!(ctx.current_ns.idx, 0);
    ctx.exit_namespace();
    ctx.exit_namespace();
    assert_eq!(ctx.current_ns.idx, 0);
}

#[test]
fn reentering_a_namespace_reuses_the_same_child() {
    let mut ctx = NamespaceContext::new();
    ctx.enter_namespace("A".to_string());
    let first = ctx.current_ns.idx;
    ctx.exit_namespace();
    ctx.enter_namespace("A".to_string());
    assert_eq!(ctx.current_ns.idx, first);
}

#[test]
fn name_defined_in_nested_namespace_is_not_visible_from_root() {
    let mut ctx = NamespaceContext::new();
    ctx.enter_namespace("A".to_string());
    ctx.enter_namespace("B".to_string());
    let mut inner = hilc::resolve::Namespace::new(hilc::resolve::NamespaceId::new(0));
    // Register a definition in the current (innermost) namespace.
    let def = hilc::def::DefLocalId::new().to_def_id();
    ctx.define("hidden".to_string(), def);
    assert!(ctx.lookup("hidden").is_some());
    ctx.exit_namespace();
    ctx.exit_namespace();
    assert!(ctx.lookup("hidden").is_none());
    // A namespace value on its own also starts empty.
    assert!(inner.lookup("hidden").is_none());
    inner.def("seen".to_string(), def);
    assert!(inner.lookup("seen").is_some());
}

#[test]
fn inner_definition_shadows_outer_one() {
    let mut ctx = NamespaceContext::new();
    let zero = hilc::def::DefLocalId::new();
    let one = zero.next();
    ctx.define("x".to_string(), zero.to_def_id());
    ctx.enter_namespace("A".to_string());
    ctx.define("x".to_string(), one.to_def_id());
    assert_eq!(ctx.lookup("x").unwrap().offset.0, 1);
    ctx.exit_namespace();
    assert_eq!(ctx.lookup("x").unwrap().offset.0, 0);
}

#[test]
fn error_renders_with_its_code() {
    let e = Error::UndefinedName("missing".to_string());
    assert_eq!(e.render(), "E0001 Undefined name: missing");
}

#[test]
fn decimal_parse_accepts_digits_and_rejects_the_rest() {
    assert_eq!(parse_u32("0"), Some(0));
    assert_eq!(parse_u32("41"), Some(41));
    assert_eq!(parse_u32("4294967295"), Some(u32::MAX));
    assert_eq!(parse_u32("4294967296"), None);
    assert_eq!(parse_u32(""), None);
    assert_eq!(parse_u32("x1"), None);
    assert_eq!(parse_u32("1x"), None);
}

#[test]
fn tree_equality_is_structural() {
    let a = SExpr::List(vec![SExpr::Sym("A".to_string()), SExpr::Num(1)]);
    let b = SExpr::List(vec![SExpr::Sym("A".to_string()), SExpr::Num(1)]);
    let c = SExpr::List(vec![SExpr::Sym("A".to_string()), SExpr::Num(2)]);
    assert!(a.tree_eq(&b));
    assert!(!a.tree_eq(&c));
    assert!(a.tree_eq(&a.duplicate()));
}

#[test]
fn structural_checks_accept_the_shapes_they_describe() {
    let good = SExpr::List(vec![
        SExpr::Sym("Expr".to_string()),
        SExpr::Key("kind".to_string()),
        SExpr::Key("path".to_string()),
        SExpr::Vect(vec![SExpr::Sym("x".to_string())]),
    ]);
    assert!(check_wf(&good));
    assert_eq!(try_count_nodes(&good), Some(1));
    assert!(check_no_reserved(&good));
    // A qualified (two-segment) path is rejected outright.
    let qualified = SExpr::List(vec![
        SExpr::Sym("Expr".to_string()),
        SExpr::Key("kind".to_string()),
        SExpr::Key("path".to_string()),
        SExpr::Vect(vec![SExpr::Sym("a".to_string()), SExpr::Sym("b".to_string())]),
    ]);
    assert!(!check_wf(&qualified));
    // A reserved keyword is only for patterns.
    let reserved = SExpr::List(vec![
        SExpr::Sym("Item".to_string()),
        SExpr::Key("_1".to_string()),
    ]);
    assert!(!check_no_reserved(&reserved));
}
