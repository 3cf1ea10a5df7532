use hilc::ast::to_hil;
use hilc::context::GlobalContext;
use hilc::bui::to_bui;
use hilc::resolve::ResolveCollectVisitor;
use hilc::s_expr::{sexp_match, MatchContext, SExpr};

fn sym(s: &str) -> SExpr {
    SExpr::Sym(s.to_string())
}

fn key(s: &str) -> SExpr {
    SExpr::Key(s.to_string())
}

fn num(n: u64) -> SExpr {
    SExpr::Num(n)
}

fn list(v: Vec<SExpr>) -> SExpr {
    SExpr::List(v)
}

fn vect(v: Vec<SExpr>) -> SExpr {
    SExpr::Vect(v)
}

fn ty_path(name: &str) -> SExpr {
    list(vec![sym("Ty"), key("kind"), key("path"), vect(vec![sym(name)])])
}

fn expr_path(name: &str) -> SExpr {
    list(vec![sym("Expr"), key("kind"), key("path"), vect(vec![sym(name)])])
}

fn param(name: &str, ty: SExpr) -> SExpr {
    list(vec![sym("Param"), sym(name), ty])
}

/// The reference unit:
/// a zero-field class `Bar`; a function `foo(x: Bar, y: Bar) -> Bar { x; y }`;
/// an `interface iface { type t = Bar; defn f(z: Bar) -> Bar; }`;
/// a `module mdl { type t = Bar; defn f(z: Bar) -> Bar { z } }`.
fn get_ast() -> SExpr {
    list(vec![
        sym("Unit"),
        key("path"),
        vect(vec![sym("test")]),
        list(vec![
            sym("Item"),
            key("ident"),
            sym("Bar"),
            key("kind"),
            key("class"),
            list(vec![
                sym("Variant"),
                list(vec![sym("FieldDef")]),
                list(vec![sym("FieldDef")]),
            ]),
        ]),
        list(vec![
            sym("Item"),
            key("ident"),
            sym("foo"),
            key("kind"),
            key("defn"),
            list(vec![sym("Generics")]),
            list(vec![
                sym("FnSig"),
                list(vec![
                    sym("FnDecl"),
                    vect(vec![param("x", ty_path("Bar")), param("y", ty_path("Bar"))]),
                    list(vec![sym("FnRetTy"), ty_path("Bar")]),
                ]),
            ]),
            list(vec![
                sym("Block"),
                list(vec![sym("Stmt"), key("kind"), key("semi"), expr_path("x")]),
                list(vec![sym("Stmt"), key("kind"), key("expr"), expr_path("y")]),
            ]),
        ]),
        list(vec![
            sym("Item"),
            key("ident"),
            sym("iface"),
            key("kind"),
            key("interface"),
            list(vec![
                sym("Signature"),
                list(vec![
                    sym("Decl"),
                    key("ident"),
                    sym("t"),
                    key("kind"),
                    key("ty"),
                    ty_path("Bar"),
                ]),
                list(vec![
                    sym("Decl"),
                    key("ident"),
                    sym("f"),
                    key("kind"),
                    key("defn"),
                    list(vec![sym("Generics")]),
                    list(vec![
                        sym("FnSig"),
                        list(vec![sym("FnDecl"), vect(vec![param("z", ty_path("Bar"))])]),
                    ]),
                ]),
            ]),
        ]),
        list(vec![
            sym("Item"),
            key("ident"),
            sym("mdl"),
            key("kind"),
            key("module"),
            list(vec![
                sym("Structure"),
                list(vec![
                    sym("Binding"),
                    key("ident"),
                    sym("t"),
                    key("kind"),
                    key("ty"),
                    ty_path("Bar"),
                ]),
                list(vec![
                    sym("Binding"),
                    key("ident"),
                    sym("f"),
                    key("kind"),
                    key("defn"),
                    list(vec![sym("Generics")]),
                    list(vec![
                        sym("FnSig"),
                        list(vec![
                            sym("FnDecl"),
                            vect(vec![param("z", ty_path("Bar"))]),
                            list(vec![sym("FnRetTy"), ty_path("Bar")]),
                        ]),
                    ]),
                    list(vec![
                        sym("Block"),
                        list(vec![sym("Stmt"), key("kind"), key("expr"), expr_path("z")]),
                    ]),
                ]),
            ]),
        ]),
    ])
}

fn hil_ty_def(unit: u64, def: u64) -> SExpr {
    list(vec![
        sym("Ty"),
        key("hil_id"),
        key("_"),
        key("kind"),
        key("qpath"),
        list(vec![
            sym("Path"),
            key("kind"),
            key("def"),
            list(vec![sym("DefId"), num(unit), num(def)]),
        ]),
    ])
}

fn hil_param(var: &str, name: &str, ty: SExpr) -> SExpr {
    list(vec![sym("Param"), key("hil_id"), key(var), sym(name), ty])
}

fn hil_local_expr(head: &str, var: &str) -> SExpr {
    list(vec![
        sym(head),
        key("hil_id"),
        key("_"),
        key("kind"),
        key("qpath"),
        list(vec![sym("Path"), key("kind"), key("local"), key(var)]),
    ])
}

#[test]
fn test_ast_to_hil() {
    let ast = get_ast();
    let hil = to_hil(&ast).unwrap();
    let expected = list(vec![
        sym("Unit"),
        key("path"),
        vect(vec![sym("test")]),
        list(vec![
            sym("Item"),
            key("def_id"),
            num(0),
            key("ident"),
            sym("Bar"),
            key("kind"),
            key("class"),
            list(vec![
                sym("Variant"),
                key("hil_id"),
                key("_"),
                key("def_id"),
                num(1),
                list(vec![sym("FieldDef"), key("hil_id"), key("_"), key("def_id"), num(2)]),
                list(vec![sym("FieldDef"), key("hil_id"), key("_"), key("def_id"), num(3)]),
            ]),
        ]),
        list(vec![
            sym("Item"),
            key("def_id"),
            num(4),
            key("ident"),
            sym("foo"),
            key("kind"),
            key("defn"),
            list(vec![sym("Generics"), key("hil_id"), key("_")]),
            list(vec![
                sym("FnSig"),
                key("hil_id"),
                key("_"),
                list(vec![
                    sym("FnDecl"),
                    key("hil_id"),
                    key("_"),
                    vect(vec![
                        hil_param("_1", "x", hil_ty_def(0, 0)),
                        hil_param("_2", "y", hil_ty_def(0, 0)),
                    ]),
                    list(vec![sym("FnRetTy"), key("hil_id"), key("_"), hil_ty_def(0, 0)]),
                ]),
            ]),
            list(vec![
                sym("Block"),
                key("hil_id"),
                key("_"),
                list(vec![
                    sym("Stmt"),
                    key("hil_id"),
                    key("_"),
                    key("kind"),
                    key("semi"),
                    hil_local_expr("Expr", "_1"),
                ]),
                list(vec![
                    sym("Stmt"),
                    key("hil_id"),
                    key("_"),
                    key("kind"),
                    key("expr"),
                    hil_local_expr("Expr", "_2"),
                ]),
            ]),
        ]),
        list(vec![
            sym("Item"),
            key("def_id"),
            num(5),
            key("ident"),
            sym("iface"),
            key("kind"),
            key("interface"),
            list(vec![
                sym("Signature"),
                key("hil_id"),
                key("_"),
                list(vec![
                    sym("Decl"),
                    key("hil_id"),
                    key("_"),
                    key("def_id"),
                    num(6),
                    key("ident"),
                    sym("t"),
                    key("kind"),
                    key("ty"),
                    hil_ty_def(0, 0),
                ]),
                list(vec![
                    sym("Decl"),
                    key("hil_id"),
                    key("_"),
                    key("def_id"),
                    num(7),
                    key("ident"),
                    sym("f"),
                    key("kind"),
                    key("defn"),
                    list(vec![sym("Generics"), key("hil_id"), key("_")]),
                    list(vec![
                        sym("FnSig"),
                        key("hil_id"),
                        key("_"),
                        list(vec![
                            sym("FnDecl"),
                            key("hil_id"),
                            key("_"),
                            vect(vec![hil_param("_", "z", hil_ty_def(0, 0))]),
                        ]),
                    ]),
                ]),
            ]),
        ]),
        list(vec![
            sym("Item"),
            key("def_id"),
            num(8),
            key("ident"),
            sym("mdl"),
            key("kind"),
            key("module"),
            list(vec![
                sym("Structure"),
                key("hil_id"),
                key("_"),
                list(vec![
                    sym("Binding"),
                    key("hil_id"),
                    key("_"),
                    key("def_id"),
                    num(9),
                    key("ident"),
                    sym("t"),
                    key("kind"),
                    key("ty"),
                    hil_ty_def(0, 0),
                ]),
                list(vec![
                    sym("Binding"),
                    key("hil_id"),
                    key("_"),
                    key("def_id"),
                    num(10),
                    key("ident"),
                    sym("f"),
                    key("kind"),
                    key("defn"),
                    list(vec![sym("Generics"), key("hil_id"), key("_")]),
                    list(vec![
                        sym("FnSig"),
                        key("hil_id"),
                        key("_"),
                        list(vec![
                            sym("FnDecl"),
                            key("hil_id"),
                            key("_"),
                            vect(vec![hil_param("_3", "z", hil_ty_def(0, 0))]),
                            list(vec![sym("FnRetTy"), key("hil_id"), key("_"), hil_ty_def(0, 0)]),
                        ]),
                    ]),
                    list(vec![
                        sym("Block"),
                        key("hil_id"),
                        key("_"),
                        list(vec![
                            sym("Stmt"),
                            key("hil_id"),
                            key("_"),
                            key("kind"),
                            key("expr"),
                            hil_local_expr("Expr", "_3"),
                        ]),
                    ]),
                ]),
            ]),
        ]),
    ]);
    assert!(sexp_match(&hil, &expected, &mut MatchContext::new()));
}

#[test]
fn test_hil_to_bui() {
    let ast = get_ast();
    let hil = to_hil(&ast).unwrap();
    let ctx = GlobalContext::new();
    let bui = to_bui(&hil, &ctx).unwrap().deserialize();
    let items = bui.items();
    assert_eq!(items.len(), 4);
    assert_eq!(items[0].ident(), "Bar");
    if let Some(items_0) = items[0].class() {
        assert_eq!(items_0.fields().len(), 0);
    } else {
        assert!(false, "iterm 0 must a class.");
    }
    assert_eq!(items[1].ident(), "foo");
    if let Some(items_1) = items[1].defn() {
        let fn_sig = items_1.fn_sig();
        let decl = fn_sig.decl();
        let inputs = decl.inputs();
        assert_eq!(inputs.len(), 2);
        let ty = inputs[0].adt();
        assert!(ty.is_some());
        let t = ty.unwrap();
        assert_eq!(t.unit(), 0);
        assert_eq!(t.def(), 0);

        let ty = inputs[1].adt();
        assert!(ty.is_some());
        let t = ty.unwrap();
        assert_eq!(t.unit(), 0);
        assert_eq!(t.def(), 0);
    } else {
        assert!(false, "item 1 must be a defn.");
    }
    assert_eq!(items[2].ident(), "iface");
    if let Some(items_2) = items[2].interface() {
        assert_eq!(items_2.types().len(), 1);
        let (ident, ty_decl) = &items_2.types()[0];
        assert_eq!(ident.as_str(), "t");
        let transparent = ty_decl.transparent();
        assert!(transparent.is_some());
        let ty = transparent.unwrap();
        let adt = ty.adt();
        assert!(adt.is_some());
        let t = adt.unwrap();
        assert_eq!(t.unit(), 0);
        assert_eq!(t.def(), 0);

        assert_eq!(items_2.defns().len(), 1);
        let (ident, _) = &items_2.defns()[0];
        assert_eq!(ident.as_str(), "f");
    } else {
        assert!(false, "item 2 must be an iface");
    }
    assert_eq!(items[3].ident(), "mdl");
    if let Some(items_3) = items[3].module() {
        assert_eq!(items_3.types().len(), 1);

        assert_eq!(items_3.types().len(), 1);
        let (ident, ty) = &items_3.types()[0];
        assert_eq!(ident.as_str(), "t");
        let adt = ty.adt();
        assert!(adt.is_some());
        let t = adt.unwrap();
        assert_eq!(t.unit(), 0);
        assert_eq!(t.def(), 0);

        assert_eq!(items_3.defns().len(), 1);
        let (ident, _) = &items_3.defns()[0];
        assert_eq!(ident.as_str(), "f");
        assert_eq!(items_3.defns().len(), 1);
    } else {
        assert!(false, "item 3 must be a module");
    }
}

#[test]
fn collect_assigns_offsets_in_source_order() {
    let ast = get_ast();
    let mut collector = ResolveCollectVisitor::new();
    collector.visit(&ast);
    let ns = collector.collect();
    let bar = ns.lookup("Bar").unwrap();
    assert_eq!(bar.unit.0, 0);
    assert_eq!(bar.offset.0, 0);
    assert_eq!(ns.lookup("foo").unwrap().offset.0, 1);
    assert_eq!(ns.lookup("iface").unwrap().offset.0, 2);
    assert_eq!(ns.lookup("mdl").unwrap().offset.0, 3);
    assert!(ns.lookup("nothing").is_none());
}

#[test]
fn undefined_reference_reports_one_error() {
    let ast = list(vec![
        sym("Unit"),
        key("path"),
        vect(vec![sym("test")]),
        list(vec![
            sym("Item"),
            key("ident"),
            sym("f"),
            key("kind"),
            key("defn"),
            list(vec![sym("Generics")]),
            list(vec![
                sym("FnSig"),
                list(vec![sym("FnDecl"), vect(vec![])]),
            ]),
            list(vec![
                sym("Block"),
                list(vec![sym("Stmt"), key("kind"), key("expr"), expr_path("nope")]),
            ]),
        ]),
    ]);
    let errors = to_hil(&ast).unwrap_err();
    assert_eq!(errors.len(), 1);
    assert_eq!(errors[0], "E0001 Undefined name: nope");
}

#[test]
fn local_binding_shadows_item_of_same_name() {
    // An item and a parameter both named `x`: the expression reference must
    // resolve to the local binding, the type reference to the item.
    let ast = list(vec![
        sym("Unit"),
        key("path"),
        vect(vec![sym("test")]),
        list(vec![
            sym("Item"),
            key("ident"),
            sym("x"),
            key("kind"),
            key("class"),
            list(vec![sym("Variant")]),
        ]),
        list(vec![
            sym("Item"),
            key("ident"),
            sym("f"),
            key("kind"),
            key("defn"),
            list(vec![sym("Generics")]),
            list(vec![
                sym("FnSig"),
                list(vec![sym("FnDecl"), vect(vec![param("x", ty_path("x"))])]),
            ]),
            list(vec![
                sym("Block"),
                list(vec![sym("Stmt"), key("kind"), key("expr"), expr_path("x")]),
            ]),
        ]),
    ]);
    let hil = to_hil(&ast).unwrap();
    let expected = list(vec![
        sym("Unit"),
        key("path"),
        vect(vec![sym("test")]),
        key("_"),
        list(vec![
            sym("Item"),
            key("def_id"),
            key("_"),
            key("ident"),
            sym("f"),
            key("kind"),
            key("defn"),
            list(vec![sym("Generics"), key("hil_id"), key("_")]),
            list(vec![
                sym("FnSig"),
                key("hil_id"),
                key("_"),
                list(vec![
                    sym("FnDecl"),
                    key("hil_id"),
                    key("_"),
                    vect(vec![hil_param("_1", "x", hil_ty_def(0, 0))]),
                ]),
            ]),
            list(vec![
                sym("Block"),
                key("hil_id"),
                key("_"),
                list(vec![
                    sym("Stmt"),
                    key("hil_id"),
                    key("_"),
                    key("kind"),
                    key("expr"),
                    hil_local_expr("Expr", "_1"),
                ]),
            ]),
        ]),
    ]);
    assert!(sexp_match(&hil, &expected, &mut MatchContext::new()));
}

#[test]
fn empty_unit_lowers_to_itself() {
    let ast = list(vec![sym("Unit"), key("path"), vect(vec![sym("test")])]);
    let hil = to_hil(&ast).unwrap();
    let expected = list(vec![sym("Unit"), key("path"), vect(vec![sym("test")])]);
    assert!(sexp_match(&hil, &expected, &mut MatchContext::new()));
}

#[test]
fn type_check_records_each_checked_definition() {
    let ast = get_ast();
    let hil = to_hil(&ast).unwrap();
    let mut ctx = GlobalContext::new();
    let tctx = hilc::t::ty_check(&mut ctx, &hil).unwrap();
    // The function item and the module's function binding are checked, in
    // document order, each keyed by its lowered `def_id`.
    assert_eq!(tctx.ty_ctxs.len(), 2);
    assert_eq!(tctx.ty_ctxs[0].0.offset.0, 4);
    assert_eq!(tctx.ty_ctxs[1].0.offset.0, 10);
    // `foo` has two typed parameters, the module's `f` has one.
    assert_eq!(tctx.ty_ctxs[0].1.locals.len(), 2);
    assert_eq!(tctx.ty_ctxs[1].1.locals.len(), 1);
    // Every parameter type was interned afresh.
    assert!(ctx.type_cache.types.len() >= 4);
}

#[test]
fn later_item_of_the_same_name_wins_in_one_scope() {
    // Two identically named items in the same scope: the later registration
    // overwrites the earlier one, so references see the second offset.
    let ast = list(vec![
        sym("Unit"),
        key("path"),
        vect(vec![sym("test")]),
        list(vec![
            sym("Item"),
            key("ident"),
            sym("X"),
            key("kind"),
            key("class"),
            list(vec![sym("Variant")]),
        ]),
        list(vec![
            sym("Item"),
            key("ident"),
            sym("X"),
            key("kind"),
            key("class"),
            list(vec![sym("Variant")]),
        ]),
        list(vec![
            sym("Item"),
            key("ident"),
            sym("f"),
            key("kind"),
            key("defn"),
            list(vec![sym("Generics")]),
            list(vec![
                sym("FnSig"),
                list(vec![sym("FnDecl"), vect(vec![param("a", ty_path("X"))])]),
            ]),
        ]),
    ]);
    let hil = to_hil(&ast).unwrap();
    let expected = list(vec![
        sym("Unit"),
        key("path"),
        vect(vec![sym("test")]),
        key("_"),
        key("_"),
        list(vec![
            sym("Item"),
            key("def_id"),
            key("_"),
            key("ident"),
            sym("f"),
            key("kind"),
            key("defn"),
            list(vec![sym("Generics"), key("hil_id"), key("_")]),
            list(vec![
                sym("FnSig"),
                key("hil_id"),
                key("_"),
                list(vec![
                    sym("FnDecl"),
                    key("hil_id"),
                    key("_"),
                    vect(vec![hil_param("_1", "a", hil_ty_def(0, 1))]),
                ]),
            ]),
        ]),
    ]);
    assert!(sexp_match(&hil, &expected, &mut MatchContext::new()));
}
