use hilc::context::GlobalContext;
use hilc::def::{DefId, DefLocalId, UnitNum};
use hilc::hil::{hil_get_unit_path, HilId};
use hilc::s_expr::{node_add_attr, node_get_attr, node_get_field, node_get_fields, SExpr};
use hilc::t::UnitPath;

fn sym(s: &str) -> SExpr {
    SExpr::Sym(s.to_string())
}

fn key(s: &str) -> SExpr {
    SExpr::Key(s.to_string())
}

fn num(n: u64) -> SExpr {
    SExpr::Num(n)
}

#[test]
fn attributes_and_fields_are_scanned_apart() {
    let node = vec![
        sym("Item"),
        key("ident"),
        sym("Bar"),
        key("kind"),
        key("class"),
        num(7),
        num(8),
    ];
    assert!(node_get_attr(&node, "ident").unwrap().tree_eq(&sym("Bar")));
    assert!(node_get_attr(&node, "kind").unwrap().tree_eq(&key("class")));
    assert!(node_get_attr(&node, "missing").is_none());
    let fields = node_get_fields(&node);
    assert_eq!(fields.len(), 2);
    assert!(fields[0].tree_eq(&num(7)));
    assert!(node_get_field(&node, 1).unwrap().tree_eq(&num(8)));
    assert!(node_get_field(&node, 2).is_none());
}

#[test]
fn adding_an_attribute_keeps_the_fields() {
    let node = vec![sym("Item"), key("ident"), sym("Bar"), num(7)];
    let node = node_add_attr(node, "def_id", num(3));
    assert!(node_get_attr(&node, "def_id").unwrap().tree_eq(&num(3)));
    assert!(node_get_attr(&node, "ident").unwrap().tree_eq(&sym("Bar")));
    let fields = node_get_fields(&node);
    assert_eq!(fields.len(), 1);
    assert!(fields[0].tree_eq(&num(7)));
}

#[test]
fn def_id_round_trips_through_its_tree_form() {
    let d = DefId { unit: UnitNum(3), offset: DefLocalId(9) };
    let tree = d.to_s_expr();
    assert_eq!(DefId::from_s_expr(&tree), Some(d));
    assert_eq!(DefId::from_s_expr(&num(5)), None);
    assert_eq!(d.local(), DefLocalId(9));
}

#[test]
fn hil_ids_count_up_from_an_explicit_counter() {
    let mut counter: u32 = 0;
    let a = HilId::new(&mut counter);
    let b = HilId::new(&mut counter);
    assert_eq!(a.private, 0);
    assert_eq!(b.private, 1);
    assert_eq!(HilId::from_s_expr(&a.to_s_expr()), Some(a));
}

#[test]
fn lowering_context_assigns_each_node_one_identity() {
    let mut ctx = hilc::lower::LoweringContext::new(Vec::new());
    let first = ctx.hil_id(5);
    let again = ctx.hil_id(5);
    let other = ctx.hil_id(9);
    let back = ctx.hil_id(5);
    assert_eq!(first, again);
    assert_eq!(first, back);
    assert_ne!(first, other);
}

#[test]
fn unit_path_is_read_off_the_root() {
    let hil = SExpr::List(vec![
        sym("Unit"),
        key("path"),
        SExpr::Vect(vec![sym("a"), sym("b")]),
    ]);
    let p = hil_get_unit_path(&hil).unwrap();
    assert_eq!(p.name.len(), 2);
    assert_eq!(p.name[0], "a");
    assert_eq!(p.name[1], "b");
    assert!(hil_get_unit_path(&num(3)).is_none());
}

#[test]
fn loading_the_same_unit_path_twice_appends_two_slots() {
    let mut ctx = GlobalContext::new();
    ctx.load_unit(UnitPath::new(vec!["a".to_string()]));
    ctx.load_unit(UnitPath::new(vec!["a".to_string()]));
    assert_eq!(ctx.unit_cache.units.len(), 2);
    assert_eq!(ctx.unit_cache.index.len(), 2);
}

#[test]
fn interned_type_allocates_a_nominal_type_per_call() {
    let mut ctx = GlobalContext::new();
    let node = vec![
        sym("Ty"),
        key("kind"),
        key("qpath"),
        SExpr::List(vec![
            sym("Path"),
            key("kind"),
            key("def"),
            SExpr::List(vec![sym("DefId"), num(0), num(0)]),
        ]),
    ];
    let first = ctx.interned_type(&node).unwrap();
    let second = ctx.interned_type(&node).unwrap();
    assert_eq!(first, 0);
    assert_eq!(second, 1);
    assert_eq!(ctx.type_cache.adt_defs[0].def_id.offset.0, 0);
    let bad = vec![sym("Ty"), key("kind"), key("tuple")];
    assert!(ctx.interned_type(&bad).is_none());
}
