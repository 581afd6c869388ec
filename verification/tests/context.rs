use fuzzerk::vm::context::Context;
use fuzzerk::vm::table::NameTable;

fn s(x: &str) -> String {
    x.to_string()
}

#[test]
fn a_table_holds_each_name_once() {
    let mut t: NameTable<isize> = NameTable::new();
    assert_eq!(t.len(), 0);
    assert_eq!(t.get(&s("a")), None);
    t.insert(s("a"), 1);
    t.insert(s("b"), 2);
    t.insert(s("a"), 3);
    assert_eq!(t.len(), 2);
    assert_eq!(t.get(&s("a")), Some(&3));
    assert_eq!(t.get(&s("b")), Some(&2));
    assert!(t.contains(&s("b")));
    assert_eq!(t.name_at(0), "a");
    assert_eq!(*t.value_at(1), 2);
    t.remove(&s("a"));
    t.remove(&s("nosuch"));
    assert_eq!(t.len(), 1);
    assert!(!t.contains(&s("a")));
    assert_eq!(t.name_at(0), "b");
}

#[test]
fn a_fresh_context_is_empty() {
    let c = Context::new();
    assert_eq!(c.iptr(), 0);
    assert_eq!(c.stepu(), 0);
    assert_eq!(c.depth(), 0);
    assert_eq!(c.get_int("a"), None);
    assert_eq!(c.get_str("a"), None);
    assert_eq!(c.get_buf("a"), None);
    assert_eq!(c.label(&s("a")), None);
    assert!(c.func(&s("a")).is_none());
    assert!(c.chain(&s("a")).is_none());
    assert!(!c.has_bridge(&s("a")));
}

#[test]
fn adding_a_variable_removes_it_from_the_other_kinds() {
    let mut c = Context::new();
    c.varadd_int("v", 1);
    c.varadd_int("w", 2);
    assert_eq!(c.get_int("v"), Some(1));
    c.varadd_str("v", s("text"));
    assert_eq!((c.get_int("v"), c.get_str("v"), c.get_buf("v")), (None, Some(s("text")), None));
    c.varadd_buf("v", vec![1, 2]);
    assert_eq!((c.get_int("v"), c.get_str("v"), c.get_buf("v")), (None, None, Some(vec![1, 2])));
    c.varadd_int("v", 9);
    assert_eq!((c.get_int("v"), c.get_str("v"), c.get_buf("v")), (Some(9), None, None));
    assert_eq!(c.get_int("w"), Some(2));
    c.var_remove("v");
    c.var_remove("never");
    assert_eq!((c.get_int("v"), c.get_str("v"), c.get_buf("v")), (None, None, None));
    assert_eq!(c.get_int("w"), Some(2));
}

#[test]
fn names_resolve_through_the_innermost_frame_only() {
    let mut c = Context::new();
    assert_eq!(c.resolve(&s("x")), "x");
    let mut outer: NameTable<String> = NameTable::new();
    outer.insert(s("x"), s("global"));
    c.enter(7, outer);
    assert_eq!(c.resolve(&s("x")), "global");
    assert_eq!(c.resolve(&s("y")), "y");
    let mut inner: NameTable<String> = NameTable::new();
    inner.insert(s("y"), s("other"));
    c.enter(9, inner);
    assert_eq!(c.resolve(&s("x")), "x");
    assert_eq!(c.resolve(&s("y")), "other");
    assert_eq!(c.depth(), 2);
    assert_eq!(c.iptr(), 9);
    assert!(c.leave());
    assert_eq!(c.iptr(), 7);
    assert_eq!(c.resolve(&s("x")), "global");
    assert!(c.leave());
    assert_eq!(c.iptr(), 0);
    assert!(!c.leave());
    assert_eq!(c.depth(), 0);
}

#[test]
fn the_pointer_moves_on_unless_it_was_set() {
    let mut c = Context::new();
    c.begin_step();
    c.end_step();
    assert_eq!(c.iptr(), 1);
    c.begin_step();
    c.jump_to(5);
    c.end_step();
    assert_eq!(c.iptr(), 5);
    c.begin_step();
    c.jump_to(usize::MAX);
    c.end_step();
    c.begin_step();
    c.end_step();
    assert_eq!(c.iptr(), usize::MAX);
}

#[test]
fn labels_functions_and_bridges_are_entered_by_name() {
    let mut c = Context::new();
    c.add_label(s("L"), 3);
    c.add_label(s("L"), 4);
    assert_eq!(c.label(&s("L")), Some(4));
    c.add_func(s("f"), 2, vec![s("a"), s("b")]);
    assert_eq!(c.func(&s("f")), Some(&(2, vec![s("a"), s("b")])));
    c.open_bridge(s("io"), s("console"));
    assert!(c.has_bridge(&s("io")));
    c.close_bridge(&s("io"));
    assert!(!c.has_bridge(&s("io")));
    c.bump_step();
    assert_eq!(c.stepu(), 1);
}
