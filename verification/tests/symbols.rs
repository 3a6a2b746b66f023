use b_minor::sym::{BindError, Scope, Strings, Symbol, SymbolId, SymbolKind, SymbolTable};
use b_minor::types::{PrimType, Type};

// ── Strings ──

#[test]
fn new_creates_empty() {
    let s = Strings::new();
    assert_eq!(s.len(), 0);
    assert!(s.is_empty());
}

#[test]
fn add_first_string_returns_zero() {
    let mut s = Strings::new();
    assert_eq!(s.add(String::from("hello")), 0);
}

#[test]
fn add_sequential_strings_increment_ids() {
    let mut s = Strings::new();
    assert_eq!(s.add(String::from("a")), 0);
    assert_eq!(s.add(String::from("b")), 1);
    assert_eq!(s.add(String::from("c")), 2);
}

#[test]
fn add_duplicate_string_returns_same_id() {
    let mut s = Strings::new();
    let id1 = s.add(String::from("dup"));
    let id2 = s.add(String::from("dup"));
    assert_eq!(id1, id2);
}

#[test]
fn add_empty_string_works() {
    for input in ["", "hello", "world"] {
        let mut s = Strings::new();
        assert_eq!(s.add(String::from(input)), 0);
    }
}

#[test]
fn get_valid_id_returns_some() {
    let mut s = Strings::new();
    s.add(String::from("foo"));
    assert_eq!(s.get(0), Some(&String::from("foo")));
}

#[test]
fn get_invalid_id_returns_none() {
    let s = Strings::new();
    assert_eq!(s.get(0), None);
    assert_eq!(s.get(usize::MAX), None);
}

#[test]
fn get_after_multiple_adds() {
    let mut s = Strings::new();
    s.add(String::from("x"));
    s.add(String::from("y"));
    s.add(String::from("z"));
    assert_eq!(s.get(0), Some(&String::from("x")));
    assert_eq!(s.get(1), Some(&String::from("y")));
    assert_eq!(s.get(2), Some(&String::from("z")));
}

#[test]
fn interning_property_same_id_for_same_string() {
    let mut s = Strings::new();
    let id = s.add(String::from("shared"));
    s.add(String::from("other"));
    let id2 = s.add(String::from("shared"));
    assert_eq!(id, id2);
    assert_eq!(s.get(id), Some(&String::from("shared")));
}

#[test]
fn interning_keeps_the_table_size() {
    let mut s = Strings::new();
    s.add(String::from("a"));
    s.add(String::from("b"));
    s.add(String::from("a"));
    assert_eq!(s.len(), 2);
}

// ── SymbolKind ──

#[test]
fn test_symbol_kind_eq() {
    let cases = [
        (SymbolKind::Local(0), SymbolKind::Local(0), true),
        (SymbolKind::Local(0), SymbolKind::Local(1), false),
        (SymbolKind::Param(0), SymbolKind::Param(0), true),
        (SymbolKind::Param(0), SymbolKind::Param(1), false),
        (SymbolKind::Global, SymbolKind::Global, true),
        (SymbolKind::Forward, SymbolKind::Forward, true),
        (SymbolKind::Function, SymbolKind::Function, true),
        (SymbolKind::Global, SymbolKind::Forward, false),
        (SymbolKind::Forward, SymbolKind::Function, false),
        (SymbolKind::Local(0), SymbolKind::Global, false),
    ];
    for (a, b, eq) in cases {
        assert_eq!(a == b, eq);
    }
}

// ── Symbol ──

#[test]
fn test_symbol_create() {
    let sym = Symbol::create(5, SymbolKind::Param(2), Type::Scalar(PrimType::Bool));
    assert_eq!(sym.name, 5);
    assert_eq!(sym.kind, SymbolKind::Param(2));
    assert_eq!(sym.dtype, Type::Scalar(PrimType::Bool));
}

// ── SymbolTable ──

fn sym(name: usize, kind: SymbolKind) -> Symbol {
    Symbol::create(name, kind, Type::Scalar(PrimType::Int))
}

#[test]
fn test_default_has_global_scope() {
    let st = SymbolTable::default();
    assert_eq!(st.levels(), 1);
    assert!(st.at_global());
}

#[test]
fn test_levels() {
    let mut st = SymbolTable::default();
    assert_eq!(st.levels(), 1);
    st.enter_scope();
    assert_eq!(st.levels(), 2);
    st.enter_scope();
    assert_eq!(st.levels(), 3);
    st.leave_scope();
    assert_eq!(st.levels(), 2);
}

#[test]
fn test_at_global() {
    let mut st = SymbolTable::default();
    assert!(st.at_global());
    st.enter_scope();
    assert!(!st.at_global());
    st.leave_scope();
    assert!(st.at_global());
}

#[test]
fn test_scope_enter_leave() {
    let mut st = SymbolTable::default();
    st.enter_scope();
    st.enter_scope();
    assert_eq!(st.levels(), 3);
    st.leave_scope();
    assert_eq!(st.levels(), 2);
    st.leave_scope();
    assert_eq!(st.levels(), 1);
}

#[test]
fn test_bind_new_symbol() {
    let mut st = SymbolTable::default();
    assert!(st.bind(sym(0, SymbolKind::Global)).is_ok());
}

#[test]
fn test_bind_duplicate_fails() {
    let mut st = SymbolTable::default();
    st.bind(sym(0, SymbolKind::Global)).unwrap();
    let result = st.bind(sym(0, SymbolKind::Global));
    assert!(result.is_err());
    assert!(result.unwrap_err().to_string().contains("Already defined"));
}

#[test]
fn test_bind_forward_then_function() {
    let mut st = SymbolTable::default();
    st.bind(sym(0, SymbolKind::Forward)).unwrap();
    assert!(st.bind(sym(0, SymbolKind::Function)).is_ok());
}

#[test]
fn test_bind_forward_then_forward_fails() {
    let mut st = SymbolTable::default();
    st.bind(sym(0, SymbolKind::Forward)).unwrap();
    assert!(st.bind(sym(0, SymbolKind::Forward)).is_err());
}

#[test]
fn test_lookup_undefined() {
    let st = SymbolTable::default();
    assert!(st.lookup(0).is_none());
    assert!(st.lookup_current(0).is_none());
}

#[test]
fn test_lookup_current_scope() {
    let mut st = SymbolTable::default();
    st.bind(sym(0, SymbolKind::Global)).unwrap();
    let found = st.lookup(0);
    assert!(found.is_some());
    assert_eq!(found.unwrap().kind, SymbolKind::Global);
}

#[test]
fn test_lookup_current_innermost() {
    let mut st = SymbolTable::default();
    st.bind(sym(0, SymbolKind::Global)).unwrap();
    st.enter_scope();
    st.bind(sym(0, SymbolKind::Local(0))).unwrap();
    assert_eq!(st.lookup_current(0).unwrap().kind, SymbolKind::Local(0));
    assert_eq!(st.lookup(0).unwrap().kind, SymbolKind::Local(0));
}

#[test]
fn test_lookup_outer_scope() {
    let mut st = SymbolTable::default();
    st.bind(sym(0, SymbolKind::Global)).unwrap();
    st.enter_scope();
    assert!(st.lookup(0).is_some());
}

#[test]
fn test_lookup_current_not_in_outer() {
    let mut st = SymbolTable::default();
    st.bind(sym(0, SymbolKind::Global)).unwrap();
    st.enter_scope();
    assert!(st.lookup_current(0).is_none());
}

#[test]
fn test_bind_in_nested_scope() {
    let mut st = SymbolTable::default();
    st.enter_scope();
    st.bind(sym(5, SymbolKind::Local(0))).unwrap();
    assert!(st.lookup(5).is_some());
    assert!(st.lookup_current(5).is_some());
}

#[test]
fn test_lookup_after_leave_scope() {
    let mut st = SymbolTable::default();
    st.enter_scope();
    st.bind(sym(0, SymbolKind::Local(0))).unwrap();
    st.leave_scope();
    assert!(st.lookup(0).is_none());
}

#[test]
fn test_bind_disjoint_names() {
    let mut st = SymbolTable::default();
    st.bind(sym(0, SymbolKind::Global)).unwrap();
    st.bind(sym(1, SymbolKind::Global)).unwrap();
    assert_eq!(st.lookup(0).unwrap().name, 0);
    assert_eq!(st.lookup(1).unwrap().name, 1);
}

#[test]
fn test_scope_add_contains_get() {
    let mut scope = Scope::default();
    let sid = SymbolId(42);
    assert!(!scope.contains(0));
    assert!(scope.get(0).is_none());
    scope.add(0, sid);
    assert!(scope.contains(0));
    assert!(!scope.contains(1));
    assert_eq!(scope.get(0), Some(&sid));
    assert!(scope.get(1).is_none());
}

// ── further cases ──

#[test]
fn bind_error_message_names_the_string() {
    let mut st = SymbolTable::default();
    st.bind(sym(17, SymbolKind::Global)).unwrap();
    let e = st.bind(sym(17, SymbolKind::Global)).unwrap_err();
    assert_eq!(e, BindError::AlreadyDefined(17));
    assert_eq!(e.to_string(), "Already defined symbol with string 17");
    assert_eq!(BindError::AlreadyDefined(0).to_string(), "Already defined symbol with string 0");
    assert_eq!(
        BindError::AlreadyDefined(1203).to_string(),
        "Already defined symbol with string 1203"
    );
}

#[test]
fn shadowing_and_restoring_an_outer_symbol() {
    let mut st = SymbolTable::default();
    st.bind(sym(3, SymbolKind::Global)).unwrap();
    st.enter_scope();
    st.bind(sym(3, SymbolKind::Local(0))).unwrap();
    assert_eq!(st.lookup(3).unwrap().kind, SymbolKind::Local(0));
    st.leave_scope();
    assert_eq!(st.lookup(3).unwrap().kind, SymbolKind::Global);
}

#[test]
fn function_after_function_is_refused() {
    let mut st = SymbolTable::default();
    st.bind(sym(0, SymbolKind::Function)).unwrap();
    assert_eq!(st.bind(sym(0, SymbolKind::Function)), Err(BindError::AlreadyDefined(0)));
    assert_eq!(st.bind(sym(0, SymbolKind::Forward)), Err(BindError::AlreadyDefined(0)));
}

#[test]
fn refused_bind_leaves_the_table_unchanged() {
    let mut st = SymbolTable::default();
    st.bind(Symbol::create(0, SymbolKind::Global, Type::Scalar(PrimType::Bool))).unwrap();
    assert!(st.bind(sym(0, SymbolKind::Global)).is_err());
    assert_eq!(st.lookup(0).unwrap().dtype, Type::Scalar(PrimType::Bool));
}

#[test]
fn symbol_clone_keeps_the_fields() {
    let s = Symbol::create(4, SymbolKind::Local(1), Type::make_array(3, Type::Scalar(PrimType::Char)));
    let c = s.clone();
    assert_eq!(c.name, 4);
    assert_eq!(c.kind, SymbolKind::Local(1));
    assert_eq!(c.dtype, s.dtype);
}

#[test]
fn bind_keeps_other_names() {
    let mut st = SymbolTable::default();
    st.bind(Symbol { name: 4, kind: SymbolKind::Global, dtype: Type::Scalar(PrimType::Int) }).unwrap();
    st.enter_scope();
    st.bind(Symbol { name: 5, kind: SymbolKind::Local(0), dtype: Type::Scalar(PrimType::Char) }).unwrap();
    st.bind(Symbol { name: 6, kind: SymbolKind::Local(1), dtype: Type::Scalar(PrimType::Bool) }).unwrap();
    let x = st.lookup(4).unwrap();
    assert_eq!(x.kind, SymbolKind::Global);
    assert_eq!(x.dtype, Type::Scalar(PrimType::Int));
    let y = st.lookup_current(5).unwrap();
    assert_eq!(y.kind, SymbolKind::Local(0));
    assert_eq!(y.dtype, Type::Scalar(PrimType::Char));
    assert!(st.lookup_current(4).is_none());
    assert!(st.lookup(7).is_none());
}
