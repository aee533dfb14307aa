use ulisp::Scope;

#[test]
fn register_returns_safe_name() {
    let mut s = Scope::new();
    assert_eq!(s.register("foo".to_string()), "foo");
}

#[test]
fn register_replaces_dashes() {
    let mut s = Scope::new();
    assert_eq!(s.register("foo-bar".to_string()), "foo_bar");
}

#[test]
fn register_keeps_minus_operator() {
    let mut s = Scope::new();
    assert_eq!(s.register("-".to_string()), "-");
}

#[test]
fn register_resolves_collisions_with_suffixes() {
    let mut s = Scope::new();
    assert_eq!(s.register("x".to_string()), "x");
    assert_eq!(s.register("x".to_string()), "x1");
    assert_eq!(s.register("x".to_string()), "x2");
}

#[test]
fn registered_targets_stay_distinct_across_shadowing() {
    // The second registration of "x" takes "x1"; registering a source name
    // "x1" afterwards must not reuse it.
    let mut s = Scope::new();
    let a = s.register("x".to_string());
    let b = s.register("x".to_string());
    let c = s.register("x1".to_string());
    assert_eq!(a, "x");
    assert_eq!(b, "x1");
    assert_ne!(c, a);
    assert_ne!(c, b);
    assert_eq!(c, "x11");
}

#[test]
fn dashed_names_cannot_collide_with_plain_ones() {
    let mut s = Scope::new();
    let a = s.register("a_b".to_string());
    let b = s.register("a-b".to_string());
    assert_eq!(a, "a_b");
    assert_ne!(b, a);
    assert_eq!(b, "a_b1");
}

#[test]
fn lookup_finds_latest_binding() {
    let mut s = Scope::new();
    s.register("x".to_string());
    let second = s.register("x".to_string());
    assert_eq!(s.get("x"), Some(second));
}

#[test]
fn lookup_of_unregistered_name_is_none() {
    let mut s = Scope::new();
    s.register("x".to_string());
    assert_eq!(s.get("y"), None);
}

#[test]
fn symbol_uses_prefix_and_scope_size() {
    let mut s = Scope::new();
    assert_eq!(s.symbol(None), "sym1");
    assert_eq!(s.symbol(None), "sym2");
    assert_eq!(s.symbol(Some("t")), "t3");
}

#[test]
fn synthesized_temporaries_avoid_registered_names() {
    let mut s = Scope::new();
    assert_eq!(s.register("sym2".to_string()), "sym2");
    // The next temporary would also be named sym2; the collision suffix
    // keeps it distinct.
    assert_eq!(s.symbol(None), "sym21");
}

#[test]
fn child_scope_registrations_are_invisible_in_parent() {
    let mut parent = Scope::new();
    parent.register("f".to_string());
    let mut child = parent.copy();
    child.register("x".to_string());
    child.register("y".to_string());
    assert_eq!(parent.get("x"), None);
    assert_eq!(parent.get("y"), None);
    assert_eq!(child.get("x"), Some("x".to_string()));
    assert_eq!(parent.get("f"), Some("f".to_string()));
}

#[test]
fn safe_name_maps_every_dash() {
    assert_eq!(ulisp::safe_name("a-b-c"), "a_b_c");
    assert_eq!(ulisp::safe_name("-"), "-");
    assert_eq!(ulisp::safe_name("plain"), "plain");
}

#[test]
fn str_eq_compares_contents() {
    assert!(ulisp::str_eq("abc", "abc"));
    assert!(!ulisp::str_eq("abc", "abd"));
    assert!(!ulisp::str_eq("abc", "ab"));
}

#[test]
fn i32_to_string_renders_decimal() {
    assert_eq!(ulisp::i32_to_string(0), "0");
    assert_eq!(ulisp::i32_to_string(42), "42");
    assert_eq!(ulisp::i32_to_string(-5), "-5");
    assert_eq!(ulisp::i32_to_string(i32::MIN), "-2147483648");
}
