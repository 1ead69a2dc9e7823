use codemaker::{DispatchError, Role, RuleKey, RuleSet};

#[test]
fn test_define_rules_on_static_target() {
    struct TestMaker;

    let mut role = Role::new("TestMaker", TestMaker {});
    let item = role
        .define("u32", "String", |_: &Role<TestMaker>, input: u32| format!("{},", input))
        .unwrap();
    let owned = role
        .define("Vec<u32>", "String", |r: &Role<TestMaker>, input: Vec<u32>| {
            r.apply_over_sequence(&item, input).concat()
        })
        .unwrap();
    let borrowed = role
        .define("&Vec<u32>", "String", |r: &Role<TestMaker>, input: &Vec<u32>| {
            r.apply_over_sequence(&item, input.iter().cloned().collect()).concat()
        })
        .unwrap();
    assert!(role.require("u32", "String").is_ok());

    assert_eq!(role.apply(&owned, vec![1, 2, 3]), "1,2,3,");
    assert_eq!(role.apply(&borrowed, &vec![4, 5, 6, 7]), "4,5,6,7,");
}

#[test]
fn test_define_rules_on_target_with_anonymous_lifetime_on_target() {
    struct TestConfig {
        sep: String,
    }
    struct TestMaker<'a> {
        config: &'a TestConfig,
    }

    let c = TestConfig { sep: "-".into() };
    let mut role = Role::new("TestMaker", TestMaker { config: &c });
    let item = role
        .define("u32", "String", |r: &Role<TestMaker<'_>>, input: u32| {
            format!("{}{}", input, r.config.config.sep)
        })
        .unwrap();
    let item_ref = role
        .define("&u32", "String", |r: &Role<TestMaker<'_>>, input: &u32| {
            format!("{}{}", input, r.config.config.sep)
        })
        .unwrap();
    let owned = role
        .define("Vec<u32>", "String", |r: &Role<TestMaker<'_>>, input: Vec<u32>| {
            r.apply_over_sequence(&item, input).concat()
        })
        .unwrap();
    let borrowed = role
        .define("&Vec<u32>", "String", |r: &Role<TestMaker<'_>>, input: &Vec<u32>| {
            r.apply_over_sequence(&item_ref, input.iter().collect()).concat()
        })
        .unwrap();

    assert_eq!(role.apply(&owned, vec![1, 2, 3]), "1-2-3-");
    assert_eq!(role.apply(&borrowed, &vec![4, 5, 6, 7]), "4-5-6-7-");
}

#[test]
fn apply_over_sequence_keeps_length_and_order() {
    let mut role = Role::new("Doubler", 2u32);
    let rule = role.define("u32", "u32", |r: &Role<u32>, x: u32| x * r.config).unwrap();
    let inputs = vec![5, 1, 4, 0];
    let outputs = role.apply_over_sequence(&rule, inputs.clone());
    assert_eq!(outputs.len(), inputs.len());
    for (i, x) in inputs.iter().enumerate() {
        assert_eq!(outputs[i], role.apply(&rule, *x));
    }
    assert_eq!(outputs, vec![10, 2, 8, 0]);
}

#[test]
fn apply_over_empty_sequence_is_empty() {
    let mut role = Role::new("Empty", ());
    let rule = role.define("u32", "u32", |_: &Role<()>, x: u32| x + 1).unwrap();
    assert!(role.apply_over_sequence(&rule, Vec::new()).is_empty());
}

#[test]
fn defining_a_rule_twice_is_refused() {
    let mut role = Role::new("TestMaker", ());
    assert!(role.define("u32", "String", |_: &Role<()>, x: u32| x.to_string()).is_ok());
    match role.define("u32", "String", |_: &Role<()>, x: u32| format!("{}!", x)) {
        Err(DispatchError::Duplicate(k)) => {
            assert_eq!(k.role, "TestMaker");
            assert_eq!(k.input, "u32");
            assert_eq!(k.output, "String");
        }
        _ => panic!("a second rule for the same pair must be refused"),
    }
    // Neither the first nor the second rule is kept for the pair.
    assert!(matches!(role.require("u32", "String"), Err(DispatchError::Duplicate(_))));
    // A third attempt does not revive it.
    assert!(role.define("u32", "String", |_: &Role<()>, x: u32| x.to_string()).is_err());
    assert!(role.require("u32", "String").is_err());
    // The same input with another output is a different rule.
    assert!(role.define("u32", "u64", |_: &Role<()>, x: u32| x as u64).is_ok());
    assert!(role.require("u32", "u64").is_ok());
}

#[test]
fn registering_a_triple_twice_puts_it_in_conflict() {
    let mut set = RuleSet::new();
    set.register(RuleKey::new("R", "u32", "String")).unwrap();
    set.register(RuleKey::new("R", "u8", "String")).unwrap();
    assert!(set.register(RuleKey::new("R", "u32", "String")).is_err());
    assert!(set.in_conflict(&RuleKey::new("R", "u32", "String")));
    assert!(!set.in_conflict(&RuleKey::new("R", "u8", "String")));
    match set.resolve(&RuleKey::new("R", "u32", "String")) {
        Err(DispatchError::Duplicate(k)) => assert_eq!(k.input, "u32"),
        _ => panic!("a triple in conflict must not resolve"),
    }
    assert_eq!(set.resolve(&RuleKey::new("R", "u8", "String")).unwrap(), 1);
    let wanted = vec![RuleKey::new("R", "u8", "String"), RuleKey::new("R", "u32", "String")];
    assert!(matches!(set.require_all(&wanted), Err(DispatchError::Duplicate(_))));
}

#[test]
fn assemble_refuses_duplicate_triples() {
    let keys = vec![
        RuleKey::new("R", "u32", "String"),
        RuleKey::new("R", "Vec<u32>", "String"),
        RuleKey::new("R", "u32", "String"),
    ];
    match RuleSet::assemble(keys) {
        Err(DispatchError::Duplicate(k)) => assert_eq!(k.input, "u32"),
        _ => panic!("duplicate triples must be refused"),
    }
}

#[test]
fn assemble_accepts_distinct_triples() {
    let keys = vec![
        RuleKey::new("R", "u32", "String"),
        RuleKey::new("S", "u32", "String"),
        RuleKey::new("R", "u32", "u64"),
    ];
    let set = RuleSet::assemble(keys).unwrap();
    assert_eq!(set.resolve(&RuleKey::new("S", "u32", "String")).unwrap(), 1);
    assert_eq!(set.resolve(&RuleKey::new("R", "u32", "u64")).unwrap(), 2);
}

#[test]
fn missing_rules_are_reported() {
    let mut set = RuleSet::new();
    set.register(RuleKey::new("R", "u32", "String")).unwrap();
    match set.resolve(&RuleKey::new("R", "u16", "String")) {
        Err(DispatchError::Missing(k)) => assert_eq!(k.input, "u16"),
        _ => panic!("an unknown triple must be missing"),
    }
    let wanted = vec![RuleKey::new("R", "u32", "String"), RuleKey::new("R", "bool", "String")];
    match set.require_all(&wanted) {
        Err(DispatchError::Missing(k)) => assert_eq!(k.input, "bool"),
        _ => panic!("the second triple has no rule"),
    }
    assert!(set.require_all(&vec![RuleKey::new("R", "u32", "String")]).is_ok());

    let mut role = Role::new("R", ());
    role.define("u32", "String", |_: &Role<()>, x: u32| x.to_string()).unwrap();
    assert!(role.require("u32", "String").is_ok());
    assert!(matches!(role.require("u8", "String"), Err(DispatchError::Missing(_))));
}
