use weaver::config::{ConfigError, ProjectConfig, VarSource, Variable};
use weaver::scope::{Bindings, VarStack};

fn bindings(pairs: &[(&str, &str)]) -> Bindings {
    let mut b = Bindings::new();
    for (k, v) in pairs {
        b.insert(k.to_string(), v.to_string());
    }
    b
}

#[test]
fn lookup_prefers_the_innermost_layer() {
    let base = VarStack::new(bindings(&[("title", "Site"), ("author", "Ann")]));
    let extended = base.combine(bindings(&[("title", "Home")]));
    assert_eq!(extended.get("title"), Some("Home".to_string()));
    assert_eq!(extended.get("author"), Some("Ann".to_string()));
    assert_eq!(extended.get("missing"), None);
    assert_eq!(base.get("title"), Some("Site".to_string()));
}

#[test]
fn two_extensions_do_not_see_each_other() {
    let base = VarStack::new(bindings(&[("x", "0")]));
    let left = base.combine(bindings(&[("l", "1"), ("x", "left")]));
    let right = base.combine(bindings(&[("r", "2")]));
    assert_eq!(left.get("l"), Some("1".to_string()));
    assert_eq!(left.get("r"), None);
    assert_eq!(right.get("r"), Some("2".to_string()));
    assert_eq!(right.get("l"), None);
    assert_eq!(left.get("x"), Some("left".to_string()));
    assert_eq!(right.get("x"), Some("0".to_string()));
    assert_eq!(base.get("x"), Some("0".to_string()));
    assert_eq!(base.get("l"), None);
    assert_eq!(base.get("r"), None);
}

#[test]
fn chains_of_three_layers_fall_back_outward() {
    let a = VarStack::new(bindings(&[("k", "a"), ("only_a", "1")]));
    let b = a.combine(bindings(&[("k", "b"), ("only_b", "2")]));
    let c = b.combine(bindings(&[("only_c", "3")]));
    assert_eq!(c.get("k"), Some("b".to_string()));
    assert_eq!(c.get("only_a"), Some("1".to_string()));
    assert_eq!(c.get("only_b"), Some("2".to_string()));
    assert_eq!(c.get("only_c"), Some("3".to_string()));
    let copy = c.clone();
    assert_eq!(copy.get("k"), Some("b".to_string()));
}

#[test]
fn default_scope_binds_nothing() {
    assert_eq!(VarStack::default().get("anything"), None);
    assert_eq!(VarStack::default().get(""), None);
}

#[test]
fn later_binding_of_a_name_replaces_the_earlier() {
    let b = bindings(&[("k", "1"), ("j", "x"), ("k", "2")]);
    assert_eq!(b.get("k"), Some("2".to_string()));
    assert_eq!(b.get("j"), Some("x".to_string()));
    assert_eq!(b.get("K"), None);
}

fn project(vars: Vec<(&str, VarSource)>) -> ProjectConfig {
    ProjectConfig {
        vars: vars
            .into_iter()
            .map(|(name, source)| Variable { name: name.to_string(), source })
            .collect(),
        dist: "dist".to_string(),
        src: vec![],
    }
}

#[test]
fn stack_takes_text_and_environment() {
    let config = project(vec![
        ("site", VarSource::Text("Example".to_string())),
        ("home", VarSource::Env("HOME_DIR".to_string())),
    ]);
    let env = bindings(&[("HOME_DIR", "/home/ann"), ("OTHER", "x")]);
    let stack = config.get_stack(&env).ok().unwrap();
    assert_eq!(stack.get("site"), Some("Example".to_string()));
    assert_eq!(stack.get("home"), Some("/home/ann".to_string()));
    assert_eq!(stack.get("HOME_DIR"), None);
    assert_eq!(stack.get("OTHER"), None);
}

#[test]
fn missing_environment_variable_is_an_error() {
    let config = project(vec![
        ("a", VarSource::Text("1".to_string())),
        ("b", VarSource::Env("FIRST_MISSING".to_string())),
        ("c", VarSource::Env("SECOND_MISSING".to_string())),
    ]);
    let env = bindings(&[("PRESENT", "x")]);
    match config.get_stack(&env) {
        Err(e) => assert_eq!(e, ConfigError::MissingEnv { name: "FIRST_MISSING".to_string() }),
        Ok(_) => panic!("the lookup should have failed"),
    }
}

#[test]
fn empty_configuration_gives_an_empty_scope() {
    let stack = project(vec![]).get_stack(&Bindings::new()).ok().unwrap();
    assert_eq!(stack.get("x"), None);
}
