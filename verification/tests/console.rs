use cachoeira::console::{ConsoleContext, ConsoleVar, ConsoleVarString};

#[test]
fn string_variable_takes_any_text() {
    let mut var = ConsoleVarString::new("one".to_string());
    assert_eq!(var.get(), "one");
    assert_eq!(var.set("two".to_string()), Ok(None));
    assert_eq!(var.get(), "two");
    assert_eq!(var.set(String::new()), Ok(None));
    assert_eq!(var.get(), "");
}

#[test]
fn empty_context_knows_no_variable() {
    let mut context = ConsoleContext::new();
    assert_eq!(context.query_var("volume"), None);
    assert_eq!(context.write_var("volume", "3"), None);
    assert_eq!(context.query_var("volume"), None);
    assert_eq!(ConsoleContext::default().query_var(""), None);
}

#[test]
fn added_variable_is_found_under_its_name() {
    let mut context = ConsoleContext::new();
    context.add_var("volume", ConsoleVarString::new("11".to_string()));
    context.add_var("name", ConsoleVarString::new("player".to_string()));
    assert_eq!(context.query_var("volume"), Some("11".to_string()));
    assert_eq!(context.query_var("name"), Some("player".to_string()));
    assert_eq!(context.query_var("Volume"), None);
    assert_eq!(context.query_var("volum"), None);
}

#[test]
fn writing_changes_the_named_variable_only() {
    let mut context = ConsoleContext::new();
    context.add_var("volume", ConsoleVarString::new("11".to_string()));
    context.add_var("name", ConsoleVarString::new("player".to_string()));
    assert_eq!(context.write_var("volume", "3"), Some(Ok(None)));
    assert_eq!(context.query_var("volume"), Some("3".to_string()));
    assert_eq!(context.query_var("name"), Some("player".to_string()));
    assert_eq!(context.write_var("missing", "3"), None);
    assert_eq!(context.query_var("missing"), None);
}

#[test]
fn adding_under_a_taken_name_replaces() {
    let mut context = ConsoleContext::new();
    context.add_var("volume", ConsoleVarString::new("11".to_string()));
    context.add_var("name", ConsoleVarString::new("player".to_string()));
    context.add_var("volume", ConsoleVarString::new("0".to_string()));
    assert_eq!(context.query_var("volume"), Some("0".to_string()));
    assert_eq!(context.query_var("name"), Some("player".to_string()));
}

#[test]
fn adding_can_be_chained() {
    let mut context = ConsoleContext::new();
    context
        .add_var("volume", ConsoleVarString::new("11".to_string()))
        .add_var("name", ConsoleVarString::new("player".to_string()))
        .add_var("volume", ConsoleVarString::new("2".to_string()));
    assert_eq!(context.query_var("volume"), Some("2".to_string()));
    assert_eq!(context.query_var("name"), Some("player".to_string()));
}
