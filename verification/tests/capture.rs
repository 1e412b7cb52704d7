use reveal_chain::{collect_args, ArgsReplace, Capture, Override, Param};

fn named(name: &str) -> Param {
    Param::Named(name.to_string())
}

fn capture(label: &str, expr: &str) -> Capture {
    Capture { label: label.to_string(), expr: expr.to_string(), origin: None }
}

fn written(label: &str, expr: &str, at: usize) -> Capture {
    Capture { label: label.to_string(), expr: expr.to_string(), origin: Some(at) }
}

/// The list with the given entries, the entry `i` written at the place `10 * i`.
fn overrides(entries: &[(&str, Override)]) -> ArgsReplace {
    let mut list = ArgsReplace::new();
    for (i, (name, action)) in entries.iter().enumerate() {
        list.insert(name.to_string(), action.clone(), 10 * i);
    }
    list
}

fn replace(expr: &str) -> Override {
    Override::Replace(expr.to_string())
}

#[test]
fn every_named_parameter_is_captured_under_its_name() {
    let params = vec![named("path"), named("mode")];
    assert_eq!(
        collect_args(&params, &ArgsReplace::new()),
        vec![capture("path", "path"), capture("mode", "mode")]
    );
}

#[test]
fn no_parameters_and_no_overrides_give_no_captures() {
    assert_eq!(collect_args(&vec![], &ArgsReplace::new()), vec![]);
}

#[test]
fn receiver_is_captured_as_self_and_comes_first() {
    let params = vec![Param::Receiver, named("msg")];
    assert_eq!(
        collect_args(&params, &ArgsReplace::new()),
        vec![capture("self", "self"), capture("msg", "msg")]
    );
}

#[test]
fn pattern_parameters_are_skipped() {
    let params = vec![named("a"), Param::Pattern, named("b"), Param::Pattern];
    assert_eq!(
        collect_args(&params, &ArgsReplace::new()),
        vec![capture("a", "a"), capture("b", "b")]
    );
}

#[test]
fn suppressed_parameter_is_not_captured() {
    let params = vec![named("user"), named("password")];
    let list = overrides(&[("password", Override::Suppress)]);
    assert_eq!(collect_args(&params, &list), vec![capture("user", "user")]);
}

#[test]
fn suppressed_receiver_is_not_captured() {
    let params = vec![Param::Receiver, named("msg")];
    let list = overrides(&[("self", Override::Suppress)]);
    assert_eq!(collect_args(&params, &list), vec![capture("msg", "msg")]);
}

#[test]
fn suppressing_a_name_that_is_no_parameter_adds_nothing() {
    let params = vec![named("a")];
    let list = overrides(&[("b", Override::Suppress)]);
    assert_eq!(collect_args(&params, &list), vec![capture("a", "a")]);
}

#[test]
fn replaced_parameter_is_captured_by_its_replacement() {
    let params = vec![named("buf"), named("n")];
    let list = overrides(&[("buf", replace("buf . len ()"))]);
    assert_eq!(
        collect_args(&params, &list),
        vec![written("buf", "buf . len ()", 0), capture("n", "n")]
    );
}

#[test]
fn replaced_receiver_keeps_the_label_self() {
    let params = vec![Param::Receiver];
    let list = overrides(&[("self", replace("self . id"))]);
    assert_eq!(collect_args(&params, &list), vec![written("self", "self . id", 0)]);
}

#[test]
fn kept_parameter_is_captured_as_by_default() {
    let params = vec![named("a"), named("b")];
    let list = overrides(&[("b", Override::Keep)]);
    assert_eq!(collect_args(&params, &list), vec![capture("a", "a"), written("b", "b", 0)]);
}

#[test]
fn overrides_of_other_names_follow_the_parameters_in_written_order() {
    let params = vec![named("a"), named("b")];
    let list = overrides(&[
        ("zone", replace("ZONE")),
        ("b", replace("b + 1")),
        ("attempt", Override::Keep),
        ("a", Override::Suppress),
        ("origin", replace("self . origin ()")),
    ]);
    assert_eq!(
        collect_args(&params, &list),
        vec![
            written("b", "b + 1", 10),
            written("zone", "ZONE", 0),
            written("attempt", "attempt", 20),
            written("origin", "self . origin ()", 40),
        ]
    );
}

#[test]
fn an_override_can_fill_in_for_a_pattern_parameter() {
    let params = vec![Param::Pattern];
    let list = overrides(&[("x", Override::Keep), ("y", replace("y * 2"))]);
    assert_eq!(collect_args(&params, &list), vec![written("x", "x", 0), written("y", "y * 2", 10)]);
}

#[test]
fn override_of_self_without_receiver_is_an_extra_capture() {
    let params = vec![named("a")];
    let list = overrides(&[("self", replace("1"))]);
    assert_eq!(collect_args(&params, &list), vec![capture("a", "a"), written("self", "1", 0)]);
}

#[test]
fn client_send_with_suppressed_msg_captures_only_self() {
    let params = vec![Param::Receiver, named("msg")];
    let list = ArgsReplace::parse("msg = \"_\"").unwrap();
    let captures = collect_args(&params, &list);
    assert_eq!(captures, vec![capture("self", "self")]);
    assert!(captures.iter().all(|c| c.label != "msg"));
}

#[test]
fn param_name_is_self_for_the_receiver() {
    assert_eq!(Param::Receiver.name(), Some("self".to_string()));
    assert_eq!(named("x").name(), Some("x".to_string()));
    assert_eq!(Param::Pattern.name(), None);
}
