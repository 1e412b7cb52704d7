use reveal_chain::{render, Context, Error};
use std::io;

fn not_found() -> io::Error {
    io::Error::new(io::ErrorKind::NotFound, "not found")
}

fn fresh() -> Box<Error<io::Error>> {
    Box::<Error<io::Error>>::from(not_found())
}

fn frame_of(e: &Error<io::Error>, i: usize) -> &Context {
    &e.context()[i]
}

#[test]
fn chain_from_cause_has_no_frames() {
    let e = fresh();
    assert_eq!(e.context().len(), 0);
    assert_eq!(e.source().kind(), io::ErrorKind::NotFound);
    assert_eq!(e.to_string(), "not found");
}

#[test]
fn push_context_appends_one_frame() {
    let mut e = fresh();
    e.push_context(
        "src/config.rs",
        42,
        "read_config",
        None,
        vec![("path", "\"/etc/app.toml\"".to_string())],
        "open_file (path)",
    );
    assert_eq!(e.context().len(), 1);
    let frame = frame_of(&e, 0);
    assert_eq!(frame.file(), "src/config.rs");
    assert_eq!(frame.line(), 42);
    assert_eq!(frame.func(), "read_config");
    assert_eq!(frame.self_ty(), None);
    assert_eq!(frame.args(), &vec![("path", "\"/etc/app.toml\"".to_string())]);
    assert_eq!(frame.source(), "open_file (path)");
    assert_eq!(e.source().kind(), io::ErrorKind::NotFound);
}

#[test]
fn push_context_keeps_older_frames_unchanged() {
    let mut e = fresh();
    e.push_context("a.rs", 1, "inner", None, vec![("x", "1".to_string())], "f (x)");
    let before = frame_of(&e, 0).to_string();
    e.push_context("b.rs", 2, "outer", Some("Outer"), vec![], "inner (x)");
    assert_eq!(e.context().len(), 2);
    assert_eq!(frame_of(&e, 0).to_string(), before);
    assert_eq!(frame_of(&e, 1).func(), "outer");
    assert_eq!(frame_of(&e, 1).self_ty(), Some("Outer"));
}

#[test]
fn three_nested_calls_give_three_frames_innermost_first() {
    // c fails, b propagates c's failure, a propagates b's.
    let mut e = fresh();
    e.push_context("lib.rs", 30, "c", None, vec![], "io_op ()");
    e.push_context("lib.rs", 20, "b", None, vec![], "c ()");
    e.push_context("lib.rs", 10, "a", None, vec![], "b ()");
    let funcs: Vec<&str> = e.context().iter().map(|f| f.func()).collect();
    assert_eq!(funcs, vec!["c", "b", "a"]);
    assert_eq!(
        e.to_string(),
        "not found\n\
         1: io_op ()\n\tin c()\n\tat lib.rs:30\n\
         2: c ()\n\tin b()\n\tat lib.rs:20\n\
         3: b ()\n\tin a()\n\tat lib.rs:10"
    );
}

#[test]
fn n_pushes_give_n_frames_in_push_order() {
    let mut e = fresh();
    for line in 0..25u32 {
        e.push_context("deep.rs", line, "level", None, vec![], "next ()");
        assert_eq!(e.context().len() as u32, line + 1);
    }
    for (i, frame) in e.context().iter().enumerate() {
        assert_eq!(frame.line() as usize, i);
    }
}

#[test]
fn read_config_scenario_records_path_function_and_source() {
    let path = "/etc/app.toml";
    let mut e = fresh();
    e.push_context(
        "src/config.rs",
        7,
        "readConfig",
        None,
        vec![("path", format!("{:?}", path))],
        "openFile (path)",
    );
    assert_eq!(e.context().len(), 1);
    let frame = frame_of(&e, 0);
    assert_eq!(frame.args().len(), 1);
    assert_eq!(frame.args()[0].0, "path");
    assert_eq!(frame.args()[0].1, "\"/etc/app.toml\"");
    assert_eq!(frame.func(), "readConfig");
    assert_eq!(frame.source(), "openFile (path)");
    assert_eq!(e.source().to_string(), "not found");
}

#[test]
fn minimal_chain_has_exactly_one_frame() {
    let e = Error::chain(not_found(), "src/net.rs", 12, "connect", Some("Client"));
    assert_eq!(e.context().len(), 1);
    let frame = &e.context()[0];
    assert_eq!(frame.file(), "src/net.rs");
    assert_eq!(frame.line(), 12);
    assert_eq!(frame.func(), "connect");
    assert_eq!(frame.self_ty(), Some("Client"));
    assert_eq!(frame.args().len(), 0);
    assert_eq!(frame.source(), "");
    assert_eq!(e.source().kind(), io::ErrorKind::NotFound);
}

#[test]
fn minimal_chain_around_a_chain_starts_afresh() {
    let mut entered = fresh();
    entered.push_context("a.rs", 1, "inner", None, vec![], "f ()");
    entered.push_context("a.rs", 2, "middle", None, vec![], "inner ()");
    let started = Error::chain(entered, "b.rs", 3, "outer", None);
    assert_eq!(started.context().len(), 1);
    assert_eq!(started.context()[0].func(), "outer");
    assert_eq!(started.source().context().len(), 2);
    assert_eq!(started.source().context()[1].func(), "middle");
}

#[test]
fn unwrap_hands_out_cause_and_frames() {
    let mut e = fresh();
    e.push_context("a.rs", 1, "inner", None, vec![("x", "1".to_string())], "f (x)");
    e.push_context("b.rs", 2, "outer", None, vec![], "inner (x)");
    let (cause, frames) = e.unwrap();
    assert_eq!(cause.kind(), io::ErrorKind::NotFound);
    assert_eq!(frames.len(), 2);
    assert_eq!(frames[0].func(), "inner");
    assert_eq!(frames[1].func(), "outer");
}

#[test]
fn rendering_of_the_parts_is_the_rendering_of_the_whole() {
    let mut e = fresh();
    e.push_context("a.rs", 1, "inner", Some("T"), vec![("x", "1".to_string())], "f (x)");
    e.push_context("b.rs", 2, "outer", None, vec![], "inner (x)");
    let whole = e.to_string();
    let (cause, frames) = e.unwrap();
    assert_eq!(render(&cause.to_string(), &frames), whole);
}

#[test]
fn render_without_frames_is_the_description() {
    assert_eq!(render("disk full", &vec![]), "disk full");
    assert_eq!(render("", &vec![]), "");
}

#[test]
fn frame_renders_source_function_captures_and_place() {
    let mut e = fresh();
    e.push_context(
        "src/store.rs",
        118,
        "put",
        None,
        vec![("key", "\"k1\"".to_string()), ("len", "3".to_string())],
        "self . write (key , value)",
    );
    assert_eq!(
        frame_of(&e, 0).to_string(),
        "self . write (key , value)\n\tin put(key = \"k1\", len = 3)\n\tat src/store.rs:118"
    );
}

#[test]
fn frame_renders_the_function_qualified_by_its_type() {
    let mut e = fresh();
    e.push_context("s.rs", 5, "send", Some("Client"), vec![("self", "Client".to_string())], "w ()");
    assert_eq!(frame_of(&e, 0).to_string(), "w ()\n\tin Client::send(self = Client)\n\tat s.rs:5");
}

#[test]
fn chain_renders_cause_then_numbered_frames() {
    let mut e = fresh();
    e.push_context("a.rs", 9, "inner", None, vec![("x", "1".to_string())], "f (x)");
    e.push_context("b.rs", 10, "outer", Some("T"), vec![], "inner (x)");
    assert_eq!(
        e.to_string(),
        "not found\n1: f (x)\n\tin inner(x = 1)\n\tat a.rs:9\n2: inner (x)\n\tin T::outer()\n\tat b.rs:10"
    );
}

#[test]
fn frame_numbers_count_from_one_and_past_nine() {
    let mut e = fresh();
    for _ in 0..11 {
        e.push_context("f.rs", 0, "g", None, vec![], "h ()");
    }
    let text = e.to_string();
    let lines: Vec<&str> = text.lines().collect();
    assert_eq!(lines.len(), 1 + 3 * 11);
    assert_eq!(lines[0], "not found");
    assert_eq!(lines[1], "1: h ()");
    assert_eq!(lines[25], "9: h ()");
    assert_eq!(lines[28], "10: h ()");
    assert_eq!(lines[31], "11: h ()");
    assert_eq!(lines[33], "\tat f.rs:0");
}

#[test]
fn line_numbers_render_in_decimal() {
    for (line, text) in [(0u32, "0"), (7, "7"), (10, "10"), (909, "909"), (4294967295, "4294967295")] {
        let mut e = fresh();
        e.push_context("f.rs", line, "g", None, vec![], "h ()");
        assert_eq!(frame_of(&e, 0).to_string(), format!("h ()\n\tin g()\n\tat f.rs:{}", text));
    }
}

#[test]
fn minimal_frame_renders_without_captures() {
    let e = Error::chain(not_found(), "src/net.rs", 12, "connect", Some("Client"));
    assert_eq!(e.to_string(), "not found\n1: \n\tin Client::connect()\n\tat src/net.rs:12");
}
