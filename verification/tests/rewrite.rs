use reveal_chain::{
    chain_err, error, walk_enters, ArgsReplace, Capture, ChainErr, Error, FnItem, ImplItem, Item,
    Node, Param, ParseError, ParseErrorKind, PushContext,
};

fn param_named(name: &str) -> Param {
    Param::Named(name.to_string())
}

fn capture_of(label: &str, expr: &str) -> Capture {
    Capture { label: label.to_string(), expr: expr.to_string(), origin: None }
}

fn written_at(label: &str, expr: &str, at: usize) -> Capture {
    Capture { label: label.to_string(), expr: expr.to_string(), origin: Some(at) }
}

fn function(ident: &str, params: Vec<Param>) -> FnItem {
    FnItem { ident: ident.to_string(), params }
}

fn attrs(names: &[&str]) -> Vec<String> {
    names.iter().map(|n| n.to_string()).collect()
}

#[test]
fn item_parse_reads_a_function() {
    let item = Item::parse("fn read_config(path: &str) -> Result<(), E> { open_file(path)?; Ok(()) }");
    assert_eq!(item, Ok(Item::Fn(function("read_config", vec![param_named("path")]))));
}

#[test]
fn item_parse_tells_receiver_names_and_patterns_apart() {
    let item = Item::parse(
        "pub async fn send(&mut self, mut msg: Msg, (a, b): (u8, u8), ref r: u8, _: u8, Wrap(w): Wrap) {}",
    );
    assert_eq!(
        item,
        Ok(Item::Fn(function(
            "send",
            vec![
                Param::Receiver,
                param_named("msg"),
                Param::Pattern,
                param_named("r"),
                Param::Pattern,
                Param::Pattern,
            ]
        )))
    );
}

#[test]
fn item_parse_reads_an_implementation_block() {
    let item = Item::parse("impl Client { fn send(&self) {} }");
    assert_eq!(item, Ok(Item::Impl(ImplItem { self_ty: "Client".to_string() })));
}

#[test]
fn item_parse_reads_the_type_of_a_trait_implementation() {
    let item = Item::parse("impl<T: Send> Transport for Client<T> { }");
    assert_eq!(item, Ok(Item::Impl(ImplItem { self_ty: "Client < T >".to_string() })));
}

#[test]
fn item_parse_rejects_other_constructs() {
    for text in ["struct Client { id: u32 }", "mod m { fn f() {} }", "fn f() {} fn g() {}", "fn f(", ""] {
        let rejected = Item::parse(text).unwrap_err();
        assert!(!rejected.as_fn.is_empty(), "{}", text);
        assert!(!rejected.as_impl.is_empty(), "{}", text);
    }
}

#[test]
fn item_parse_says_what_is_wrong_with_either_reading() {
    let rejected = Item::parse("struct Client { id: u32 }").unwrap_err();
    assert_eq!(rejected.as_fn, "expected `fn`");
    assert_eq!(rejected.as_impl, "expected `impl`");
    let by_syn = match syn::parse_str::<syn::ItemImpl>("struct Client { id: u32 }") {
        Ok(_) => panic!("an implementation block"),
        Err(e) => e.to_string(),
    };
    assert_eq!(rejected.as_impl, by_syn);
}

#[test]
fn item_select_prefers_the_function() {
    let f = function("f", vec![]);
    let i = ImplItem { self_ty: "T".to_string() };
    let no_fn = || Err("no fn".to_string());
    let no_impl = || Err("no impl".to_string());
    assert_eq!(Item::select(Ok(f.clone()), Ok(i.clone())), Ok(Item::Fn(f.clone())));
    assert_eq!(Item::select(Ok(f.clone()), no_impl()), Ok(Item::Fn(f)));
    assert_eq!(Item::select(no_fn(), Ok(i.clone())), Ok(Item::Impl(i)));
    assert_eq!(
        Item::select(no_fn(), no_impl()),
        Err(reveal_chain::Rejected { as_fn: "no fn".to_string(), as_impl: "no impl".to_string() })
    );
}

#[test]
fn walk_enters_rewritten_points_and_no_items() {
    assert!(walk_enters(Node::Point));
    assert!(!walk_enters(Node::Item));
}

#[test]
fn error_resolves_the_captures_of_the_function() {
    let item = function("send", vec![Param::Receiver, param_named("msg"), param_named("retries")]);
    let rewriter = error("msg = \"msg.len()\", retries = \"_\", peer = \"self.peer\"", &item).unwrap();
    assert_eq!(rewriter.func, "send");
    assert_eq!(
        rewriter.args,
        vec![
            capture_of("self", "self"),
            written_at("msg", "msg . len ()", 2),
            written_at("peer", "self . peer", 10),
        ]
    );
}

#[test]
fn error_with_empty_list_captures_every_parameter() {
    let item = function("read_config", vec![param_named("path")]);
    let rewriter = error("", &item).unwrap();
    assert_eq!(rewriter, PushContext {
            func: "read_config".to_string(),
            self_ty: None,
            args: vec![capture_of("path", "path")],
        });
}

#[test]
fn error_hands_on_the_fault_of_the_list() {
    let item = function("f", vec![param_named("a")]);
    assert_eq!(
        error("a = ", &item).unwrap_err(),
        ParseError { kind: ParseErrorKind::ExpectedString, at: 2 }
    );
    assert_eq!(
        error("a = \"let\"", &item).unwrap_err(),
        ParseError { kind: ParseErrorKind::InvalidExpression, at: 2 }
    );
}

#[test]
fn rich_rewrite_wraps_the_target() {
    let rewriter = PushContext {
        func: "read_config".to_string(),
        self_ty: None,
        args: vec![capture_of("path", "path"), capture_of("n", "buf . len ()")],
    };
    assert_eq!(
        rewriter.visit_expr_try_mut("open_file (path)"),
        "open_file (path).map_err(|__e| { let mut __e = Box::<::reveal::Error>::from(__e); \
         __e.push_context(file!(), line!(), \"read_config\", None, \
         vec![(\"path\", format!(\"{:?}\", path)), (\"n\", format!(\"{:?}\", buf . len ()))], \
         \"open_file (path)\"); __e })"
    );
}

#[test]
fn rich_rewrite_without_captures_pushes_an_empty_list() {
    let rewriter = PushContext { func: "f".to_string(), self_ty: None, args: vec![] };
    assert_eq!(
        rewriter.visit_expr_try_mut("g ()"),
        "g ().map_err(|__e| { let mut __e = Box::<::reveal::Error>::from(__e); \
         __e.push_context(file!(), line!(), \"f\", None, vec![], \"g ()\"); __e })"
    );
}

#[test]
fn rich_rewrite_names_the_type_where_it_is_known() {
    let rewriter = PushContext {
        func: "send".to_string(),
        self_ty: Some("Client".to_string()),
        args: vec![capture_of("self", "self")],
    };
    let text = rewriter.visit_expr_try_mut("w ()");
    assert_eq!(
        text,
        "w ().map_err(|__e| { let mut __e = Box::<::reveal::Error>::from(__e); \
         __e.push_context(file!(), line!(), \"send\", Some(::std::any::type_name::<Client>()), \
         vec![(\"self\", format!(\"{:?}\", self))], \"w ()\"); __e })"
    );
    assert!(syn::parse_str::<syn::Expr>(&text).is_ok());
}

#[test]
fn rich_rewrite_writes_the_source_text_as_a_literal() {
    let rewriter = PushContext { func: "f".to_string(), self_ty: None, args: vec![] };
    let text = rewriter.visit_expr_try_mut("open (\"a\\\\b\\n\")");
    assert!(text.starts_with("open (\"a\\\\b\\n\").map_err("));
    assert!(text.ends_with(", \"open (\\\"a\\\\\\\\b\\\\n\\\")\"); __e })"));
}

#[test]
fn rich_rewrite_is_an_expression_of_the_host_language() {
    let item = function("send", vec![Param::Receiver, param_named("msg")]);
    let rewriter = error("msg = \"msg.len()\", tag = \"\\\"a\\tb\\\"\"", &item).unwrap();
    let text = rewriter.visit_expr_try_mut("self . write (\"x\\n\" , msg)");
    let parsed = syn::parse_str::<syn::Expr>(&text).unwrap();
    match parsed {
        syn::Expr::MethodCall(call) => {
            assert_eq!(call.method.to_string(), "map_err");
            assert!(matches!(*call.receiver, syn::Expr::MethodCall(_)));
        }
        _ => panic!("not a method call: {}", text),
    }
}

#[test]
fn source_text_literal_reads_back_as_the_target() {
    let target = "open (\"a\\\\b\\n\\t\\0\" , '\\'' , \"é\")";
    let rewriter = PushContext { func: "f".to_string(), self_ty: None, args: vec![] };
    let text = rewriter.visit_expr_try_mut(target);
    let start = text.rfind("], ").unwrap() + 3;
    let end = text.rfind("); __e })").unwrap();
    let literal = syn::parse_str::<syn::LitStr>(&text[start..end]).unwrap();
    assert_eq!(literal.value(), target);
    let list = format!("t, u = {}", &text[start..end]);
    let overrides = ArgsReplace::parse(&list).unwrap();
    assert_eq!(overrides.get("u"), Some(&reveal_chain::Override::Replace(target.to_string())));
}

#[test]
fn read_config_scenario_generates_the_frame_of_the_call() {
    let item = match Item::parse("fn readConfig(path: &str) -> Result<Config> { let f = openFile(path)?; parse(f) }") {
        Ok(Item::Fn(f)) => f,
        other => panic!("not a function: {:?}", other),
    };
    let rewriter = error("", &item).unwrap();
    assert_eq!(rewriter.func, "readConfig");
    assert_eq!(rewriter.args, vec![capture_of("path", "path")]);
    let text = rewriter.visit_expr_try_mut("openFile (path)");
    assert!(text.contains("\"readConfig\""));
    assert!(text.contains("vec![(\"path\", format!(\"{:?}\", path))]"));
    assert!(text.contains(", \"openFile (path)\"); __e })"));
}

#[test]
fn client_send_scenario_generates_only_the_self_capture() {
    let item = match Item::parse("fn send(self, msg: Msg) -> Result<()> { self.io.write(msg)?; Ok(()) }") {
        Ok(Item::Fn(f)) => f,
        other => panic!("not a function: {:?}", other),
    };
    let rewriter = error("msg = \"_\"", &item).unwrap();
    assert_eq!(rewriter.args, vec![capture_of("self", "self")]);
    let text = rewriter.visit_expr_try_mut("self . io . write (msg)");
    assert!(text.contains("vec![(\"self\", format!(\"{:?}\", self))]"));
    assert!(!text.contains("\"msg\""));
}

#[test]
fn chain_err_on_a_function_starts_inside_it() {
    let rewriter = chain_err(&Item::Fn(function("connect", vec![param_named("addr")])));
    assert_eq!(rewriter, ChainErr { self_ty: None, ident: Some("connect".to_string()) });
}

#[test]
fn chain_err_on_an_implementation_block_starts_outside_any_function() {
    let rewriter = chain_err(&Item::Impl(ImplItem { self_ty: "Client".to_string() }));
    assert_eq!(rewriter, ChainErr { self_ty: Some("Client".to_string()), ident: None });
    assert_eq!(rewriter.visit_expr_try_mut("f ()"), None);
}

#[test]
fn chain_err_new_holds_what_it_is_given() {
    let rewriter = ChainErr::new(Some("T".to_string()), Some("f".to_string()));
    assert_eq!(rewriter.self_ty.as_deref(), Some("T"));
    assert_eq!(rewriter.ident.as_deref(), Some("f"));
}

#[test]
fn minimal_rewrite_in_a_function() {
    let rewriter = ChainErr::new(None, Some("connect".to_string()));
    assert_eq!(
        rewriter.visit_expr_try_mut("dial (addr)"),
        Some(
            "dial (addr).map_err(|err| ::reveal::Error::chain(err, file!(), line!(), \
             \"connect\", None))"
                .to_string()
        )
    );
}

#[test]
fn minimal_rewrite_in_a_method_names_the_type() {
    let rewriter = ChainErr::new(Some("Client < T >".to_string()), Some("send".to_string()));
    let text = rewriter.visit_expr_try_mut("self . write (msg)").unwrap();
    assert_eq!(
        text,
        "self . write (msg).map_err(|err| ::reveal::Error::chain(err, file!(), line!(), \
         \"send\", Some(::std::any::type_name::<Client < T >>())))"
    );
    assert!(syn::parse_str::<syn::Expr>(&text).is_ok());
}

#[test]
fn marked_method_is_entered_and_its_markers_are_found() {
    let mut rewriter = ChainErr::new(Some("Client".to_string()), None);
    let found = rewriter.visit_impl_item_fn_mut(&attrs(&["inline", "chain_err", "doc", "chain_err"]), "send");
    assert_eq!(found, vec![1, 3]);
    assert_eq!(rewriter.ident.as_deref(), Some("send"));
    assert_eq!(rewriter.self_ty.as_deref(), Some("Client"));
}

#[test]
fn unmarked_method_is_not_entered() {
    let mut rewriter = ChainErr::new(Some("Client".to_string()), None);
    assert_eq!(rewriter.visit_impl_item_fn_mut(&attrs(&["inline", "chain_error", ""]), "recv"), vec![]);
    assert_eq!(rewriter.ident, None);
    assert_eq!(rewriter.visit_impl_item_fn_mut(&attrs(&[]), "recv"), vec![]);
    assert_eq!(rewriter.ident, None);
}

#[test]
fn unmarked_method_leaves_the_state_of_the_last_marked_one() {
    let mut rewriter = ChainErr::new(Some("Client".to_string()), None);
    rewriter.visit_impl_item_fn_mut(&attrs(&["chain_err"]), "send");
    rewriter.visit_impl_item_fn_mut(&attrs(&["inline"]), "recv");
    assert_eq!(rewriter.ident.as_deref(), Some("send"));
    rewriter.visit_impl_item_fn_mut(&attrs(&["chain_err"]), "close");
    assert_eq!(rewriter.ident.as_deref(), Some("close"));
}

#[test]
fn three_level_scenario_pushes_what_the_rewriters_generate() {
    // A calls B, B calls C, and C's underlying operation fails; each level
    // pushes the frame that its rewriter writes into the generated code.
    let mut e = Box::<Error<String>>::from("boom".to_string());
    for (func, target, line) in [("c", "io_op ()", 3u32), ("b", "c ()", 2), ("a", "b ()", 1)] {
        let rewriter = error("", &function(func, vec![])).unwrap();
        let text = rewriter.visit_expr_try_mut(target);
        assert!(text.contains(&format!("\"{}\", None, vec![], \"{}\"", func, target)));
        let func: &'static str = Box::leak(rewriter.func.clone().into_boxed_str());
        let source: &'static str = Box::leak(target.to_string().into_boxed_str());
        e.push_context("lib.rs", line, func, None, vec![], source);
    }
    let funcs: Vec<&str> = e.context().iter().map(|f| f.func()).collect();
    assert_eq!(funcs, vec!["c", "b", "a"]);
    assert_eq!(e.context().len(), 3);
    assert_eq!(e.source(), "boom");
}

#[test]
fn overrides_parsed_from_text_drive_the_captures() {
    let list = ArgsReplace::parse("a = \"a * 2\"").unwrap();
    let captures = reveal_chain::collect_args(&vec![param_named("a")], &list);
    assert_eq!(captures, vec![written_at("a", "a * 2", 2)]);
}
