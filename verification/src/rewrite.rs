//! What a propagation point is replaced with. The walk over a function's
//! syntax tree is the caller's; for each construct and each propagation
//! point that it meets, the functions here decide what is done and write the
//! expression that takes the point's place.
//!
//! The expressions that are written name the chain by the path
//! `::reveal::Error`: the type that instrumented programs link against,
//! which holds an [`Error`](crate::chain::Error) around a boxed root cause,
//! converts any failure into a chain and a chain into itself, and offers
//! `push_context` and `chain` with the parameters of the functions here.

use crate::capture::{collect_args, resolved, Capture, CaptureView, Param, ParamView};
use crate::directive::{parsed, ArgsReplace, ParseError};
use crate::text::{push_quoted, quoted, same_text};
use quote::ToTokens;
use vstd::prelude::*;
use vstd::string::*;

verus! {

/// A function as far as instrumenting it is concerned: its name and its
/// parameters.
#[derive(Debug, Clone, PartialEq, Eq)]
pub struct FnItem {
    pub ident: String,
    pub params: Vec<Param>,
}

/// The mathematical value of a [`FnItem`].
pub struct FnItemView {
    pub ident: Seq<char>,
    pub params: Seq<ParamView>,
}

impl View for FnItem {
    type V = FnItemView;

    open spec fn view(&self) -> FnItemView {
        FnItemView { ident: self.ident@, params: self.params.deep_view() }
    }
}

impl DeepView for FnItem {
    type V = FnItemView;

    open spec fn deep_view(&self) -> FnItemView {
        self@
    }
}

/// An implementation block as far as instrumenting it is concerned: the
/// text of the type that it implements.
#[derive(Debug, Clone, PartialEq, Eq)]
pub struct ImplItem {
    pub self_ty: String,
}

/// The mathematical value of an [`ImplItem`].
pub struct ImplItemView {
    pub self_ty: Seq<char>,
}

impl View for ImplItem {
    type V = ImplItemView;

    open spec fn view(&self) -> ImplItemView {
        ImplItemView { self_ty: self.self_ty@ }
    }
}

impl DeepView for ImplItem {
    type V = ImplItemView;

    open spec fn deep_view(&self) -> ImplItemView {
        self@
    }
}

/// A construct that a directive can stand on.
#[derive(Debug, Clone, PartialEq, Eq)]
pub enum Item {
    Fn(FnItem),
    Impl(ImplItem),
}

/// The mathematical value of an [`Item`].
pub enum ItemView {
    Fn(FnItemView),
    Impl(ImplItemView),
}

impl View for Item {
    type V = ItemView;

    open spec fn view(&self) -> ItemView {
        match self {
            Item::Fn(f) => ItemView::Fn(f@),
            Item::Impl(i) => ItemView::Impl(i@),
        }
    }
}

impl DeepView for Item {
    type V = ItemView;

    open spec fn deep_view(&self) -> ItemView {
        self@
    }
}

/// Why a construct is neither a function nor an implementation block: what
/// is wrong with it as the one, and what as the other.
#[derive(Debug, Clone, PartialEq, Eq)]
pub struct Rejected {
    pub as_fn: String,
    pub as_impl: String,
}

/// The mathematical value of a [`Rejected`].
pub struct RejectedView {
    pub as_fn: Seq<char>,
    pub as_impl: Seq<char>,
}

impl View for Rejected {
    type V = RejectedView;

    open spec fn view(&self) -> RejectedView {
        RejectedView { as_fn: self.as_fn@, as_impl: self.as_impl@ }
    }
}

impl DeepView for Rejected {
    type V = RejectedView;

    open spec fn deep_view(&self) -> RejectedView {
        self@
    }
}

/// The mathematical value of an outcome: that of what was read, or that of
/// what is wrong.
pub open spec fn outcome<T: View, E: View>(r: Result<T, E>) -> Result<T::V, E::V> {
    match r {
        Ok(t) => Ok(t@),
        Err(e) => Err(e@),
    }
}

/// The function that `text` is, where it is one function of the host
/// language from its first token to its last, and what is wrong with it as
/// a function where it is not.
pub uninterp spec fn fn_item_of(text: Seq<char>) -> Result<FnItemView, Seq<char>>;

/// The implementation block that `text` is, where it is one such block from
/// its first token to its last, and what is wrong with it as a block where
/// it is not.
pub uninterp spec fn impl_item_of(text: Seq<char>) -> Result<ImplItemView, Seq<char>>;

/// Reads `text` as one function.
///
/// Trusted: the body calls `syn::parse_str::<syn::ItemFn>`, which lexes the
/// text with proc-macro2 and parses all of it as one function, or returns an
/// error, of which the message is handed on (`to_string`). Of the function
/// it hands on the name (`sig.ident`) and, for each parameter (`sig.inputs`,
/// in order), whether it is the receiver, a pattern that binds one name
/// (with that name), or another pattern. The crates are built without the
/// `proc-macro` feature, so lexing is proc-macro2's own in every process.
/// The contract claims that the outcome is a function of the text alone,
/// and gives that function its name.
#[verifier::external_body]
fn parse_fn_item(text: &str) -> (r: Result<FnItem, String>)
    ensures
        outcome(r) == fn_item_of(text@),
{
    let item = syn::parse_str::<syn::ItemFn>(text).map_err(|e| e.to_string())?;
    let params = item.sig.inputs.iter().map(|arg| match arg {
        syn::FnArg::Receiver(_) => Param::Receiver,
        syn::FnArg::Typed(typed) => match &*typed.pat {
            syn::Pat::Ident(pat) => Param::Named(pat.ident.to_string()),
            _ => Param::Pattern,
        },
    });
    Ok(FnItem { ident: item.sig.ident.to_string(), params: params.collect() })
}

/// Reads `text` as one implementation block.
///
/// Trusted: the body calls `syn::parse_str::<syn::ItemImpl>`, which lexes
/// the text with proc-macro2 and parses all of it as one implementation
/// block, or returns an error, of which the message is handed on
/// (`to_string`). Of the block it hands on the implementing type
/// (`self_ty`), written out with `ToTokens::to_token_stream` and
/// `to_string`. The crates are built without the `proc-macro` feature, so
/// lexing and writing are proc-macro2's own in every process. The contract
/// claims that the outcome is a function of the text alone, and gives that
/// function its name.
#[verifier::external_body]
fn parse_impl_item(text: &str) -> (r: Result<ImplItem, String>)
    ensures
        outcome(r) == impl_item_of(text@),
{
    match syn::parse_str::<syn::ItemImpl>(text) {
        Ok(item) => Ok(ImplItem { self_ty: item.self_ty.to_token_stream().to_string() }),
        Err(e) => Err(e.to_string()),
    }
}

/// The construct that a text is, given what reading it as a function and as
/// an implementation block gave: the function where it is one, else the
/// block where it is one, else the two faults together.
pub open spec fn selected(
    as_fn: Result<FnItemView, Seq<char>>,
    as_impl: Result<ImplItemView, Seq<char>>,
) -> Result<ItemView, RejectedView> {
    match as_fn {
        Ok(f) => Ok(ItemView::Fn(f)),
        Err(no_fn) => match as_impl {
            Ok(i) => Ok(ItemView::Impl(i)),
            Err(no_impl) => Err(RejectedView { as_fn: no_fn, as_impl: no_impl }),
        },
    }
}

impl Item {
    /// Chooses between the two readings of a construct: a function goes
    /// before an implementation block, and a construct that is neither is
    /// rejected with what is wrong with it as either.
    pub fn select(as_fn: Result<FnItem, String>, as_impl: Result<ImplItem, String>) -> (r: Result<
        Item,
        Rejected,
    >)
        ensures
            outcome(r) == selected(outcome(as_fn), outcome(as_impl)),
    {
        match as_fn {
            Ok(f) => Ok(Item::Fn(f)),
            Err(no_fn) => match as_impl {
                Ok(i) => Ok(Item::Impl(i)),
                Err(no_impl) => Err(Rejected { as_fn: no_fn, as_impl: no_impl }),
            },
        }
    }

    /// Reads the construct that a directive stands on: a function or an
    /// implementation block. Anything else is rejected.
    pub fn parse(text: &str) -> (r: Result<Item, Rejected>)
        ensures
            outcome(r) == selected(fn_item_of(text@), impl_item_of(text@)),
    {
        match parse_fn_item(text) {
            Ok(f) => Ok(Item::Fn(f)),
            Err(no_fn) => Item::select(Err(no_fn), parse_impl_item(text)),
        }
    }
}

/// A place that the walk over an instrumented body comes to.
#[derive(Debug, Clone, Copy, PartialEq, Eq, Structural)]
pub enum Node {
    /// A propagation point that has just been rewritten, with the target
    /// inside what took its place.
    Point,
    /// An item that is declared inside the body.
    Item,
}

/// Whether the walk goes on into a place: into a rewritten point, where the
/// target may hold points of its own; not into an item inside the body,
/// which is instrumented on its own if at all.
pub open spec fn enters(node: Node) -> bool {
    node is Point
}

/// Whether the walk goes on into `node`.
pub fn walk_enters(node: Node) -> (r: bool)
    ensures
        r == enters(node),
{
    match node {
        Node::Point => true,
        Node::Item => false,
    }
}

/// The text of one capture in the list that a frame is made with: the
/// label as a string literal, paired with the expression rendered for
/// debugging where the point is reached.
pub open spec fn capture_text(c: CaptureView) -> Seq<char> {
    "("@ + quoted(c.label) + ", format!(\"{:?}\", "@ + c.expr + "))"@
}

/// The texts of the captures, in order, separated by a comma and a space.
pub open spec fn captures_text(captures: Seq<CaptureView>) -> Seq<char>
    decreases captures.len(),
{
    if captures.len() == 0 {
        Seq::empty()
    } else if captures.len() == 1 {
        capture_text(captures[0])
    } else {
        captures_text(captures.drop_last()) + ", "@ + capture_text(captures.last())
    }
}

/// The type that a frame names, as an expression: the name of `self_ty`
/// where there is one.
pub open spec fn type_text(self_ty: Option<Seq<char>>) -> Seq<char> {
    match self_ty {
        Some(ty) => "Some(::std::any::type_name::<"@ + ty + ">())"@,
        None => "None"@,
    }
}

/// What takes the place of the propagation target `target` in a function
/// named `func`, of the type `self_ty` if any, that is instrumented with
/// `captures`: the target, and on its failure the conversion of the failure
/// to a chain, which keeps a chain that is one already, and the push of one
/// frame. The frame holds the call site's file and line, `func`, the type,
/// the captures and the text of the target.
pub open spec fn rich_text(
    target: Seq<char>,
    func: Seq<char>,
    self_ty: Option<Seq<char>>,
    captures: Seq<CaptureView>,
) -> Seq<char> {
    target
        + ".map_err(|__e| { let mut __e = Box::<::reveal::Error>::from(__e); __e.push_context(file!(), line!(), "@
        + quoted(func) + ", "@ + type_text(self_ty) + ", vec!["@ + captures_text(captures)
        + "], "@ + quoted(target) + "); __e })"@
}

/// What takes the place of the propagation target `target` in a function
/// named `func`, of the type `self_ty` if any, in minimal mode: the target,
/// and on its failure a new chain around the failure with one frame, which
/// holds the call site's file and line, `func` and the type.
pub open spec fn minimal_text(target: Seq<char>, func: Seq<char>, self_ty: Option<Seq<char>>) -> Seq<
    char,
> {
    target + ".map_err(|err| ::reveal::Error::chain(err, file!(), line!(), "@ + quoted(func)
        + ", "@ + type_text(self_ty) + "))"@
}

/// The state of the rich rewriter inside one function: the function's
/// name, the type that it belongs to, if that is known, and its captures.
#[derive(Debug, Clone, PartialEq, Eq)]
pub struct PushContext {
    pub func: String,
    pub self_ty: Option<String>,
    pub args: Vec<Capture>,
}

/// The mathematical value of a [`PushContext`].
pub struct PushContextView {
    pub func: Seq<char>,
    pub self_ty: Option<Seq<char>>,
    pub args: Seq<CaptureView>,
}

impl View for PushContext {
    type V = PushContextView;

    open spec fn view(&self) -> PushContextView {
        PushContextView {
            func: self.func@,
            self_ty: self.self_ty.deep_view(),
            args: self.args.deep_view(),
        }
    }
}

impl DeepView for PushContext {
    type V = PushContextView;

    open spec fn deep_view(&self) -> PushContextView {
        self@
    }
}

fn push_capture_text(out: &mut String, c: &Capture)
    ensures
        final(out)@ == old(out)@ + capture_text(c@),
{
    out.append("(");
    push_quoted(out, c.label.as_str());
    out.append(", format!(\"{:?}\", ");
    out.append(c.expr.as_str());
    out.append("))");
}

fn push_captures_text(out: &mut String, captures: &Vec<Capture>)
    ensures
        final(out)@ == old(out)@ + captures_text(captures.deep_view()),
{
    let ghost all = captures.deep_view();
    let mut i: usize = 0;
    while i < captures.len()
        invariant
            i <= captures.len(),
            all == captures.deep_view(),
            out@ == old(out)@ + captures_text(all.take(i as int)),
        decreases captures.len() - i,
    {
        assert(all.take(i + 1).drop_last() == all.take(i as int));
        assert(all.take(i + 1).last() == captures[i as int]@);
        if i > 0 {
            out.append(", ");
        }
        push_capture_text(out, &captures[i]);
        i += 1;
    }
    assert(all.take(i as int) == all);
}

fn push_type_text(out: &mut String, self_ty: &Option<String>)
    ensures
        final(out)@ == old(out)@ + type_text(self_ty.deep_view()),
{
    match self_ty {
        Some(ty) => {
            out.append("Some(::std::any::type_name::<");
            out.append(ty.as_str());
            out.append(">())");
        },
        None => {
            out.append("None");
        },
    }
}

impl PushContext {
    /// Rewrites one propagation point: given the text of its target, the
    /// text of the expression that takes the target's place.
    pub fn visit_expr_try_mut(&self, target: &str) -> (r: String)
        ensures
            r@ == rich_text(target@, self@.func, self@.self_ty, self@.args),
    {
        let mut out = String::from_str(target);
        out.append(
            ".map_err(|__e| { let mut __e = Box::<::reveal::Error>::from(__e); __e.push_context(file!(), line!(), ",
        );
        push_quoted(&mut out, self.func.as_str());
        out.append(", ");
        push_type_text(&mut out, &self.self_ty);
        out.append(", vec![");
        push_captures_text(&mut out, &self.args);
        out.append("], ");
        push_quoted(&mut out, target);
        out.append("); __e })");
        out
    }
}

/// The name by which a method of an implementation block asks to be
/// instrumented.
pub open spec fn marker() -> Seq<char> {
    "chain_err"@
}

/// The positions of the markers among the attribute names `attrs`, in
/// ascending order.
pub open spec fn marker_positions(attrs: Seq<Seq<char>>) -> Seq<usize>
    decreases attrs.len(),
{
    if attrs.len() == 0 {
        Seq::empty()
    } else if attrs.last() == marker() {
        marker_positions(attrs.drop_last()).push((attrs.len() - 1) as usize)
    } else {
        marker_positions(attrs.drop_last())
    }
}

/// The state of the minimal rewriter: the type of the implementation block
/// that it walks, if it walks one, and the name of the function that it is
/// in, if it is in one.
#[derive(Debug, Clone, PartialEq, Eq)]
pub struct ChainErr {
    pub self_ty: Option<String>,
    pub ident: Option<String>,
}

/// The mathematical value of a [`ChainErr`].
pub struct ChainErrView {
    pub self_ty: Option<Seq<char>>,
    pub ident: Option<Seq<char>>,
}

impl View for ChainErr {
    type V = ChainErrView;

    open spec fn view(&self) -> ChainErrView {
        ChainErrView { self_ty: self.self_ty.deep_view(), ident: self.ident.deep_view() }
    }
}

impl DeepView for ChainErr {
    type V = ChainErrView;

    open spec fn deep_view(&self) -> ChainErrView {
        self@
    }
}

/// The state after the rewriter has met a method named `ident` with the
/// attributes `attrs`: inside that method where it carries a marker,
/// unchanged where it carries none.
pub open spec fn entered(state: ChainErrView, attrs: Seq<Seq<char>>, ident: Seq<char>) -> ChainErrView {
    if marker_positions(attrs).len() > 0 {
        ChainErrView { self_ty: state.self_ty, ident: Some(ident) }
    } else {
        state
    }
}

/// What takes the place of the propagation target `target` in the state
/// `state`: nothing outside a function.
pub open spec fn minimal_rewrite(state: ChainErrView, target: Seq<char>) -> Option<Seq<char>> {
    match state.ident {
        Some(func) => Some(minimal_text(target, func, state.self_ty)),
        None => None,
    }
}

impl ChainErr {
    /// The rewriter for a construct of the given type and function name.
    pub fn new(self_ty: Option<String>, ident: Option<String>) -> (r: Self)
        ensures
            r@ == (ChainErrView { self_ty: self_ty.deep_view(), ident: ident.deep_view() }),
    {
        Self { self_ty, ident }
    }

    /// Rewrites one propagation point: given the text of its target, the
    /// text of the expression that takes the target's place. Outside a
    /// function there is none, and the point stays as it is.
    pub fn visit_expr_try_mut(&self, target: &str) -> (r: Option<String>)
        ensures
            r.deep_view() == minimal_rewrite(self@, target@),
    {
        match &self.ident {
            None => None,
            Some(func) => {
                let mut out = String::from_str(target);
                out.append(".map_err(|err| ::reveal::Error::chain(err, file!(), line!(), ");
                push_quoted(&mut out, func.as_str());
                out.append(", ");
                push_type_text(&mut out, &self.self_ty);
                out.append("))");
                Some(out)
            },
        }
    }

    /// Meets a method of the implementation block, named `ident` and
    /// carrying attributes of the names `attrs`. The result holds the
    /// positions of the markers among them, in ascending order. Where there
    /// is none, the method is not instrumented and the state stays as it is.
    /// Where there is one, the markers are to be taken off, and the points
    /// of the method are rewritten under its name.
    pub fn visit_impl_item_fn_mut(&mut self, attrs: &Vec<String>, ident: &str) -> (indices: Vec<
        usize,
    >)
        ensures
            indices@ == marker_positions(attrs.deep_view()),
            final(self)@ == entered(old(self)@, attrs.deep_view(), ident@),
    {
        let mut indices: Vec<usize> = Vec::new();
        let mut i: usize = 0;
        while i < attrs.len()
            invariant
                i <= attrs.len(),
                indices@ == marker_positions(attrs.deep_view().take(i as int)),
            decreases attrs.len() - i,
        {
            assert(attrs.deep_view().take(i + 1).drop_last() == attrs.deep_view().take(i as int));
            if same_text(attrs[i].as_str(), "chain_err") {
                indices.push(i);
            }
            i += 1;
        }
        assert(attrs.deep_view().take(i as int) == attrs.deep_view());
        if indices.len() > 0 {
            self.ident = Some(String::from_str(ident));
        }
        indices
    }
}

/// The rewriter that the minimal directive starts on a construct: in the
/// function, for a function; in no function yet, with the block's type, for
/// an implementation block.
pub open spec fn minimal_start(item: ItemView) -> ChainErrView {
    match item {
        ItemView::Fn(f) => ChainErrView { self_ty: None, ident: Some(f.ident) },
        ItemView::Impl(i) => ChainErrView { self_ty: Some(i.self_ty), ident: None },
    }
}

/// Starts the minimal directive on a construct.
pub fn chain_err(item: &Item) -> (r: ChainErr)
    ensures
        r@ == minimal_start(item@),
{
    match item {
        Item::Fn(f) => ChainErr::new(None, Some(f.ident.clone())),
        Item::Impl(i) => ChainErr::new(Some(i.self_ty.clone()), None),
    }
}

/// The rewriter that the rich directive with the override list `attr`
/// starts on the function `item`, which stands for itself and names no
/// type, or what is wrong with the list.
pub open spec fn rich_start(attr: Seq<char>, item: FnItemView) -> Result<PushContextView, ParseError> {
    match parsed(attr) {
        Err(e) => Err(e),
        Ok(overrides) => Ok(
            PushContextView {
                func: item.ident,
                self_ty: None,
                args: resolved(item.params, overrides),
            },
        ),
    }
}

/// Starts the rich directive with the override list `attr` on a function:
/// parses the list and resolves the function's captures under it.
pub fn error(attr: &str, item: &FnItem) -> (r: Result<PushContext, ParseError>)
    ensures
        match r {
            Ok(rewriter) => rich_start(attr@, item@) == Ok::<PushContextView, ParseError>(
                rewriter@,
            ),
            Err(e) => rich_start(attr@, item@) == Err::<PushContextView, ParseError>(e),
        },
{
    match ArgsReplace::parse(attr) {
        Err(e) => Err(e),
        Ok(overrides) => Ok(
            PushContext {
                func: item.ident.clone(),
                self_ty: None,
                args: collect_args(&item.params, &overrides),
            },
        ),
    }
}

} // verus!
