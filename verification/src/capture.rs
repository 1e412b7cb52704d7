//! The captures of an instrumented function: which labelled expressions are
//! snapshot at each of its propagation points.

use crate::directive::{found, ArgsReplace, EntryView, Override, OverrideEntry, OverrideView};
use crate::text::same_text;
use vstd::prelude::*;
use vstd::string::*;

verus! {

/// One declared parameter of a function, as far as capturing is concerned.
#[derive(Debug, Clone, PartialEq, Eq)]
pub enum Param {
    /// The receiver of a method.
    Receiver,
    /// A parameter bound to a plain name.
    Named(String),
    /// A parameter bound by a pattern that is no plain name.
    Pattern,
}

/// The mathematical value of a [`Param`].
pub enum ParamView {
    Receiver,
    Named(Seq<char>),
    Pattern,
}

impl View for Param {
    type V = ParamView;

    open spec fn view(&self) -> ParamView {
        match self {
            Param::Receiver => ParamView::Receiver,
            Param::Named(n) => ParamView::Named(n@),
            Param::Pattern => ParamView::Pattern,
        }
    }
}

impl DeepView for Param {
    type V = ParamView;

    open spec fn deep_view(&self) -> ParamView {
        self@
    }
}

/// One capture: the label under which a value is recorded, the text of the
/// expression that is evaluated for it, and the place in the override list
/// from which the expression comes, which is where its source location is;
/// a parameter that no entry names has no such place and is located where
/// it is declared.
#[derive(Debug, Clone, PartialEq, Eq)]
pub struct Capture {
    pub label: String,
    pub expr: String,
    pub origin: Option<usize>,
}

/// The mathematical value of a [`Capture`].
pub struct CaptureView {
    pub label: Seq<char>,
    pub expr: Seq<char>,
    pub origin: Option<usize>,
}

impl View for Capture {
    type V = CaptureView;

    open spec fn view(&self) -> CaptureView {
        CaptureView { label: self.label@, expr: self.expr@, origin: self.origin }
    }
}

impl DeepView for Capture {
    type V = CaptureView;

    open spec fn deep_view(&self) -> CaptureView {
        self@
    }
}

/// The name under which a parameter can be captured and overridden: `self`
/// for the receiver, its own name for a named parameter, none for a pattern.
pub open spec fn param_name(p: ParamView) -> Option<Seq<char>> {
    match p {
        ParamView::Receiver => Some("self"@),
        ParamView::Named(n) => Some(n),
        ParamView::Pattern => None,
    }
}

/// Whether `name` is the name of one of the parameters.
pub open spec fn declares(params: Seq<ParamView>, name: Seq<char>) -> bool {
    exists|i: int| 0 <= i < params.len() && param_name(#[trigger] params[i]) == Some(name)
}

/// The capture that `name` gives under the entry for it, if there is one:
/// none where the entry suppresses it, the replacement where the entry
/// holds one, the name itself otherwise; the capture comes from the place
/// of the entry.
pub open spec fn capture_of(name: Seq<char>, entry: Option<EntryView>) -> Seq<CaptureView> {
    match entry {
        None => seq![CaptureView { label: name, expr: name, origin: None }],
        Some(entry) => match entry.action {
            OverrideView::Suppress => Seq::empty(),
            OverrideView::Replace(e) => seq![
                CaptureView { label: name, expr: e, origin: Some(entry.at) },
            ],
            OverrideView::Keep => seq![
                CaptureView { label: name, expr: name, origin: Some(entry.at) },
            ],
        },
    }
}

/// The captures that one parameter gives.
pub open spec fn param_captures(p: ParamView, overrides: Seq<EntryView>) -> Seq<CaptureView> {
    match param_name(p) {
        Some(name) => capture_of(name, found(overrides, name)),
        None => Seq::empty(),
    }
}

/// The captures that the parameters give, in the order of the parameters.
pub open spec fn declared_captures(params: Seq<ParamView>, overrides: Seq<EntryView>) -> Seq<
    CaptureView,
>
    decreases params.len(),
{
    if params.len() == 0 {
        Seq::empty()
    } else {
        declared_captures(params.drop_last(), overrides) + param_captures(params.last(), overrides)
    }
}

/// The captures that one entry gives beside the parameters: none where a
/// parameter has its name.
pub open spec fn entry_captures(params: Seq<ParamView>, entry: EntryView) -> Seq<CaptureView> {
    if declares(params, entry.name) {
        Seq::empty()
    } else {
        capture_of(entry.name, Some(entry))
    }
}

/// The captures of the entries that name no parameter, in the order of the
/// entries.
pub open spec fn extra_captures(params: Seq<ParamView>, entries: Seq<EntryView>) -> Seq<
    CaptureView,
>
    decreases entries.len(),
{
    if entries.len() == 0 {
        Seq::empty()
    } else {
        extra_captures(params, entries.drop_last()) + entry_captures(params, entries.last())
    }
}

/// The captures of a function with the given parameters under the given
/// overrides: first those of the parameters, then those of the entries that
/// name no parameter.
pub open spec fn resolved(params: Seq<ParamView>, overrides: Seq<EntryView>) -> Seq<CaptureView> {
    declared_captures(params, overrides) + extra_captures(params, overrides)
}

impl Param {
    /// The name under which this parameter can be captured, if it has one.
    pub fn name(&self) -> (r: Option<String>)
        ensures
            r.deep_view() == param_name(self@),
    {
        match self {
            Param::Receiver => Some(String::from_str("self")),
            Param::Named(n) => Some(n.clone()),
            Param::Pattern => None,
        }
    }
}

/// Whether one of `params` is named `name`.
pub fn is_declared(params: &Vec<Param>, name: &str) -> (r: bool)
    ensures
        r == declares(params.deep_view(), name@),
{
    let mut i: usize = 0;
    while i < params.len()
        invariant
            i <= params.len(),
            forall|j: int| 0 <= j < i ==> param_name(#[trigger] params.deep_view()[j]) != Some(name@),
        decreases params.len() - i,
    {
        match params[i].name() {
            Some(n) => {
                if same_text(n.as_str(), name) {
                    assert(param_name(params.deep_view()[i as int]) == Some(name@));
                    return true;
                }
            },
            None => {},
        }
        i += 1;
    }
    false
}

fn push_capture(out: &mut Vec<Capture>, name: String, entry: Option<&OverrideEntry>)
    ensures
        final(out).deep_view() == old(out).deep_view() + capture_of(name@, entry.deep_view()),
{
    let ghost before = out.deep_view();
    let c = match entry {
        None => Capture { label: name.clone(), expr: name, origin: None },
        Some(entry) => match &entry.action {
            Override::Suppress => {
                assert(out.deep_view() =~= before + Seq::<CaptureView>::empty());
                return ;
            },
            Override::Replace(e) => Capture {
                label: name,
                expr: e.clone(),
                origin: Some(entry.at),
            },
            Override::Keep => Capture {
                label: name.clone(),
                expr: name,
                origin: Some(entry.at),
            },
        },
    };
    out.push(c);
    assert(out.deep_view() =~= before + seq![c@]);
}

/// Resolves the captures of a function: each named parameter and the
/// receiver under its own name, unless the overrides replace or suppress it,
/// then each entry of the overrides that names no parameter, in the order of
/// the entries.
pub fn collect_args(params: &Vec<Param>, overrides: &ArgsReplace) -> (args: Vec<Capture>)
    ensures
        args.deep_view() == resolved(params.deep_view(), overrides@),
{
    let mut args: Vec<Capture> = Vec::new();
    assert(args.deep_view() =~= Seq::<CaptureView>::empty());
    let mut i: usize = 0;
    while i < params.len()
        invariant
            i <= params.len(),
            args.deep_view() == declared_captures(params.deep_view().take(i as int), overrides@),
        decreases params.len() - i,
    {
        assert(params.deep_view().take(i + 1).drop_last() == params.deep_view().take(i as int));
        match params[i].name() {
            Some(name) => {
                let entry = overrides.entry(name.as_str());
                push_capture(&mut args, name, entry);
            },
            None => {
                assert(args.deep_view() + Seq::<CaptureView>::empty() =~= args.deep_view());
            },
        }
        i += 1;
    }
    assert(params.deep_view().take(i as int) == params.deep_view());
    let ghost declared = args.deep_view();
    let entries = overrides.entries();
    let mut k: usize = 0;
    while k < entries.len()
        invariant
            entries.deep_view() == overrides@,
            k <= overrides@.len(),
            args.deep_view() == declared + extra_captures(
                params.deep_view(),
                overrides@.take(k as int),
            ),
        decreases overrides@.len() - k,
    {
        assert(overrides@.take(k + 1).drop_last() == overrides@.take(k as int));
        let entry = &entries[k];
        if !is_declared(params, entry.name.as_str()) {
            push_capture(&mut args, entry.name.clone(), Some(entry));
        }
        assert(args.deep_view() =~= declared + (extra_captures(
            params.deep_view(),
            overrides@.take(k as int),
        ) + entry_captures(params.deep_view(), overrides@[k as int])));
        k += 1;
    }
    assert(overrides@.take(k as int) == overrides@);
    args
}

} // verus!
