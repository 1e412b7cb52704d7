//! The run-time model of a failure that remembers where it was propagated:
//! a root cause and the frames pushed onto it, oldest first, and its
//! rendering as text.

use crate::text::{decimal, push_decimal};
use vstd::prelude::*;
use vstd::string::*;

verus! {

/// The mathematical value of a [`Context`]: one frame of a chain.
pub struct Frame {
    /// The source file of the propagation point.
    pub file: Seq<char>,
    /// Its line.
    pub line: u32,
    /// The function around it.
    pub func: Seq<char>,
    /// The type that the function belongs to, where the directive stood on
    /// an implementation block.
    pub self_ty: Option<Seq<char>>,
    /// The captures, each a label and the rendered value, in capture order.
    pub args: Seq<(Seq<char>, Seq<char>)>,
    /// The text of the expression whose failure was propagated.
    pub source: Seq<char>,
}

/// One frame of a chain, made where a propagation point saw a failure, and
/// never changed afterwards.
#[derive(Debug)]
pub struct Context {
    file: &'static str,
    line: u32,
    func: &'static str,
    self_ty: Option<&'static str>,
    args: Vec<(&'static str, String)>,
    source: &'static str,
}

impl View for Context {
    type V = Frame;

    closed spec fn view(&self) -> Frame {
        Frame {
            file: self.file@,
            line: self.line,
            func: self.func@,
            self_ty: self.self_ty.deep_view(),
            args: self.args.deep_view(),
            source: self.source@,
        }
    }
}

impl DeepView for Context {
    type V = Frame;

    open spec fn deep_view(&self) -> Frame {
        self@
    }
}

/// The function of a frame, with its type in front where it has one.
pub open spec fn qualified(frame: Frame) -> Seq<char> {
    match frame.self_ty {
        Some(ty) => ty + "::"@ + frame.func,
        None => frame.func,
    }
}

/// The captures as `label = value`, in order, separated by a comma and a
/// space.
pub open spec fn args_text(args: Seq<(Seq<char>, Seq<char>)>) -> Seq<char>
    decreases args.len(),
{
    if args.len() == 0 {
        Seq::empty()
    } else if args.len() == 1 {
        args[0].0 + " = "@ + args[0].1
    } else {
        args_text(args.drop_last()) + ", "@ + args.last().0 + " = "@ + args.last().1
    }
}

/// One frame as text: the source text, then on a line of its own the
/// function with the captures in parentheses, then on a line of its own
/// the file and the line.
pub open spec fn frame_text(frame: Frame) -> Seq<char> {
    frame.source + "\n\tin "@ + qualified(frame) + "("@ + args_text(frame.args) + ")\n\tat "@
        + frame.file + ":"@ + decimal(frame.line as nat)
}

/// The frames as text, oldest first, each on a new line behind its number,
/// counted from one.
pub open spec fn frames_text(frames: Seq<Frame>) -> Seq<char>
    decreases frames.len(),
{
    if frames.len() == 0 {
        Seq::empty()
    } else {
        frames_text(frames.drop_last()) + "\n"@ + decimal(frames.len()) + ": "@ + frame_text(
            frames.last(),
        )
    }
}

/// A chain as text: the description of the root cause, then the frames.
pub open spec fn chain_text(cause: Seq<char>, frames: Seq<Frame>) -> Seq<char> {
    cause + frames_text(frames)
}

fn push_args_text(out: &mut String, args: &Vec<(&'static str, String)>)
    ensures
        final(out)@ == old(out)@ + args_text(args.deep_view()),
{
    let ghost all = args.deep_view();
    let mut i: usize = 0;
    while i < args.len()
        invariant
            i <= args.len(),
            all == args.deep_view(),
            out@ == old(out)@ + args_text(all.take(i as int)),
        decreases args.len() - i,
    {
        assert(all.take(i + 1).drop_last() == all.take(i as int));
        assert(all.take(i + 1).last() == (args[i as int].0@, args[i as int].1@));
        if i > 0 {
            out.append(", ");
        }
        out.append(args[i].0);
        out.append(" = ");
        out.append(args[i].1.as_str());
        i += 1;
    }
    assert(all.take(i as int) == all);
}

impl Context {
    /// The source file of the propagation point.
    pub fn file(&self) -> (r: &'static str)
        ensures
            r@ == self@.file,
    {
        self.file
    }

    /// The line of the propagation point.
    pub fn line(&self) -> (r: u32)
        ensures
            r == self@.line,
    {
        self.line
    }

    /// The function around the propagation point.
    pub fn func(&self) -> (r: &'static str)
        ensures
            r@ == self@.func,
    {
        self.func
    }

    /// The type that the function belongs to, if the frame names one.
    pub fn self_ty(&self) -> (r: Option<&'static str>)
        ensures
            r.deep_view() == self@.self_ty,
    {
        self.self_ty
    }

    /// The captures, in capture order.
    pub fn args(&self) -> (r: &Vec<(&'static str, String)>)
        ensures
            r.deep_view() == self@.args,
    {
        &self.args
    }

    /// The text of the expression whose failure was propagated.
    pub fn source(&self) -> (r: &'static str)
        ensures
            r@ == self@.source,
    {
        self.source
    }

    fn push_text(&self, out: &mut String)
        ensures
            final(out)@ == old(out)@ + frame_text(self@),
    {
        out.append(self.source);
        out.append("\n\tin ");
        match self.self_ty {
            Some(ty) => {
                out.append(ty);
                out.append("::");
            },
            None => {},
        }
        out.append(self.func);
        out.append("(");
        push_args_text(out, &self.args);
        out.append(")\n\tat ");
        out.append(self.file);
        out.append(":");
        push_decimal(out, self.line as u64);
    }

    /// The frame as text.
    pub fn to_string(&self) -> (r: String)
        ensures
            r@ == frame_text(self@),
    {
        let mut out = String::new();
        self.push_text(&mut out);
        out
    }
}

/// Renders a chain: the description of its root cause, then each frame,
/// oldest first, behind its number.
pub fn render(cause: &str, frames: &Vec<Context>) -> (r: String)
    ensures
        r@ == chain_text(cause@, frames.deep_view()),
{
    let ghost all = frames.deep_view();
    let mut out = String::from_str(cause);
    let mut i: usize = 0;
    while i < frames.len()
        invariant
            i <= frames.len(),
            all == frames.deep_view(),
            out@ == cause@ + frames_text(all.take(i as int)),
        decreases frames.len() - i,
    {
        assert(all.take(i + 1).drop_last() == all.take(i as int));
        assert(all.take(i + 1).last() == frames[i as int]@);
        out.append("\n");
        push_decimal(&mut out, (i + 1) as u64);
        out.append(": ");
        frames[i].push_text(&mut out);
        i += 1;
    }
    assert(all.take(i as int) == all);
    out
}

/// A failure and the trail of the propagation points that it passed: one
/// root cause, which never changes, and frames, which are only ever added
/// at the end.
#[derive(Debug)]
pub struct Error<C> {
    source: C,
    context: Vec<Context>,
}

/// The frame of a minimal propagation point: place, function and type, no
/// captures and no source text.
pub open spec fn minimal_frame(
    file: Seq<char>,
    line: u32,
    func: Seq<char>,
    self_ty: Option<Seq<char>>,
) -> Frame {
    Frame { file, line, func, self_ty, args: Seq::empty(), source: Seq::empty() }
}

impl<C> Error<C> {
    /// The root cause.
    pub closed spec fn cause(&self) -> C {
        self.source
    }

    /// The frames, oldest first.
    pub closed spec fn frames(&self) -> Seq<Frame> {
        self.context.deep_view()
    }

    /// Whether the chain is new around `cause`: it holds `cause` and no
    /// frame.
    pub open spec fn is_new(&self, cause: C) -> bool {
        self.cause() == cause && self.frames() == Seq::<Frame>::empty()
    }

    /// Whether the chain is `before` with `frame` pushed: the same root
    /// cause, the same frames, and `frame` behind them.
    pub open spec fn extends(&self, before: Error<C>, frame: Frame) -> bool {
        self.cause() == before.cause() && self.frames() == before.frames().push(frame)
    }

    /// Whether the chain was started in minimal mode around `cause`: it
    /// holds `cause` and the one frame `frame`.
    pub open spec fn starts_with(&self, cause: C, frame: Frame) -> bool {
        self.cause() == cause && self.frames() == seq![frame]
    }

    /// The frames, oldest first.
    pub fn context(&self) -> (r: &Vec<Context>)
        ensures
            r.deep_view() == self.frames(),
    {
        &self.context
    }

    /// The root cause.
    pub fn source(&self) -> (r: &C)
        ensures
            *r == self.cause(),
    {
        &self.source
    }

    /// Takes the chain apart into its root cause and its frames.
    pub fn unwrap(self) -> (r: (C, Vec<Context>))
        ensures
            r.0 == self.cause(),
            r.1.deep_view() == self.frames(),
    {
        (self.source, self.context)
    }

    /// Pushes one frame to the end of the chain. The root cause and the
    /// frames that are there stay as they are.
    pub fn push_context(
        &mut self,
        file: &'static str,
        line: u32,
        func: &'static str,
        self_ty: Option<&'static str>,
        args: Vec<(&'static str, String)>,
        source: &'static str,
    )
        ensures
            final(self).extends(
                *old(self),
                (Frame {
                    file: file@,
                    line,
                    func: func@,
                    self_ty: self_ty.deep_view(),
                    args: args.deep_view(),
                    source: source@,
                }),
            ),
    {
        let ghost before = self.context.deep_view();
        let frame = Context { file, line, func, self_ty, args, source };
        self.context.push(frame);
        assert(self.context.deep_view() =~= before.push(frame@));
    }

    /// Starts a new chain around `cause` with one minimal frame, whatever
    /// `cause` is and whatever trail it may hold itself.
    pub fn chain(
        cause: C,
        file: &'static str,
        line: u32,
        func: &'static str,
        self_ty: Option<&'static str>,
    ) -> (r: Box<Error<C>>)
        ensures
            r.starts_with(cause, minimal_frame(file@, line, func@, self_ty.deep_view())),
    {
        let mut r = Box::<Error<C>>::from(cause);
        let args: Vec<(&'static str, String)> = Vec::new();
        assert(args.deep_view() =~= Seq::<(Seq<char>, Seq<char>)>::empty());
        proof {
            reveal_strlit("");
        }
        assert(""@ =~= Seq::<char>::empty());
        r.push_context(file, line, func, self_ty, args, "");
        r
    }
}

impl<C: std::fmt::Display> Error<C> {
    /// Whether `text` is a rendering of the chain: some description that
    /// the root cause gives of itself, followed by the frames.
    pub open spec fn rendered_as(&self, text: Seq<char>) -> bool {
        exists|cause: String| #[trigger]
            to_string_from_display_ensures::<C>(&self.cause(), cause) && text == chain_text(
                cause@,
                self.frames(),
            )
    }

    /// The chain as text: what the root cause says of itself, then each
    /// frame, oldest first, behind its number.
    pub fn to_string(&self) -> (r: String)
        ensures
            self.rendered_as(r@),
    {
        let cause = self.source.to_string();
        let r = render(cause.as_str(), &self.context);
        assert(to_string_from_display_ensures::<C>(&self.cause(), cause) && r@ == chain_text(
            cause@,
            self.frames(),
        ));
        r
    }
}

impl<C> From<C> for Box<Error<C>> {
    /// A chain with the root cause `cause` and no frame yet.
    fn from(cause: C) -> (r: Self)
        ensures
            r.is_new(cause),
    {
        let r = Box::new(Error { source: cause, context: Vec::new() });
        assert(r.context.deep_view() =~= Seq::<Frame>::empty());
        r
    }
}

/// What `from` gives is stated by its own contract, over the root cause and
/// the frames. No spec function names the chain itself: two vectors that
/// hold the same frames need not be the same value.
impl<C> vstd::std_specs::convert::FromSpecImpl<C> for Box<Error<C>> {
    open spec fn obeys_from_spec() -> bool {
        false
    }

    open spec fn from_spec(cause: C) -> Self {
        arbitrary()
    }
}

} // verus!
