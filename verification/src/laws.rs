//! Properties that relate several functions of the library, each stated
//! over the spec functions that the functions' own contracts use.

use crate::capture::{
    capture_of, declared_captures, declares, entry_captures, extra_captures, param_captures,
    param_name, resolved, CaptureView, ParamView,
};
use crate::chain::{chain_text, frame_text, frames_text, Error, Frame};
use crate::directive::{
    asked, behind_entry, distinct_names, entry_at, found, inserted, lookup, names, parsed_from,
    position, EntryView, OverrideView, TokenView,
};
use crate::rewrite::{marker, marker_positions};
use crate::text::decimal;
use vstd::prelude::*;
use vstd::string::*;

verus! {

/// A failure that is propagated through a nest of rich calls ends as a
/// chain of exactly as many frames as there are calls, in call order from
/// the innermost outwards, around the root cause with which it started.
/// `states[0]` is the chain as the conversion of the root cause made it,
/// and `states[k + 1]` is the chain after the call `k`, counted from the
/// innermost, has pushed `pushed[k]`.
pub proof fn lemma_nested_propagation<C>(cause: C, states: Seq<Error<C>>, pushed: Seq<Frame>)
    requires
        states.len() == pushed.len() + 1,
        states[0].is_new(cause),
        forall|k: int|
            0 <= k < pushed.len() ==> (#[trigger] states[k + 1]).extends(states[k], pushed[k]),
    ensures
        states.last().frames() == pushed,
        states.last().frames().len() == pushed.len(),
        states.last().cause() == cause,
{
    lemma_nested_prefix(cause, states, pushed, pushed.len() as int);
    assert(pushed.take(pushed.len() as int) == pushed);
}

proof fn lemma_nested_prefix<C>(cause: C, states: Seq<Error<C>>, pushed: Seq<Frame>, k: int)
    requires
        states.len() == pushed.len() + 1,
        states[0].is_new(cause),
        forall|j: int|
            0 <= j < pushed.len() ==> (#[trigger] states[j + 1]).extends(states[j], pushed[j]),
        0 <= k <= pushed.len(),
    ensures
        states[k].frames() == pushed.take(k),
        states[k].cause() == cause,
    decreases k,
{
    if k == 0 {
        assert(pushed.take(0) == Seq::<Frame>::empty());
    } else {
        lemma_nested_prefix(cause, states, pushed, k - 1);
        assert(states[(k - 1) + 1].extends(states[k - 1], pushed[k - 1]));
        assert(pushed.take(k) == pushed.take(k - 1).push(pushed[k - 1]));
    }
}

/// A push only adds: the chain after it holds one frame more, every frame
/// that was there is still there, at its place and unchanged, and the new
/// frame is the last.
pub proof fn lemma_push_keeps_frames<C>(before: Error<C>, after: Error<C>, frame: Frame)
    requires
        after.extends(before, frame),
    ensures
        after.cause() == before.cause(),
        after.frames().len() == before.frames().len() + 1,
        forall|i: int|
            0 <= i < before.frames().len() ==> #[trigger] after.frames()[i] == before.frames()[i],
        after.frames().last() == frame,
{
}

/// A chain that minimal mode has started holds exactly one frame, whatever
/// trail the failure that entered had: that failure, trail and all, is the
/// new chain's root cause.
pub proof fn lemma_minimal_chain_is_fresh<C>(
    entered: Box<Error<C>>,
    started: Error<Box<Error<C>>>,
    frame: Frame,
)
    requires
        started.starts_with(entered, frame),
    ensures
        started.frames().len() == 1,
        started.frames()[0] == frame,
        started.cause().frames() == entered.frames(),
{
}

/// The rendering of a chain that has been taken apart is a rendering of
/// the chain: where `cause` and `frames` are the parts that `unwrap` hands
/// out, `description` is what that cause says of itself, and `text` is what
/// `render` makes of the description and the frames, `text` is what
/// `to_string` may give for the whole.
pub proof fn lemma_decompose_keeps_rendering<C: std::fmt::Display>(
    whole: Error<C>,
    cause: C,
    frames: Seq<Frame>,
    description: String,
    text: Seq<char>,
)
    requires
        cause == whole.cause(),
        frames == whole.frames(),
        to_string_from_display_ensures::<C>(&cause, description),
        text == chain_text(description@, frames),
    ensures
        whole.rendered_as(text),
{
}

/// In a list without a name twice, the entry found under a name is the
/// only one of that name.
pub proof fn lemma_lookup_at(entries: Seq<EntryView>, i: int)
    requires
        distinct_names(entries),
        0 <= i < entries.len(),
    ensures
        found(entries, entries[i].name) == Some(entries[i]),
        lookup(entries, entries[i].name) == Some(entries[i].action),
{
    let name = entries[i].name;
    assert(names(entries, name));
    let p = position(entries, name);
    assert(entries[p].name == name);
    if p < i {
        assert(entries[p].name != entries[i].name);
    } else if i < p {
        assert(entries[i].name != entries[p].name);
    }
}

proof fn lemma_declared_labels(
    params: Seq<ParamView>,
    overrides: Seq<EntryView>,
    i: int,
)
    requires
        0 <= i < declared_captures(params, overrides).len(),
    ensures
        capture_of(
            declared_captures(params, overrides)[i].label,
            found(overrides, declared_captures(params, overrides)[i].label),
        ) == seq![declared_captures(params, overrides)[i]],
        declares(params, declared_captures(params, overrides)[i].label),
    decreases params.len(),
{
    let front = declared_captures(params.drop_last(), overrides);
    let back = param_captures(params.last(), overrides);
    if i < front.len() {
        lemma_declared_labels(params.drop_last(), overrides, i);
        let label = front[i].label;
        let j = choose|j: int|
            0 <= j < params.drop_last().len() && param_name(#[trigger] params.drop_last()[j])
                == Some(label);
        assert(param_name(params[j]) == Some(label));
    } else {
        assert(declared_captures(params, overrides)[i] == back[i - front.len()]);
        assert(param_name(params[params.len() - 1]) == Some(back[0].label));
    }
}

proof fn lemma_extra_labels(
    params: Seq<ParamView>,
    overrides: Seq<EntryView>,
    k: int,
    i: int,
)
    requires
        distinct_names(overrides),
        0 <= k <= overrides.len(),
        0 <= i < extra_captures(params, overrides.take(k)).len(),
    ensures
        capture_of(
            extra_captures(params, overrides.take(k))[i].label,
            found(overrides, extra_captures(params, overrides.take(k))[i].label),
        ) == seq![extra_captures(params, overrides.take(k))[i]],
        !declares(params, extra_captures(params, overrides.take(k))[i].label),
    decreases k,
{
    let taken = overrides.take(k);
    assert(taken.drop_last() == overrides.take(k - 1));
    let front = extra_captures(params, overrides.take(k - 1));
    let back = entry_captures(params, taken.last());
    if i < front.len() {
        lemma_extra_labels(params, overrides, k - 1, i);
    } else {
        assert(extra_captures(params, taken)[i] == back[i - front.len()]);
        assert(taken.last() == overrides[k - 1]);
        lemma_lookup_at(overrides, k - 1);
    }
}

/// Every capture of a function is what its label gives under the
/// overrides: the label is captured as the overrides say of it, or, where
/// they say nothing of it, as itself.
pub proof fn lemma_capture_follows_override(
    params: Seq<ParamView>,
    overrides: Seq<EntryView>,
    i: int,
)
    requires
        distinct_names(overrides),
        0 <= i < resolved(params, overrides).len(),
    ensures
        capture_of(
            resolved(params, overrides)[i].label,
            found(overrides, resolved(params, overrides)[i].label),
        ) == seq![resolved(params, overrides)[i]],
{
    let front = declared_captures(params, overrides);
    if i < front.len() {
        lemma_declared_labels(params, overrides, i);
    } else {
        assert(overrides.take(overrides.len() as int) == overrides);
        lemma_extra_labels(params, overrides, overrides.len() as int, i - front.len());
    }
}

/// A name that the overrides suppress labels no capture, whether or not it
/// is a declared parameter.
pub proof fn lemma_suppressed_is_never_captured(
    params: Seq<ParamView>,
    overrides: Seq<EntryView>,
    name: Seq<char>,
)
    requires
        distinct_names(overrides),
        lookup(overrides, name) == Some(OverrideView::Suppress),
    ensures
        forall|c: CaptureView| #[trigger] resolved(params, overrides).contains(c) ==> c.label != name,
{
    let all = resolved(params, overrides);
    assert forall|c: CaptureView| #[trigger] all.contains(c) implies c.label != name by {
        let i = choose|i: int| 0 <= i < all.len() && all[i] == c;
        lemma_capture_follows_override(params, overrides, i);
    }
}

proof fn lemma_declared_has(
    params: Seq<ParamView>,
    overrides: Seq<EntryView>,
    j: int,
)
    requires
        0 <= j < params.len(),
        param_name(params[j]) is Some,
        lookup(overrides, param_name(params[j])->0) != Some(OverrideView::Suppress),
    ensures
        exists|i: int|
            0 <= i < declared_captures(params, overrides).len() && (#[trigger] declared_captures(
                params,
                overrides,
            )[i]).label == param_name(params[j])->0,
    decreases params.len(),
{
    let front = declared_captures(params.drop_last(), overrides);
    let back = param_captures(params.last(), overrides);
    if j < params.len() - 1 {
        lemma_declared_has(params.drop_last(), overrides, j);
        let i = choose|i: int|
            0 <= i < front.len() && (#[trigger] front[i]).label == param_name(params[j])->0;
        assert(declared_captures(params, overrides)[i] == front[i]);
    } else {
        assert(back.len() == 1);
        assert(declared_captures(params, overrides)[front.len() as int] == back[0]);
    }
}

proof fn lemma_extra_has(
    params: Seq<ParamView>,
    overrides: Seq<EntryView>,
    k: int,
    j: int,
)
    requires
        0 <= j < k <= overrides.len(),
        !declares(params, overrides[j].name),
        overrides[j].action != OverrideView::Suppress,
    ensures
        exists|i: int|
            0 <= i < extra_captures(params, overrides.take(k)).len() && (#[trigger] extra_captures(
                params,
                overrides.take(k),
            )[i]).label == overrides[j].name,
    decreases k,
{
    let taken = overrides.take(k);
    assert(taken.drop_last() == overrides.take(k - 1));
    let front = extra_captures(params, overrides.take(k - 1));
    let back = entry_captures(params, taken.last());
    if j < k - 1 {
        lemma_extra_has(params, overrides, k - 1, j);
        let i = choose|i: int|
            0 <= i < front.len() && (#[trigger] front[i]).label == overrides[j].name;
        assert(extra_captures(params, taken)[i] == front[i]);
    } else {
        assert(taken.last() == overrides[j]);
        assert(back.len() == 1);
        assert(extra_captures(params, taken)[front.len() as int] == back[0]);
    }
}

/// A name that the overrides replace by an expression is captured, and
/// every capture that it labels holds that expression, not the name, and
/// comes from the place at which the replacement was written.
pub proof fn lemma_replacement_is_captured(
    params: Seq<ParamView>,
    overrides: Seq<EntryView>,
    name: Seq<char>,
    expr: Seq<char>,
)
    requires
        distinct_names(overrides),
        lookup(overrides, name) == Some(OverrideView::Replace(expr)),
    ensures
        resolved(params, overrides).contains(
            CaptureView { label: name, expr, origin: Some(found(overrides, name)->0.at) },
        ),
        forall|c: CaptureView|
            #[trigger] resolved(params, overrides).contains(c) && c.label == name ==> c.expr
                == expr && c.origin == Some(found(overrides, name)->0.at),
{
    let all = resolved(params, overrides);
    let wanted = CaptureView { label: name, expr, origin: Some(found(overrides, name)->0.at) };
    assert forall|c: CaptureView| #[trigger] all.contains(c) && c.label == name implies c.expr
        == expr && c.origin == wanted.origin by {
        let i = choose|i: int| 0 <= i < all.len() && all[i] == c;
        lemma_capture_follows_override(params, overrides, i);
        assert(seq![all[i]][0] == wanted);
    }
    let front = declared_captures(params, overrides);
    if declares(params, name) {
        let j = choose|j: int|
            0 <= j < params.len() && param_name(#[trigger] params[j]) == Some(name);
        lemma_declared_has(params, overrides, j);
        let i = choose|i: int| 0 <= i < front.len() && (#[trigger] front[i]).label == name;
        assert(all[i] == front[i]);
        lemma_capture_follows_override(params, overrides, i);
        assert(seq![all[i]][0] == wanted);
    } else {
        let j = position(overrides, name);
        assert(overrides.take(overrides.len() as int) == overrides);
        lemma_extra_has(params, overrides, overrides.len() as int, j);
        let extra = extra_captures(params, overrides);
        let i = choose|i: int| 0 <= i < extra.len() && (#[trigger] extra[i]).label == name;
        assert(all[front.len() + i] == extra[i]);
        lemma_capture_follows_override(params, overrides, front.len() + i);
        assert(seq![all[front.len() + i]][0] == wanted);
    }
}

/// A frame that is pushed adds its text behind the text that was there: the
/// rendering of the chain before stays as it is, and the new frame follows
/// under the next number.
pub proof fn lemma_push_extends_rendering(cause: Seq<char>, frames: Seq<Frame>, frame: Frame)
    ensures
        chain_text(cause, frames.push(frame)) == chain_text(cause, frames) + "\n"@ + decimal(
            frames.len() + 1,
        ) + ": "@ + frame_text(frame),
{
    assert(frames.push(frame).drop_last() == frames);
    let head = frames_text(frames);
    let tail = "\n"@ + decimal(frames.len() + 1) + ": "@ + frame_text(frame);
    assert(frames_text(frames.push(frame)) == head + "\n"@ + decimal(frames.len() + 1) + ": "@
        + frame_text(frame));
    assert(cause + (head + "\n"@ + decimal(frames.len() + 1) + ": "@ + frame_text(frame)) == cause
        + head + "\n"@ + decimal(frames.len() + 1) + ": "@ + frame_text(frame));
}

/// After `name` has been given an action, the list says that action of
/// `name` and of every other name what it said before, and a list without
/// a name twice stays one.
pub proof fn lemma_inserted(
    entries: Seq<EntryView>,
    name: Seq<char>,
    action: OverrideView,
    at: usize,
    other: Seq<char>,
)
    requires
        distinct_names(entries),
    ensures
        distinct_names(inserted(entries, name, action, at)),
        found(inserted(entries, name, action, at), name) == Some(EntryView { name, action, at }),
        lookup(inserted(entries, name, action, at), name) == Some(action),
        other != name ==> found(inserted(entries, name, action, at), other) == found(
            entries,
            other,
        ),
        other != name ==> lookup(inserted(entries, name, action, at), other) == lookup(
            entries,
            other,
        ),
{
    let after = inserted(entries, name, action, at);
    let new = EntryView { name, action, at };
    if names(entries, name) {
        let p = position(entries, name);
        assert(after[p] == new);
        assert forall|i: int| 0 <= i < entries.len() implies (#[trigger] after[i]).name
            == entries[i].name by {}
        lemma_lookup_at(after, p);
        if other != name {
            if names(entries, other) {
                let q = position(entries, other);
                assert(after[q] == entries[q]);
                lemma_lookup_at(after, q);
                lemma_lookup_at(entries, q);
            } else {
                if names(after, other) {
                    let q = position(after, other);
                    assert(entries[q].name == other);
                }
            }
        }
    } else {
        let n = entries.len() as int;
        assert(after[n] == new);
        assert forall|i: int, j: int| 0 <= i < j < after.len() implies (#[trigger] after[i]).name
            != (#[trigger] after[j]).name by {
            if j == n {
                assert(after[i] == entries[i]);
            } else {
                assert(after[i] == entries[i] && after[j] == entries[j]);
            }
        }
        lemma_lookup_at(after, n);
        if other != name {
            if names(entries, other) {
                let q = position(entries, other);
                assert(after[q] == entries[q]);
                lemma_lookup_at(after, q);
                lemma_lookup_at(entries, q);
            } else {
                if names(after, other) {
                    let q = position(after, other);
                    assert(q < n);
                    assert(entries[q].name == other);
                }
            }
        }
    }
}

/// What the entries from the place `i` on say of `name`, where `before` is
/// what was said of it before them: what the last of them that is named
/// `name` asks for, and `before` where none is.
pub open spec fn said(
    tokens: Seq<TokenView>,
    i: int,
    name: Seq<char>,
    before: Option<OverrideView>,
) -> Option<OverrideView>
    decreases tokens.len() - i,
{
    if i < 0 || i >= tokens.len() {
        before
    } else {
        match entry_at(tokens, i) {
            Err(_) => before,
            Ok((entry, behind)) => match asked(entry) {
                Err(_) => before,
                Ok(action) => {
                    let now = if entry.name == name {
                        Some(action)
                    } else {
                        before
                    };
                    match behind_entry(tokens, behind) {
                        Ok(Some(next)) => said(tokens, next, name, now),
                        _ => now,
                    }
                },
            },
        }
    }
}

/// Of the written entries for one name the last one counts: where the
/// entries from the place `i` on, added to a list without a name twice, are
/// accepted, the list that they give holds no name twice and says of every
/// name what the last entry of that name asks for, or, where they do not
/// write the name, what the list said before.
pub proof fn lemma_last_entry_counts(
    tokens: Seq<TokenView>,
    i: int,
    before: Seq<EntryView>,
    name: Seq<char>,
)
    requires
        distinct_names(before),
        parsed_from(tokens, i, before) is Ok,
    ensures
        distinct_names(parsed_from(tokens, i, before)->Ok_0),
        lookup(parsed_from(tokens, i, before)->Ok_0, name) == said(
            tokens,
            i,
            name,
            lookup(before, name),
        ),
    decreases tokens.len() - i,
{
    if 0 <= i < tokens.len() {
        let entry = entry_at(tokens, i)->Ok_0.0;
        let behind = entry_at(tokens, i)->Ok_0.1;
        let action = asked(entry)->Ok_0;
        let after = inserted(before, entry.name, action, entry.at);
        lemma_inserted(before, entry.name, action, entry.at, name);
        match behind_entry(tokens, behind) {
            Ok(Some(next)) => {
                lemma_last_entry_counts(tokens, next, after, name);
            },
            _ => {},
        }
    }
}

/// An entry `name = "_"` keeps its name out of the captures: where a list
/// is accepted and the last entry that it holds for a name suppresses it,
/// no capture of a function instrumented under the list is labelled with
/// that name, whatever the function's parameters are.
pub proof fn lemma_written_suppression(
    tokens: Seq<TokenView>,
    name: Seq<char>,
    params: Seq<ParamView>,
)
    requires
        parsed_from(tokens, 0, Seq::empty()) is Ok,
        said(tokens, 0, name, None) == Some(OverrideView::Suppress),
    ensures
        forall|c: CaptureView|
            #[trigger] resolved(params, parsed_from(tokens, 0, Seq::empty())->Ok_0).contains(c)
                ==> c.label != name,
{
    lemma_last_entry_counts(tokens, 0, Seq::empty(), name);
    lemma_suppressed_is_never_captured(params, parsed_from(tokens, 0, Seq::empty())->Ok_0, name);
}

/// An entry `name = "expr"` puts the expression in the name's place: where
/// a list is accepted and the last entry that it holds for a name replaces
/// it by an expression, a function instrumented under the list captures
/// that expression under the name, and nothing else under it.
pub proof fn lemma_written_replacement(
    tokens: Seq<TokenView>,
    name: Seq<char>,
    expr: Seq<char>,
    params: Seq<ParamView>,
)
    requires
        parsed_from(tokens, 0, Seq::empty()) is Ok,
        said(tokens, 0, name, None) == Some(OverrideView::Replace(expr)),
    ensures
        exists|c: CaptureView|
            #[trigger] resolved(params, parsed_from(tokens, 0, Seq::empty())->Ok_0).contains(c)
                && c.label == name,
        forall|c: CaptureView|
            #[trigger] resolved(params, parsed_from(tokens, 0, Seq::empty())->Ok_0).contains(c)
                && c.label == name ==> c.expr == expr,
{
    lemma_last_entry_counts(tokens, 0, Seq::empty(), name);
    lemma_replacement_is_captured(
        params,
        parsed_from(tokens, 0, Seq::empty())->Ok_0,
        name,
        expr,
    );
}

/// The positions of the markers are exactly those of the attributes that
/// are markers, each once and in ascending order, for as many attributes as
/// a vector can hold.
pub proof fn lemma_marker_positions(attrs: Seq<Seq<char>>)
    requires
        attrs.len() <= usize::MAX,
    ensures
        forall|k: int|
            0 <= k < marker_positions(attrs).len() ==> (#[trigger] marker_positions(attrs)[k])
                < attrs.len() && attrs[marker_positions(attrs)[k] as int] == marker(),
        forall|k: int, l: int|
            0 <= k < l < marker_positions(attrs).len() ==> (#[trigger] marker_positions(attrs)[k])
                < (#[trigger] marker_positions(attrs)[l]),
        forall|i: int|
            0 <= i < attrs.len() && #[trigger] attrs[i] == marker() ==> exists|k: int|
                0 <= k < marker_positions(attrs).len() && #[trigger] marker_positions(attrs)[k]
                    == i,
    decreases attrs.len(),
{
    if attrs.len() > 0 {
        let front = attrs.drop_last();
        let found = marker_positions(front);
        lemma_marker_positions(front);
        let all = marker_positions(attrs);
        assert forall|k: int| 0 <= k < found.len() implies #[trigger] all[k] == found[k] by {}
        assert forall|i: int| 0 <= i < attrs.len() && #[trigger] attrs[i] == marker() implies (
            exists|k: int| 0 <= k < all.len() && #[trigger] all[k] == i) by {
            if i < attrs.len() - 1 {
                assert(front[i] == attrs[i]);
                let k = choose|k: int| 0 <= k < found.len() && #[trigger] found[k] == i;
                assert(all[k] == i);
            } else {
                assert(all[all.len() - 1] == i);
            }
        }
        assert forall|k: int| 0 <= k < all.len() implies (#[trigger] all[k]) < attrs.len()
            && attrs[all[k] as int] == marker() by {
            if k < found.len() {
                assert(front[found[k] as int] == attrs[found[k] as int]);
            }
        }
    }
}

} // verus!
