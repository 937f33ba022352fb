//! Why the pointer made for a scope path addresses that scope: its tokens are
//! the steps of the path.

use crate::path::{emit, emit_all, is_current, step_of, translate, SEPARATOR};
use crate::pointer::{locate, replace_pair, resolve, tokens_of, unescape};
use crate::text::{lemma_split_join, split};
use crate::tree::Tree;
use vstd::prelude::*;

verus! {

/// The steps that segments stand for, one for each segment but the markers of
/// the current scope.
pub open spec fn steps_of(segments: Seq<Seq<char>>) -> Seq<Seq<char>>
    decreases segments.len(),
{
    if segments.len() == 0 {
        Seq::empty()
    } else if is_current(segments.last()) {
        steps_of(segments.drop_last())
    } else {
        steps_of(segments.drop_last()).push(step_of(segments.last()))
    }
}

/// The steps down the tree that a scope path takes from the root.
pub open spec fn steps(path: Seq<char>) -> Seq<Seq<char>> {
    if path.len() == 0 {
        Seq::empty()
    } else {
        steps_of(split(path, SEPARATOR))
    }
}

/// Each of `steps` after a separator.
pub open spec fn prefixed(steps: Seq<Seq<char>>) -> Seq<char>
    decreases steps.len(),
{
    if steps.len() == 0 {
        Seq::empty()
    } else {
        prefixed(steps.drop_last()) + (seq![SEPARATOR] + steps.last())
    }
}

/// Whether `c` occurs nowhere in `s`.
pub open spec fn free_of(s: Seq<char>, c: char) -> bool {
    forall|i: int| 0 <= i < s.len() ==> s[i] != c
}

/// What the segments add to a pointer is their steps, each after a separator.
proof fn lemma_emit_all(segments: Seq<Seq<char>>)
    ensures
        emit_all(segments) == prefixed(steps_of(segments)),
    decreases segments.len(),
{
    if segments.len() > 0 {
        lemma_emit_all(segments.drop_last());
        let before = steps_of(segments.drop_last());
        if is_current(segments.last()) {
            assert(emit_all(segments) =~= emit_all(segments.drop_last()));
        } else {
            assert(before.push(step_of(segments.last())).drop_last() =~= before);
        }
    }
}

/// Text without a separator, put behind a separator, is one more segment.
proof fn lemma_split_append(s: Seq<char>, t: Seq<char>)
    requires
        free_of(t, SEPARATOR),
    ensures
        split(s + (seq![SEPARATOR] + t), SEPARATOR) == split(s, SEPARATOR).push(t),
    decreases t.len(),
{
    let whole = s + (seq![SEPARATOR] + t);
    if t.len() == 0 {
        assert(whole.drop_last() =~= s);
        assert(t =~= Seq::<char>::empty());
    } else {
        let init = t.drop_last();
        lemma_split_append(s, init);
        assert(whole.drop_last() =~= s + (seq![SEPARATOR] + init));
        assert(whole.last() == t.last());
        let before = split(s, SEPARATOR).push(init);
        assert(before.drop_last() =~= split(s, SEPARATOR));
        assert(init.push(t.last()) =~= t);
    }
}

/// Steps without a separator in them are, after the empty first segment, the
/// segments of what they make.
proof fn lemma_split_prefixed(steps: Seq<Seq<char>>)
    requires
        forall|i: int| 0 <= i < steps.len() ==> free_of(#[trigger] steps[i], SEPARATOR),
    ensures
        split(prefixed(steps), SEPARATOR) == seq![Seq::<char>::empty()] + steps,
    decreases steps.len(),
{
    if steps.len() == 0 {
        assert(seq![Seq::<char>::empty()] + steps =~= seq![Seq::<char>::empty()]);
    } else {
        let init = steps.drop_last();
        lemma_split_prefixed(init);
        lemma_split_append(prefixed(init), steps.last());
        assert((seq![Seq::<char>::empty()] + init).push(steps.last()) =~= seq![
            Seq::<char>::empty(),
        ] + steps);
    }
}

/// Where the character to replace does not occur, nothing is replaced.
proof fn lemma_nothing_to_replace(s: Seq<char>, first: char, second: char, with: char)
    requires
        free_of(s, first),
    ensures
        replace_pair(s, first, second, with) == s,
    decreases s.len(),
{
    if s.len() > 0 {
        lemma_nothing_to_replace(s.skip(1), first, second, with);
        assert(seq![s[0]] + s.skip(1) =~= s);
    }
}

/// The steps of segments hold no character that the segments do not hold.
proof fn lemma_steps_free(segments: Seq<Seq<char>>, c: char, i: int)
    requires
        forall|j: int| 0 <= j < segments.len() ==> free_of(#[trigger] segments[j], c),
        0 <= i < steps_of(segments).len(),
    ensures
        free_of(steps_of(segments)[i], c),
    decreases segments.len(),
{
    if segments.len() > 0 {
        let init = segments.drop_last();
        assert(forall|j: int| 0 <= j < init.len() ==> init[j] == segments[j]);
        if i < steps_of(init).len() {
            lemma_steps_free(init, c, i);
        } else {
            assert(free_of(segments[segments.len() - 1], c));
        }
    }
}

/// The segments of a text hold no character that the text does not hold.
proof fn lemma_split_free(s: Seq<char>, c: char, i: int)
    requires
        free_of(s, c),
        0 <= i < split(s, SEPARATOR).len(),
    ensures
        free_of(split(s, SEPARATOR)[i], c),
    decreases s.len(),
{
    if s.len() > 0 {
        let rest = s.drop_last();
        let before = split(rest, SEPARATOR);
        lemma_split_join(rest, SEPARATOR);
        if i < before.len() - 1 {
            lemma_split_free(rest, c, i);
        } else if s.last() == SEPARATOR {
            if i < before.len() {
                lemma_split_free(rest, c, i);
            }
        } else {
            lemma_split_free(rest, c, before.len() - 1);
        }
    }
}

/// The pointer made for a scope path is a pointer, and where the path holds
/// no tilde its tokens are the steps of the path: the keys and indices that
/// the segments name, in order. So the pointer leads where the steps lead. A
/// tilde in the path may be read as the start of an escape; such a path is
/// left out.
pub proof fn lemma_pointer_of_path(path: Seq<char>, tree: Tree)
    requires
        free_of(path, '~'),
    ensures
        tokens_of(translate(path)) == Some(steps(path)),
        locate(tree, translate(path)) == resolve(tree, steps(path)),
{
    if path.len() > 0 {
        let segments = split(path, SEPARATOR);
        let taken = steps_of(segments);
        lemma_emit_all(segments);
        lemma_split_join(path, SEPARATOR);
        assert forall|i: int| 0 <= i < taken.len() implies free_of(
            #[trigger] taken[i],
            SEPARATOR,
        ) && free_of(taken[i], '~') by {
            assert forall|j: int| 0 <= j < segments.len() implies free_of(
                #[trigger] segments[j],
                '~',
            ) by {
                lemma_split_free(path, '~', j);
            }
            lemma_steps_free(segments, SEPARATOR, i);
            lemma_steps_free(segments, '~', i);
        }
        lemma_split_prefixed(taken);
        let pointer = translate(path);
        if taken.len() > 0 {
            let raw = split(pointer, SEPARATOR).skip(1);
            assert(raw =~= taken);
            assert forall|i: int| 0 <= i < raw.len() implies unescape(raw[i]) == taken[i] by {
                lemma_nothing_to_replace(raw[i], '~', '1', SEPARATOR);
                lemma_nothing_to_replace(raw[i], '~', '0', '~');
            }
            assert(Seq::new(raw.len(), |i: int| unescape(raw[i])) =~= taken);
            lemma_starts_with_separator(taken);
        }
    }
}

/// What steps make starts with a separator, if there is a step.
proof fn lemma_starts_with_separator(steps: Seq<Seq<char>>)
    requires
        steps.len() > 0,
    ensures
        prefixed(steps).len() > 0,
        prefixed(steps)[0] == SEPARATOR,
    decreases steps.len(),
{
    if steps.len() > 1 {
        lemma_starts_with_separator(steps.drop_last());
    } else {
        assert(prefixed(steps.drop_last()) =~= Seq::<char>::empty());
    }
}

} // verus!
