//! Laws that relate several operations of the cursor, stated over its model.
use vstd::prelude::*;
use crate::model::LexView;

verus! {

/// Position after `k` single steps forward, each as `next` takes it.
pub open spec fn forward_steps<S, T>(v: LexView<S, T>, k: nat) -> nat
    decreases k,
{
    if k == 0 {
        v.position
    } else {
        v.at(forward_steps(v, (k - 1) as nat)).forward_one()
    }
}

/// Position after `k` single steps back, each as `prev` takes it.
pub open spec fn back_steps<S, T>(v: LexView<S, T>, k: nat) -> nat
    decreases k,
{
    if k == 0 {
        v.position
    } else {
        v.at(back_steps(v, (k - 1) as nat)).back_one()
    }
}

/// Stepping forward `k` times one symbol at a time ends where `next_by(k)` ends, and
/// stepping back `k` times ends where `prev_by(k)` ends.
pub proof fn lemma_steps_match_by<S, T>(v: LexView<S, T>, k: nat)
    requires
        v.valid(),
    ensures
        forward_steps(v, k) == v.forward_by(k),
        back_steps(v, k) == v.back_by(k),
    decreases k,
{
    if k > 0 {
        lemma_steps_match_by(v, (k - 1) as nat);
    }
}

/// Saturation: after more single steps forward than there are symbols, the cursor
/// stands at the last index, never beyond; after as many steps back, at zero.
pub proof fn lemma_steps_saturate<S, T>(v: LexView<S, T>, k: nat)
    requires
        v.valid(),
        k >= v.symbols.len(),
    ensures
        forward_steps(v, k) == v.max_position(),
        back_steps(v, k) == 0,
{
    lemma_steps_match_by(v, k);
}

/// Extracting a range does not depend on the order of its two bounds; so the text from
/// the mark is the same whether the mark or the position is the leftmost index.
pub proof fn lemma_range_order_free<S, T>(v: LexView<S, T>, a: nat, b: nat)
    requires
        v.valid(),
    ensures
        v.range_text(a, b) == v.range_text(b, a),
{
}

/// An extracted range holds exactly as many symbols as the index range it was asked
/// for, after clamping, and they are the symbols at those indices.
pub proof fn lemma_range_count<S, T>(v: LexView<S, T>, a: nat, b: nat)
    requires
        v.valid(),
    ensures
        ({
            let lo = if v.clamp(a) <= v.clamp(b) { v.clamp(a) } else { v.clamp(b) };
            let hi = if v.clamp(a) <= v.clamp(b) { v.clamp(b) } else { v.clamp(a) };
            &&& v.range_text(a, b).len() == hi - lo + 1
            &&& forall|i: int| 0 <= i <= hi - lo ==> v.range_text(a, b)[i] == v.symbols[lo + i]
        }),
{
}

/// Tracing is an overlay: tracing a line changes the log and nothing else. Every
/// operation's effect is stated as its change to the cursor followed by `logged`, so
/// its result and its effect on the rest of the cursor do not depend on tracing; in
/// particular a peek, whose change is none, leaves the position as it was.
pub proof fn lemma_trace_is_overlay<S, T>(v: LexView<S, T>, msg: Seq<char>)
    ensures
        v.logged(msg).symbols == v.symbols,
        v.logged(msg).position == v.position,
        v.logged(msg).marked == v.marked,
        v.logged(msg).state == v.state,
        v.logged(msg).tokens == v.tokens,
        v.logged(msg).collection == v.collection,
        v.logged(msg).tracing == v.tracing,
        !v.tracing ==> v.logged(msg) == v,
{
}

/// The token stack after pushing each of `ts` in turn onto `stack`.
pub open spec fn pushed_all<T>(stack: Seq<T>, ts: Seq<T>) -> Seq<T>
    decreases ts.len(),
{
    if ts.len() == 0 {
        stack
    } else {
        pushed_all(stack, ts.drop_last()).push(ts.last())
    }
}

/// Stack discipline: tokens pushed one by one come out of `token_consume` after the
/// ones already there, in the order they were pushed; and a pop right after a push
/// hands back the pushed token and leaves the stack as it was.
pub proof fn lemma_stack_discipline<T>(stack: Seq<T>, ts: Seq<T>, t: T)
    ensures
        pushed_all(stack, ts) == stack + ts,
        stack.push(t).last() == t,
        stack.push(t).drop_last() == stack,
    decreases ts.len(),
{
    if ts.len() > 0 {
        lemma_stack_discipline(stack, ts.drop_last(), t);
        assert(stack + ts =~= (stack + ts.drop_last()).push(ts.last()));
    }
    assert(stack.push(t).drop_last() =~= stack);
}

} // verus!
