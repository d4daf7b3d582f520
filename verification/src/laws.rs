//! Laws of the container's logical content, stated over the view that the
//! operation contracts use: a stack's content is a sequence of elements
//! (payload bytes, alignment, descriptor); `push` appends to it,
//! `remove_last` drops its last element, and `peek` reads its last element.

use vstd::prelude::*;
use crate::stack::ElemView;

verus! {

/// What repeatedly peeking and removing observes: the last element, then
/// whatever draining the rest observes.
pub open spec fn drain_trace(v: Seq<ElemView>) -> Seq<ElemView>
    decreases v.len(),
{
    if v.len() == 0 {
        Seq::empty()
    } else {
        seq![v.last()] + drain_trace(v.drop_last())
    }
}

/// The content after removing the last element `r` times (stopping early on
/// an empty stack, as `remove_last` does).
pub open spec fn remove_n(v: Seq<ElemView>, r: nat) -> Seq<ElemView>
    decreases r,
{
    if r == 0 || v.len() == 0 {
        v
    } else {
        remove_n(v.drop_last(), (r - 1) as nat)
    }
}

/// Law: pushing an element and then peeking yields that element, and
/// removing it restores the previous content — the stack is last-in,
/// first-out.
pub proof fn lemma_push_then_pop(v: Seq<ElemView>, e: ElemView)
    ensures
        v.push(e).last() == e,
        v.push(e).drop_last() == v,
{
    assert(v.push(e).drop_last() =~= v);
}

/// Law: pushing values and then repeatedly peeking and removing yields them
/// most-recent-first — the drain trace of any content is its reverse.
pub proof fn lemma_drain_trace_is_reverse(v: Seq<ElemView>)
    ensures
        drain_trace(v) == v.reverse(),
    decreases v.len(),
{
    if v.len() == 0 {
        assert(drain_trace(v) =~= v.reverse());
    } else {
        lemma_drain_trace_is_reverse(v.drop_last());
        assert(drain_trace(v) =~= v.reverse());
    }
}

/// Law: draining observes every stored element exactly once — no
/// duplicates, no omissions. Teardown, which destroys elements in this
/// order, therefore destroys each element exactly once.
pub proof fn lemma_drain_trace_complete(v: Seq<ElemView>)
    ensures
        drain_trace(v).to_multiset() == v.to_multiset(),
{
    lemma_drain_trace_is_reverse(v);
    v.lemma_reverse_to_multiset();
}

/// Law: `m` pushes followed by `r` removals (`r` at most the total) leave
/// exactly `m - r` of the pushed elements, the earliest ones.
pub proof fn lemma_len_after_pushes_and_removals(v: Seq<ElemView>, r: nat)
    requires
        r <= v.len(),
    ensures
        remove_n(v, r).len() == v.len() - r,
        remove_n(v, r) == v.take(v.len() - r),
    decreases r,
{
    if r == 0 {
        assert(v.take(v.len() as int) =~= v);
    } else {
        lemma_len_after_pushes_and_removals(v.drop_last(), (r - 1) as nat);
        assert(v.drop_last().take(v.len() - r) =~= v.take(v.len() - r));
    }
}

/// Law: immediately after a push, the last element reads back as exactly
/// the pushed payload, alignment and descriptor — the round trip through
/// the arena is the identity.
pub proof fn lemma_push_round_trip(
    v: Seq<ElemView>,
    bytes: Seq<u8>,
    align: usize,
    descr: usize,
)
    ensures
        v.push((bytes, align, descr)).last() == (bytes, align, descr),
        v.push((bytes, align, descr)).last().0 == bytes,
{
}

} // verus!
