//! Laws that hold of every tracker, stated over the model the tracker contract uses.
use vstd::prelude::*;

use crate::message::MessageView;
use crate::tracker::{
    after_add, after_delete, has_id, lemma_unique_push, lemma_unique_remove,
    lookup, position_of, unique_ids,
};

verus! {

/// The retained messages after adding each message of `ms`, in order, to `s`.
pub open spec fn after_adds(s: Seq<MessageView>, ms: Seq<MessageView>, cap: nat) -> Seq<
    MessageView,
>
    decreases ms.len(),
{
    if ms.len() == 0 {
        s
    } else {
        after_add(after_adds(s, ms.drop_last(), cap), ms.last(), cap)
    }
}

/// Any run of adds starting within the capacity ends within the capacity, with
/// identifiers still distinct.
pub proof fn lemma_capacity_bound(s: Seq<MessageView>, ms: Seq<MessageView>, cap: nat)
    requires
        s.len() <= cap,
        unique_ids(s),
    ensures
        after_adds(s, ms, cap).len() <= cap,
        unique_ids(after_adds(s, ms, cap)),
    decreases ms.len(),
{
    if ms.len() > 0 {
        lemma_capacity_bound(s, ms.drop_last(), cap);
        let t = after_adds(s, ms.drop_last(), cap);
        let m = ms.last();
        if !has_id(t, m.id) {
            lemma_unique_push(t, m);
            if t.len() + 1 > cap {
                lemma_unique_remove(t.push(m), 0);
                assert(t.push(m).drop_first() =~= t.push(m).remove(0));
            }
        }
    }
}

/// Adding messages with distinct identifiers, no more than the capacity, to an empty
/// tracker retains exactly them, in the order they were added.
pub proof fn lemma_fifo_order(ms: Seq<MessageView>, cap: nat)
    requires
        unique_ids(ms),
        ms.len() <= cap,
    ensures
        after_adds(Seq::empty(), ms, cap) == ms,
    decreases ms.len(),
{
    if ms.len() > 0 {
        let init = ms.drop_last();
        assert(unique_ids(init));
        lemma_fifo_order(init, cap);
        let m = ms.last();
        if has_id(init, m.id) {
            let i = choose|i: int| 0 <= i < init.len() && #[trigger] init[i].id == m.id;
            assert(ms[i].id == ms[ms.len() - 1].id);
        }
        assert(init.push(m) =~= ms);
    }
}

/// Adding a message whose identifier is already held changes nothing, whatever its
/// other fields hold.
pub proof fn lemma_duplicate_absorbed(s: Seq<MessageView>, m: MessageView, cap: nat)
    requires
        has_id(s, m.id),
    ensures
        after_add(s, m, cap) == s,
        lookup(after_add(s, m, cap), m.id) == lookup(s, m.id),
{
}

/// Adding a new message to a full tracker evicts the oldest message, which can no
/// longer be found, and appends the new one.
pub proof fn lemma_eviction(s: Seq<MessageView>, m: MessageView, cap: nat)
    requires
        unique_ids(s),
        s.len() == cap,
        cap > 0,
        !has_id(s, m.id),
    ensures
        after_add(s, m, cap) == s.drop_first().push(m),
        after_add(s, m, cap).len() == cap,
        !has_id(after_add(s, m, cap), s[0].id),
        lookup(after_add(s, m, cap), s[0].id) is None,
{
    let t = after_add(s, m, cap);
    assert(t =~= s.drop_first().push(m));
    if has_id(t, s[0].id) {
        let i = choose|i: int| 0 <= i < t.len() && #[trigger] t[i].id == s[0].id;
        if i < t.len() - 1 {
            assert(t[i] == s[i + 1]);
            assert(s[i + 1].id == s[0].id);
        }
    }
}

/// Deleting a held identifier removes exactly that message: one message fewer, the
/// identifier can no longer be found, and the others keep their relative order.
pub proof fn lemma_delete_consistency(s: Seq<MessageView>, id: Seq<char>)
    requires
        unique_ids(s),
        has_id(s, id),
    ensures
        after_delete(s, id).len() == s.len() - 1,
        !has_id(after_delete(s, id), id),
        lookup(after_delete(s, id), id) is None,
        after_delete(s, id) == s.subrange(0, position_of(s, id)) + s.subrange(
            position_of(s, id) + 1,
            s.len() as int,
        ),
{
    let p = position_of(s, id);
    let t = after_delete(s, id);
    assert(0 <= p < s.len() && s[p].id == id);
    assert(t =~= s.subrange(0, p) + s.subrange(p + 1, s.len() as int));
    if has_id(t, id) {
        let i = choose|i: int| 0 <= i < t.len() && #[trigger] t[i].id == id;
        let j = if i < p { i } else { i + 1 };
        assert(t[i] == s[j]);
    }
}

/// Deleting an identifier and adding a message with it again puts that message at the
/// back, as a fresh arrival.
pub proof fn lemma_reinsert_after_delete(s: Seq<MessageView>, m: MessageView, cap: nat)
    requires
        unique_ids(s),
        s.len() <= cap,
        has_id(s, m.id),
    ensures
        after_add(after_delete(s, m.id), m, cap) == after_delete(s, m.id).push(m),
        after_add(after_delete(s, m.id), m, cap).last() == m,
        after_add(after_delete(s, m.id), m, cap).len() == s.len(),
{
    lemma_delete_consistency(s, m.id);
}

} // verus!
