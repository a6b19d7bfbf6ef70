//! The tracker contract, stated over a sequence model of the retained messages.
use vstd::prelude::*;

use crate::message::{Message, MessageView};

verus! {

/// Whether some message in `s` carries the identifier `id`.
pub open spec fn has_id(s: Seq<MessageView>, id: Seq<char>) -> bool {
    exists|i: int| 0 <= i < s.len() && #[trigger] s[i].id == id
}

/// No two messages in `s` share an identifier.
pub open spec fn unique_ids(s: Seq<MessageView>) -> bool {
    forall|i: int, j: int|
        0 <= i < s.len() && 0 <= j < s.len() && #[trigger] s[i].id == #[trigger] s[j].id ==> i == j
}

/// The position of the message with identifier `id` in `s` (meaningful when `has_id(s, id)`).
pub open spec fn position_of(s: Seq<MessageView>, id: Seq<char>) -> int {
    choose|i: int| 0 <= i < s.len() && #[trigger] s[i].id == id
}

/// The message of `s` with identifier `id`, if there is one.
pub open spec fn lookup(s: Seq<MessageView>, id: Seq<char>) -> Option<MessageView> {
    if has_id(s, id) {
        Some(s[position_of(s, id)])
    } else {
        None
    }
}

/// The retained messages after adding `m` to `s` under capacity `cap`: a known identifier
/// leaves `s` as it is; a new message goes to the back, and the front one leaves when
/// the capacity would be exceeded.
pub open spec fn after_add(s: Seq<MessageView>, m: MessageView, cap: nat) -> Seq<MessageView> {
    if has_id(s, m.id) {
        s
    } else if s.len() + 1 > cap {
        s.push(m).drop_first()
    } else {
        s.push(m)
    }
}

/// The retained messages after deleting the message with identifier `id` from `s`.
pub open spec fn after_delete(s: Seq<MessageView>, id: Seq<char>) -> Seq<MessageView> {
    if has_id(s, id) {
        s.remove(position_of(s, id))
    } else {
        s
    }
}

/// The models of a sequence of messages.
pub open spec fn views(s: Seq<Message>) -> Seq<MessageView> {
    s.map_values(|m: Message| m@)
}

/// The model of an optional message.
pub open spec fn view_opt(r: Option<Message>) -> Option<MessageView> {
    match r {
        Some(m) => Some(m@),
        None => None,
    }
}

/// Appending a message with a new identifier keeps identifiers distinct.
pub proof fn lemma_unique_push(s: Seq<MessageView>, m: MessageView)
    requires
        unique_ids(s),
        !has_id(s, m.id),
    ensures
        unique_ids(s.push(m)),
{
    let t = s.push(m);
    assert forall|i: int, j: int|
        0 <= i < t.len() && 0 <= j < t.len() && #[trigger] t[i].id == #[trigger] t[j].id implies i
        == j by {
        if i < s.len() && j == s.len() {
            assert(s[i].id == m.id);
        } else if j < s.len() && i == s.len() {
            assert(s[j].id == m.id);
        } else if i < s.len() && j < s.len() {
            assert(s[i].id == s[j].id);
        }
    }
}

/// Removing the message at position `i` keeps identifiers distinct.
pub proof fn lemma_unique_remove(s: Seq<MessageView>, i: int)
    requires
        unique_ids(s),
        0 <= i < s.len(),
    ensures
        unique_ids(s.remove(i)),
{
    let t = s.remove(i);
    assert forall|a: int, b: int|
        0 <= a < t.len() && 0 <= b < t.len() && #[trigger] t[a].id == #[trigger] t[b].id implies a
        == b by {
        let sa = if a < i { a } else { a + 1 };
        let sb = if b < i { b } else { b + 1 };
        assert(t[a] == s[sa]);
        assert(t[b] == s[sb]);
        assert(s[sa].id == s[sb].id);
    }
}

/// Where identifiers are distinct, the message found for `id` sits at the one position
/// that carries it.
pub proof fn lemma_position_of(s: Seq<MessageView>, id: Seq<char>, p: int)
    requires
        unique_ids(s),
        0 <= p < s.len(),
        s[p].id == id,
    ensures
        has_id(s, id),
        position_of(s, id) == p,
{
    assert(has_id(s, id));
    let q = position_of(s, id);
    assert(s[q].id == s[p].id);
}

/// Tracks a bounded number of messages, first in first out, without duplicate identifiers.
pub trait MessageTracker: Sized {
    /// The fixed number of messages the tracker retains at most.
    spec fn capacity(&self) -> nat;

    /// The retained messages, oldest first.
    spec fn messages(&self) -> Seq<MessageView>;

    /// The tracker's internal consistency.
    spec fn inv(&self) -> bool;

    /// A consistent tracker holds distinct identifiers and no more messages than its capacity.
    proof fn lemma_inv(&self)
        requires
            self.inv(),
        ensures
            unique_ids(self.messages()),
            self.messages().len() <= self.capacity(),
    ;

    /// Adds a message, unless one with the same identifier is held; evicts the oldest
    /// message when the capacity is exceeded.
    fn add(&mut self, message: Message)
        requires
            old(self).inv(),
        ensures
            final(self).inv(),
            final(self).capacity() == old(self).capacity(),
            final(self).messages() == after_add(
                old(self).messages(),
                message@,
                old(self).capacity(),
            ),
    ;

    /// Removes and returns the message with identifier `id`, if one is held.
    fn delete(&mut self, id: &str) -> (r: Option<Message>)
        requires
            old(self).inv(),
        ensures
            final(self).inv(),
            final(self).capacity() == old(self).capacity(),
            final(self).messages() == after_delete(old(self).messages(), id@),
            view_opt(r) == lookup(old(self).messages(), id@),
    ;

    /// Returns a copy of the message with identifier `id`, if one is held; the tracker is unchanged.
    fn get(&self, id: &str) -> (r: Option<Message>)
        requires
            self.inv(),
        ensures
            view_opt(r) == lookup(self.messages(), id@),
    ;

    /// Returns copies of all retained messages, oldest first.
    fn get_all(&self) -> (r: Vec<Message>)
        requires
            self.inv(),
        ensures
            views(r@) == self.messages(),
    ;
}

} // verus!
