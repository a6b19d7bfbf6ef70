//! A tracker kept as an ordered queue of messages and an index of their positions.
use std::collections::VecDeque;
use vstd::prelude::*;

use crate::message::{Message, MessageView};
use crate::tracker::{
    has_id, lemma_position_of, lemma_unique_push, lemma_unique_remove, unique_ids, views,
    MessageTracker,
};

verus! {

/// A tracker backed by a queue of messages, oldest at the front, and an index that
/// records, entry by entry, each retained identifier with its position in the queue.
pub struct MessageStore {
    queue: VecDeque<Message>,
    index: Vec<(String, usize)>,
    fifo_size: usize,
}

impl MessageStore {
    /// The index has one entry per queued message, and entries before `n` name the
    /// message at their own position and record that position.
    pub closed spec fn index_correct_before(&self, n: int) -> bool {
        &&& self.index@.len() == self.queue@.len()
        &&& forall|k: int|
            0 <= k < n ==> {
                &&& (#[trigger] self.index@[k]).0@ == self.queue@[k].id@
                &&& self.index@[k].1 == k
            }
    }

    /// Creates an empty tracker that retains at most `fifo_size` messages.
    pub fn new(fifo_size: usize) -> (r: Self)
        ensures
            r.inv(),
            r.capacity() == fifo_size,
            r.messages() == Seq::<MessageView>::empty(),
    {
        let r = MessageStore { queue: VecDeque::new(), index: Vec::new(), fifo_size };
        assert(r.messages() =~= Seq::<MessageView>::empty());
        r
    }

    /// Rewrites the index entries from position `skip` on from the queue, after the
    /// queue has shifted there.
    pub fn update_indices(&mut self, skip: usize)
        requires
            old(self).index_correct_before(skip as int),
            skip <= old(self).messages().len(),
        ensures
            final(self).index_correct_before(final(self).messages().len() as int),
            final(self).messages() == old(self).messages(),
            final(self).capacity() == old(self).capacity(),
    {
        let n = self.queue.len();
        let mut k: usize = skip;
        while k < n
            invariant
                skip <= k <= n,
                n == self.queue@.len(),
                self.queue == old(self).queue,
                self.fifo_size == old(self).fifo_size,
                self.index_correct_before(k as int),
            decreases n - k,
        {
            let id = self.queue[k].id.clone();
            self.index.set(k, (id, k));
            k = k + 1;
        }
    }

    /// Whether a message with identifier `id` is held.
    pub fn contains(&self, id: &str) -> (r: bool)
        requires
            self.inv(),
        ensures
            r == has_id(self.messages(), id@),
    {
        self.get(id).is_some()
    }

    /// The queue position that the index records for `id`, if any.
    fn find_position(&self, id: &String) -> (r: Option<usize>)
        requires
            self.inv(),
        ensures
            match r {
                Some(p) => p < self.messages().len() && self.messages()[p as int].id == id@,
                None => !has_id(self.messages(), id@),
            },
    {
        let n = self.index.len();
        let mut k: usize = 0;
        while k < n
            invariant
                self.inv(),
                n == self.index@.len(),
                0 <= k <= n,
                forall|j: int| 0 <= j < k ==> self.messages()[j].id != id@,
            decreases n - k,
        {
            if self.index[k].0 == *id {
                return Some(self.index[k].1);
            }
            k = k + 1;
        }
        None
    }
}

impl MessageTracker for MessageStore {
    closed spec fn capacity(&self) -> nat {
        self.fifo_size as nat
    }

    closed spec fn messages(&self) -> Seq<MessageView> {
        views(self.queue@)
    }

    closed spec fn inv(&self) -> bool {
        &&& self.index_correct_before(self.queue@.len() as int)
        &&& unique_ids(self.messages())
        &&& self.queue@.len() <= self.fifo_size
    }

    proof fn lemma_inv(&self) {
    }

    fn add(&mut self, message: Message) {
        if self.contains(message.id.as_str()) {
            return;
        }
        let ghost s = self.messages();
        let ghost m = message@;
        let message_id = message.id.clone();
        self.queue.push_back(message);
        self.index.push((message_id, self.queue.len() - 1));
        proof {
            lemma_unique_push(s, m);
            assert(self.messages() =~= s.push(m));
        }
        if self.queue.len() > self.fifo_size {
            let _ = self.queue.pop_front();
            self.index.remove(0);
            proof {
                lemma_unique_remove(s.push(m), 0);
                assert(self.messages() =~= s.push(m).drop_first());
                assert(self.messages() =~= s.push(m).remove(0));
            }
            self.update_indices(0);
        }
    }

    fn delete(&mut self, id: &str) -> (r: Option<Message>) {
        let key = id.to_owned();
        match self.find_position(&key) {
            None => None,
            Some(position) => {
                let ghost s = self.messages();
                proof {
                    lemma_position_of(s, id@, position as int);
                }
                self.index.remove(position);
                match self.queue.remove(position) {
                    Some(removed) => {
                        proof {
                            lemma_unique_remove(s, position as int);
                            assert(self.messages() =~= s.remove(position as int));
                        }
                        self.update_indices(position);
                        Some(removed)
                    },
                    None => None,
                }
            },
        }
    }

    fn get(&self, id: &str) -> (r: Option<Message>) {
        let key = id.to_owned();
        match self.find_position(&key) {
            None => None,
            Some(position) => {
                proof {
                    lemma_position_of(self.messages(), id@, position as int);
                }
                Some(self.queue[position].clone())
            },
        }
    }

    fn get_all(&self) -> (r: Vec<Message>) {
        let n = self.queue.len();
        let mut r: Vec<Message> = Vec::new();
        let mut k: usize = 0;
        while k < n
            invariant
                n == self.queue@.len(),
                0 <= k <= n,
                r@.len() == k,
                views(r@) == views(self.queue@.subrange(0, k as int)),
            decreases n - k,
        {
            let ghost before = r@;
            r.push(self.queue[k].clone());
            proof {
                assert forall|i: int| 0 <= i < k implies views(r@)[i] == self.queue@[i]@ by {
                    assert(r@[i] == before[i]);
                    assert(views(before)[i] == views(self.queue@.subrange(0, k as int))[i]);
                }
                assert(views(r@) =~= views(self.queue@.subrange(0, k + 1)));
            }
            k = k + 1;
        }
        assert(self.queue@.subrange(0, n as int) =~= self.queue@);
        r
    }
}

} // verus!
