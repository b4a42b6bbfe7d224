//! Conversation memory: an append-only, bounded log of dialogue turns.
//!
//! Appends happen only when a turn has fully succeeded; the chain in
//! `crate::chain` owns that rule. One session owns one memory value, so there
//! is a single writer by construction.

use vstd::prelude::*;

verus! {

/// Who spoke a turn.
#[derive(Debug, Clone, Copy, PartialEq, Eq, Structural)]
pub enum Role {
    /// The human asking questions.
    User,
    /// The model answering them.
    Assistant,
}

/// One dialogue turn.
pub struct ConversationTurn {
    /// Speaker of this turn.
    pub role: Role,
    /// What was said, as UTF-8 bytes.
    pub content: Vec<u8>,
    /// Caller-supplied timestamp; insertion order, not this field, defines
    /// chronology.
    pub timestamp: u64,
}

/// The running log of prior turns, oldest first, with a retention bound
/// applied by [`ConversationMemory::prune`].
pub struct ConversationMemory {
    turns: Vec<ConversationTurn>,
    max_turns: usize,
}

impl ConversationMemory {
    /// The turns currently held, oldest first.
    pub closed spec fn view(&self) -> Seq<ConversationTurn> {
        self.turns@
    }

    /// The retention bound: how many most recent turns `prune` keeps.
    pub closed spec fn retention(&self) -> nat {
        self.max_turns as nat
    }

    /// An empty memory that retains at most `max_turns` turns.
    pub fn new(max_turns: usize) -> (m: ConversationMemory)
        ensures
            m@ == Seq::<ConversationTurn>::empty(),
            m.retention() == max_turns as nat,
    {
        ConversationMemory { turns: Vec::new(), max_turns }
    }

    /// How many turns are held.
    pub fn len(&self) -> (n: usize)
        ensures
            n == self@.len(),
    {
        self.turns.len()
    }

    /// Appends one turn at the end. Append-only: no existing entry moves or
    /// changes.
    pub fn append(&mut self, turn: ConversationTurn)
        ensures
            final(self)@ == old(self)@.push(turn),
            final(self).retention() == old(self).retention(),
    {
        self.turns.push(turn);
    }

    /// Reads the turn at `i`.
    pub fn turn_at(&self, i: usize) -> (t: &ConversationTurn)
        requires
            i < self@.len(),
        ensures
            *t == self@[i as int],
    {
        &self.turns[i]
    }

    /// A read-only copy of the whole history, oldest first.
    pub fn snapshot(&self) -> (h: Vec<ConversationTurn>)
        ensures
            h@.len() == self@.len(),
            forall|i: int|
                0 <= i < h@.len() ==> {
                    &&& #[trigger] h@[i].role == self@[i].role
                    &&& h@[i].content@ == self@[i].content@
                    &&& h@[i].timestamp == self@[i].timestamp
                },
    {
        let mut h: Vec<ConversationTurn> = Vec::new();
        let mut i: usize = 0;
        while i < self.turns.len()
            invariant
                i <= self.turns.len(),
                h@.len() == i as nat,
                forall|j: int|
                    0 <= j < i as int ==> {
                        &&& #[trigger] h@[j].role == self.turns@[j].role
                        &&& h@[j].content@ == self.turns@[j].content@
                        &&& h@[j].timestamp == self.turns@[j].timestamp
                    },
            decreases self.turns.len() - i,
        {
            let t = &self.turns[i];
            h.push(ConversationTurn {
                role: t.role,
                content: crate::document::copy_bytes(&t.content),
                timestamp: t.timestamp,
            });
            i = i + 1;
        }
        h
    }

    /// Applies the retention policy: keeps the most recent `retention()`
    /// turns and drops the oldest ones beyond that.
    pub fn prune(&mut self)
        ensures
            final(self).retention() == old(self).retention(),
            old(self)@.len() <= old(self).retention() ==> final(self)@ == old(self)@,
            old(self)@.len() > old(self).retention() ==> final(self)@ == old(self)@.skip(
                old(self)@.len() - old(self).retention(),
            ),
    {
        if self.turns.len() > self.max_turns {
            let to_drop: usize = self.turns.len() - self.max_turns;
            let mut i: usize = 0;
            while i < to_drop
                invariant
                    i <= to_drop,
                    to_drop as int == old(self)@.len() - old(self).retention(),
                    self.max_turns == old(self).max_turns,
                    self.turns@ == old(self)@.skip(i as int),
                decreases to_drop - i,
            {
                self.turns.remove(0);
                i = i + 1;
                proof {
                    assert(old(self)@.skip(i as int - 1).remove(0) =~= old(self)@.skip(i as int));
                }
            }
        }
    }
}

} // verus!
