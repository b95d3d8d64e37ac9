//! The action table: maps alphabet symbols to turtle actions. Symbols with
//! no entry resolve to `Idle` by policy, never an error, so grammars may
//! carry placeholder symbols with no drawing effect.
//!
//! Turn amounts are in heading steps: one step advances the heading by one
//! entry of the direction table the turtle is run with.

use vstd::prelude::*;

verus! {

/// What the turtle does for one symbol. `Turn`, `Push` and `Pop` carry a
/// post-action turn amount in heading steps (may be negative or zero).
#[derive(Clone, Copy, PartialEq, Eq, Structural, Debug)]
pub enum Action {
    Move,
    Turn(i32),
    Push(i32),
    Pop(i32),
    Idle,
}

/// A symbol-to-action table; a later entry for the same symbol wins.
pub struct ActionTable {
    entries: Vec<(char, Action)>,
}

impl View for ActionTable {
    type V = Seq<(char, Action)>;

    closed spec fn view(&self) -> Seq<(char, Action)> {
        self.entries@
    }
}

/// The action a table gives a symbol: the latest entry for the symbol, or
/// `Idle` when the symbol has none.
pub open spec fn action_of(entries: Seq<(char, Action)>, c: char) -> Action
    decreases entries.len(),
{
    if entries.len() == 0 {
        Action::Idle
    } else if entries.last().0 == c {
        entries.last().1
    } else {
        action_of(entries.drop_last(), c)
    }
}

impl ActionTable {
    pub fn new() -> (r: ActionTable)
        ensures
            r@ =~= Seq::<(char, Action)>::empty(),
    {
        ActionTable { entries: Vec::new() }
    }

    /// Adds an entry; a later entry for the same symbol shadows an earlier
    /// one.
    pub fn insert(&mut self, c: char, a: Action)
        ensures
            final(self)@ =~= old(self)@.push((c, a)),
    {
        self.entries.push((c, a));
    }

    pub fn len(&self) -> (n: usize)
        ensures
            n == self@.len(),
    {
        self.entries.len()
    }

    /// Pure mapping access: the action for `c`, `Idle` when absent.
    pub fn lookup(&self, c: char) -> (a: Action)
        ensures
            a == action_of(self@, c),
    {
        let ghost full = self@;
        let mut i: usize = self.entries.len();
        proof {
            assert(full.take(i as int) =~= full);
        }
        while i > 0
            invariant
                i <= self.entries.len(),
                full == self@,
                action_of(full, c) == action_of(full.take(i as int), c),
            decreases i,
        {
            i = i - 1;
            if self.entries[i].0 == c {
                assert(full.take(i + 1).last() == full[i as int]);
                return self.entries[i].1;
            }
            proof {
                assert(full.take(i + 1).drop_last() =~= full.take(i as int));
                assert(full.take(i + 1).last() == full[i as int]);
            }
        }
        proof {
            assert(full.take(0) =~= Seq::<(char, Action)>::empty());
        }
        Action::Idle
    }
}

} // verus!
