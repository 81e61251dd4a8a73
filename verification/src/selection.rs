//! Which row of the list is selected, and how the selection moves.

use vstd::arithmetic::div_mod::{
    lemma_add_mod_noop, lemma_mod_add_multiples_vanish, lemma_mod_self_0,
    lemma_mod_sub_multiples_vanish, lemma_small_mod, lemma_sub_mod_noop,
};
use vstd::prelude::*;

verus! {

/// The selection after a step forward in a list of `count` rows: nothing
/// changes in an empty list; otherwise the first row is taken where none was
/// selected, and the row after the selected one else, the first after the
/// last.
pub open spec fn next_of(selected: Option<nat>, count: nat) -> Option<nat> {
    if count == 0 {
        selected
    } else {
        match selected {
            Some(index) => Some((index + 1) % count),
            None => Some(0),
        }
    }
}

/// The selection after a step back in a list of `count` rows: nothing
/// changes in an empty list; otherwise the first row is taken where none was
/// selected, and the row before the selected one else, the last before the
/// first.
pub open spec fn previous_of(selected: Option<nat>, count: nat) -> Option<nat> {
    if count == 0 {
        selected
    } else {
        match selected {
            Some(index) => if index == 0 {
                Some((count - 1) as nat)
            } else {
                Some((index - 1) as nat)
            },
            None => Some(0),
        }
    }
}

/// The selection once the list has been replaced by one of `count` rows:
/// none in an empty list; the last row where the selected one is gone; the
/// first row where none was selected; else what it was.
pub open spec fn reconciled(selected: Option<nat>, count: nat) -> Option<nat> {
    if count == 0 {
        None
    } else {
        match selected {
            Some(index) => if index >= count {
                Some((count - 1) as nat)
            } else {
                Some(index)
            },
            None => Some(0),
        }
    }
}

/// Whether `selected` is a selection for a list of `count` rows: one of its
/// rows, and none only where the list is empty.
pub open spec fn fits(selected: Option<nat>, count: nat) -> bool {
    match selected {
        Some(index) => index < count,
        None => count == 0,
    }
}

/// The selection after `steps` steps forward.
pub open spec fn advanced(selected: Option<nat>, count: nat, steps: nat) -> Option<nat>
    decreases steps,
{
    if steps == 0 {
        selected
    } else {
        next_of(advanced(selected, count, (steps - 1) as nat), count)
    }
}

/// The selection after `steps` steps back.
pub open spec fn retreated(selected: Option<nat>, count: nat, steps: nat) -> Option<nat>
    decreases steps,
{
    if steps == 0 {
        selected
    } else {
        previous_of(retreated(selected, count, (steps - 1) as nat), count)
    }
}

/// The selected row of a list, if one is selected.
#[derive(Clone, Copy, Debug, PartialEq, Eq)]
pub struct Selection {
    selected: Option<usize>,
}

impl View for Selection {
    type V = Option<nat>;

    closed spec fn view(&self) -> Option<nat> {
        match self.selected {
            Some(index) => Some(index as nat),
            None => None,
        }
    }
}

impl Selection {
    /// A selection with no row selected.
    pub fn new() -> (selection: Selection)
        ensures
            selection@ is None,
    {
        Selection { selected: None }
    }

    /// The index of the selected row.
    pub fn selected(&self) -> (index: Option<usize>)
        ensures
            index is Some <==> self@ is Some,
            index is Some ==> index->0 == self@->0,
    {
        self.selected
    }

    /// Steps forward in a list of `count` rows.
    pub fn next(&mut self, count: usize)
        ensures
            final(self)@ == next_of(old(self)@, count as nat),
    {
        if count == 0 {
            return ;
        }
        let index = match self.selected {
            Some(index) => {
                let within = index % count;
                proof {
                    lemma_add_mod_noop(index as int, 1, count as int);
                    lemma_mod_self_0(count as int);
                    if count > 1 {
                        lemma_small_mod(1, count as nat);
                    } else {
                        assert(1int % 1 == 0);
                    }
                    if within + 1 < count {
                        lemma_small_mod((within + 1) as nat, count as nat);
                    }
                }
                if within + 1 == count {
                    0
                } else {
                    within + 1
                }
            },
            None => 0,
        };
        self.selected = Some(index);
    }

    /// Steps back in a list of `count` rows.
    pub fn previous(&mut self, count: usize)
        ensures
            final(self)@ == previous_of(old(self)@, count as nat),
    {
        if count == 0 {
            return ;
        }
        let index = match self.selected {
            Some(index) => if index == 0 {
                count - 1
            } else {
                index - 1
            },
            None => 0,
        };
        self.selected = Some(index);
    }

    /// Fits the selection to a list that now has `count` rows.
    pub fn reconcile(&mut self, count: usize)
        ensures
            final(self)@ == reconciled(old(self)@, count as nat),
            fits(final(self)@, count as nat),
    {
        if count == 0 {
            self.selected = None;
        } else {
            match self.selected {
                Some(index) => {
                    if index >= count {
                        self.selected = Some(count - 1);
                    }
                },
                None => {
                    self.selected = Some(0);
                },
            }
        }
    }
}

/// A step in either direction leaves a fitting selection fitting.
pub proof fn lemma_steps_fit(selected: Option<nat>, count: nat)
    requires
        fits(selected, count),
    ensures
        fits(next_of(selected, count), count),
        fits(previous_of(selected, count), count),
{
}

/// A selection fitted to a list fits it, and one that fits already stays as
/// it is.
pub proof fn lemma_reconciled_fits(selected: Option<nat>, count: nat)
    ensures
        fits(reconciled(selected, count), count),
        fits(selected, count) ==> reconciled(selected, count) == selected,
{
}

/// A step forward and a step back undo each other.
pub proof fn lemma_next_previous_undo(index: nat, count: nat)
    requires
        index < count,
    ensures
        previous_of(next_of(Some(index), count), count) == Some(index),
        next_of(previous_of(Some(index), count), count) == Some(index),
{
    if index + 1 < count {
        lemma_small_mod(index + 1, count);
    } else {
        assert((index + 1) % count == 0) by {
            lemma_mod_self_0(count as int);
        }
    }
    if index == 0 {
        assert((count - 1 + 1) % (count as int) == 0) by {
            lemma_mod_self_0(count as int);
        }
    } else {
        lemma_small_mod(index, count);
    }
}

/// Steps forward go round the list: from the row `index`, `steps` steps lead
/// to the row `(index + steps) mod count`.
pub proof fn lemma_advanced(index: nat, count: nat, steps: nat)
    requires
        index < count,
    ensures
        advanced(Some(index), count, steps) == Some((index + steps) % count),
    decreases steps,
{
    if steps == 0 {
        lemma_small_mod(index, count);
    } else {
        lemma_advanced(index, count, (steps - 1) as nat);
        lemma_add_mod_noop(index + steps - 1, 1, count as int);
        if count > 1 {
            lemma_small_mod(1, count);
        }
        let at = (index + steps - 1) % (count as int);
        if at + 1 < count {
            lemma_small_mod((at + 1) as nat, count);
        }
    }
}

/// Steps back go round the list the other way: from the row `index`,
/// `steps` steps lead to the row `(index - steps) mod count`.
pub proof fn lemma_retreated(index: nat, count: nat, steps: nat)
    requires
        index < count,
    ensures
        retreated(Some(index), count, steps) == Some(((index - steps) % (count as int)) as nat),
    decreases steps,
{
    if steps == 0 {
        lemma_small_mod(index, count);
    } else {
        lemma_retreated(index, count, (steps - 1) as nat);
        lemma_sub_mod_noop(index - steps + 1, 1, count as int);
        if count > 1 {
            lemma_small_mod(1, count);
        }
        let at = (index - steps + 1) % (count as int);
        if at >= 1 {
            lemma_small_mod((at - 1) as nat, count);
        } else {
            lemma_mod_add_multiples_vanish(-1, count as int);
            lemma_small_mod((count - 1) as nat, count);
        }
    }
}

/// As many steps as the list has rows lead back to the row they began at, in
/// either direction; and every row is reached on the way.
pub proof fn lemma_steps_cycle(index: nat, count: nat, target: nat)
    requires
        index < count,
        target < count,
    ensures
        advanced(Some(index), count, count) == Some(index),
        retreated(Some(index), count, count) == Some(index),
        advanced(Some(index), count, ((target - index) % (count as int)) as nat) == Some(target),
        retreated(Some(index), count, ((index - target) % (count as int)) as nat) == Some(target),
{
    let n = count as int;
    lemma_advanced(index, count, count);
    lemma_retreated(index, count, count);
    lemma_small_mod(index, count);
    lemma_small_mod(target, count);
    lemma_mod_add_multiples_vanish(index as int, n);
    lemma_mod_sub_multiples_vanish(index as int, n);
    let forward = ((target - index) % n) as nat;
    let back = ((index - target) % n) as nat;
    lemma_advanced(index, count, forward);
    lemma_retreated(index, count, back);
    lemma_add_mod_noop(index as int, target - index, n);
    lemma_sub_mod_noop(index as int, index - target, n);
}

} // verus!
