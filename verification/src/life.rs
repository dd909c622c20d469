//! Life points of a unit, with a staged (previewed) loss.
//!
//! `loss` is a staged, not-yet-committed delta used for previewing an
//! attack's outcome; committing it with `lose_life` updates `current` and
//! clears the stage.  A negative staged loss is a heal: a healed unit is
//! raised to at least one third (integer division) of its maximum, and never
//! above the maximum.

use vstd::prelude::*;
use crate::units::UnitType;

verus! {

/// Life points of a unit.
#[derive(Clone, Copy, PartialEq, Eq, Structural, Debug)]
pub struct Life {
    max: usize,
    current: usize,
    /// Staged loss, displayed by previews and applied by `lose_life`.
    pub loss: isize,
}

impl Life {
    /// Maximum life points.
    pub closed spec fn spec_max(self) -> int {
        self.max as int
    }

    /// Current life points.
    pub closed spec fn spec_current(self) -> int {
        self.current as int
    }

    /// Staged loss.
    pub closed spec fn spec_loss(self) -> int {
        self.loss as int
    }

    /// Current life stays within the maximum, and the maximum within the
    /// fixed unit-type table (no type exceeds 8 points).
    pub open spec fn wf(self) -> bool {
        &&& 0 <= self.spec_current() <= self.spec_max()
        &&& self.spec_max() <= 8
    }

    /// `current` once the staged loss is committed: a loss at least as large
    /// as `current` kills; a smaller non-negative loss is subtracted; a
    /// negative loss heals, raising `current` to at least `max / 3` and at
    /// most `max`.
    pub open spec fn spec_committed_current(self) -> int {
        if self.spec_loss() >= self.spec_current() {
            0
        } else if self.spec_loss() >= 0 {
            self.spec_current() - self.spec_loss()
        } else {
            let raised = self.spec_current() - self.spec_loss();
            let floor = self.spec_max() / 3;
            let lifted = if raised < floor { floor } else { raised };
            if lifted > self.spec_max() { self.spec_max() } else { lifted }
        }
    }

    /// The same life points with a staged loss of `damage`.
    pub closed spec fn spec_with_loss(self, damage: int) -> Life {
        Life { max: self.max, current: self.current, loss: damage as isize }
    }

    /// The life points once the staged loss is committed and cleared.
    pub closed spec fn spec_commit(self) -> Life {
        Life { max: self.max, current: self.spec_committed_current() as usize, loss: 0 }
    }

    /// Fresh life for a unit of the given type, full and with no staged
    /// loss.
    pub fn new(unit_type: &UnitType) -> (r: Life)
        ensures
            r.wf(),
            r.spec_max() == UnitType::spec_max_life(*unit_type),
            r.spec_current() == r.spec_max(),
            r.spec_loss() == 0,
    {
        let max: usize = match unit_type {
            UnitType::Archer => 2,
            UnitType::Knight => 4,
            UnitType::Scout => 3,
            UnitType::Barbarian => 3,
            UnitType::BarbarianVariant => 2,
            UnitType::ArmoredBarbarian => 4,
            UnitType::BarbarianLordOfDeath => 8,
        };
        Life { max, current: max, loss: 0 }
    }

    /// Commit the staged loss (see `spec_committed_current`) and clear it.
    pub fn lose_life(&mut self)
        requires
            old(self).wf(),
        ensures
            final(self).wf(),
            final(self).spec_max() == old(self).spec_max(),
            final(self).spec_current() == old(self).spec_committed_current(),
            final(self).spec_loss() == 0,
            *final(self) == old(self).spec_commit(),
    {
        if self.loss >= 0 {
            if self.loss >= self.current as isize {
                self.current = 0;
            } else {
                self.current = self.current - self.loss as usize;
            }
        } else {
            if self.loss <= self.current as isize - self.max as isize {
                self.current = self.max;
            } else {
                let gain = (-self.loss) as usize;
                let mut raised = self.current + gain;
                if raised < self.max / 3 {
                    raised = self.max / 3;
                }
                self.current = raised;
            }
        }
        self.loss = 0;
    }

    /// The unit is out of life points.
    pub fn is_dead(&self) -> (r: bool)
        ensures
            r == (self.spec_current() == 0),
    {
        self.current == 0
    }

    /// The same life points with `damage` staged as the loss (negative for a
    /// heal); nothing is committed.
    pub fn previsualise_loss(&self, damage: isize) -> (r: Life)
        ensures
            r == self.spec_with_loss(damage as int),
            r.spec_max() == self.spec_max(),
            r.spec_current() == self.spec_current(),
            r.spec_loss() == damage as int,
            self.wf() ==> r.wf(),
    {
        Life { max: self.max, current: self.current, loss: damage }
    }

    /// Current life points.
    pub fn get_current(&self) -> (r: usize)
        ensures
            r as int == self.spec_current(),
    {
        self.current
    }

    /// Maximum life points.
    pub fn get_max(&self) -> (r: usize)
        ensures
            r as int == self.spec_max(),
    {
        self.max
    }
}

/// What `spec_with_loss` builds: the same points with the given loss
/// staged.
pub proof fn lemma_spec_with_loss(l: Life, damage: int)
    requires
        -100 <= damage <= 100,
    ensures
        l.spec_with_loss(damage).spec_max() == l.spec_max(),
        l.spec_with_loss(damage).spec_current() == l.spec_current(),
        l.spec_with_loss(damage).spec_loss() == damage,
        l.wf() ==> l.spec_with_loss(damage).wf(),
{
}

/// What `spec_commit` builds: the committed current (see
/// `spec_committed_current`), the same maximum, and no staged loss.
pub proof fn lemma_spec_commit(l: Life)
    requires
        l.wf(),
    ensures
        l.spec_commit().spec_max() == l.spec_max(),
        l.spec_commit().spec_current() == l.spec_committed_current(),
        l.spec_commit().spec_loss() == 0,
        l.spec_commit().wf(),
{
    assert(l.spec_max() / 3 <= l.spec_max());
}

/// Heal floor: committing a one-point heal on a unit below a third of its
/// maximum raises it to at least that third; on a unit at or above the
/// third, it restores exactly one point, capped at the maximum.
pub proof fn lemma_heal_floor(l: Life)
    requires
        l.wf(),
    ensures
        ({
            let healed = l.spec_with_loss(-1).spec_committed_current();
            &&& l.spec_current() < l.spec_max() / 3 ==> healed == l.spec_max() / 3
            &&& l.spec_current() >= l.spec_max() / 3 ==> healed == if l.spec_current() + 1
                <= l.spec_max() { l.spec_current() + 1 } else { l.spec_max() }
            &&& healed >= l.spec_current()
        }),
{
    assert(l.spec_max() / 3 <= l.spec_max());
}

} // verus!
