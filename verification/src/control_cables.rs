//! The control lines: one boolean per signal by which the control unit
//! tells the components what to do in a microstep.

use vstd::prelude::*;
use crate::bits::all_low;

verus! {

/// Number of registers in the register file.
pub const REGISTERS_NUM: usize = 8;

/// Number of control lines: eleven named ones, then four per register.
pub const CONTROL_CABLES_SIZE: usize = 43;

/// The full set of control lines, addressed by index.
#[derive(Debug)]
pub struct ControlCables {
    pub lines: [bool; 43],
}

impl View for ControlCables {
    type V = Seq<bool>;

    open spec fn view(&self) -> Seq<bool> {
        self.lines@
    }
}

impl ControlCables {
    /// A set of lines with none asserted.
    pub fn new() -> (cables: ControlCables)
        ensures
            cables@.len() == CONTROL_CABLES_SIZE,
            forall|i: int| 0 <= i < CONTROL_CABLES_SIZE ==> !cables@[i],
    {
        ControlCables { lines: all_low::<43>() }
    }

    /// Releases every line.
    pub fn reset(&mut self)
        ensures
            final(self)@.len() == CONTROL_CABLES_SIZE,
            forall|i: int| 0 <= i < CONTROL_CABLES_SIZE ==> !final(self)@[i],
    {
        let mut i: usize = 0;
        while i < CONTROL_CABLES_SIZE
            invariant
                i <= CONTROL_CABLES_SIZE,
                forall|j: int| 0 <= j < i ==> !self.lines@[j],
            decreases CONTROL_CABLES_SIZE - i,
        {
            self.lines[i] = false;
            i += 1;
        }
    }

    /// The level of line `index`.
    pub fn get(&self, index: usize) -> (level: bool)
        requires
            index < CONTROL_CABLES_SIZE,
        ensures
            level == self@[index as int],
    {
        self.lines[index]
    }

    /// Drives line `index` to `level` and leaves the others alone.
    pub fn set(&mut self, index: usize, level: bool)
        requires
            index < CONTROL_CABLES_SIZE,
        ensures
            final(self)@ == old(self)@.update(index as int, level),
    {
        self.lines[index] = level;
        assert(self.lines@ =~= old(self).lines@.update(index as int, level));
    }
}

} // verus!
