//! The bus: a one-word rendezvous between the component that drives it and
//! the component that latches it.
//!
//! The bus holds at most one word that has been written and not yet read.
//! An operation that would have to wait changes nothing and says so; the
//! caller decides when to try again.

use vstd::prelude::*;
use crate::bits::MValue;

verus! {

/// The bus after an attempt to write `word`, and whether the word was taken.
/// A bus that still holds an unread word refuses the write.
pub open spec fn bus_write(bus: Option<u16>, word: u16) -> (Option<u16>, bool) {
    match bus {
        None => (Some(word), true),
        Some(_) => (bus, false),
    }
}

/// The bus after an attempt to read, and the word that came out of it, if
/// one was waiting. A word is handed out once.
pub open spec fn bus_read(bus: Option<u16>) -> (Option<u16>, Option<u16>) {
    (None, bus)
}

/// The bus after one write and one read for each of `words` in turn, and
/// the words that the reads handed out.
pub open spec fn relay(bus: Option<u16>, words: Seq<u16>) -> (Option<u16>, Seq<u16>)
    decreases words.len(),
{
    if words.len() == 0 {
        (bus, seq![])
    } else {
        let (before, seen) = relay(bus, words.drop_last());
        let written = bus_write(before, words.last()).0;
        let (after, got) = bus_read(written);
        (
            after,
            match got {
                Some(word) => seen.push(word),
                None => seen,
            },
        )
    }
}

/// After any number of write/read pairs on an empty bus, the reader has
/// seen exactly the words the writer sent, in order, and the bus is empty.
pub proof fn lemma_pairs_carry_every_word(words: Seq<u16>)
    ensures
        relay(None, words) == (None::<u16>, words),
    decreases words.len(),
{
    if words.len() > 0 {
        lemma_pairs_carry_every_word(words.drop_last());
        assert(words.drop_last().push(words.last()) =~= words);
    }
}

/// A read finds nothing on an empty bus, and nothing again right after any
/// read: only a write in between makes a word available.
pub proof fn lemma_read_needs_a_write(bus: Option<u16>)
    ensures
        bus_read(None).1 is None,
        bus_read(None).0 is None,
        bus_read(bus_read(bus).0).1 is None,
{
}

/// A second write without a read in between is refused and loses nothing.
pub proof fn lemma_write_needs_a_read(bus: Option<u16>, first: u16, second: u16)
    ensures
        !bus_write(bus_write(bus, first).0, second).1,
        bus_write(bus_write(bus, first).0, second).0 == bus_write(bus, first).0,
{
}

/// The shared bus.
#[derive(Debug)]
pub struct Bus {
    value: MValue,
    pending: bool,
}

impl View for Bus {
    type V = Option<u16>;

    /// The word that has been written and not yet read, if there is one.
    closed spec fn view(&self) -> Option<u16> {
        if self.pending {
            Some(self.value@)
        } else {
            None
        }
    }
}

impl Bus {
    /// An empty bus.
    pub fn new() -> (bus: Bus)
        ensures
            bus@ is None,
    {
        Bus { value: MValue::from_u32(0), pending: false }
    }

    /// Whether a written word is waiting to be read.
    pub fn is_pending(&self) -> (pending: bool)
        ensures
            pending == self@.is_some(),
    {
        self.pending
    }

    /// Puts `val` on the bus, unless the previous word has not been read
    /// yet: then the bus is left as it is and the answer is `false`.
    pub fn write_from(&mut self, val: &MValue) -> (accepted: bool)
        ensures
            (final(self)@, accepted) == bus_write(old(self)@, val@),
    {
        if self.pending {
            false
        } else {
            self.value.set(val);
            self.pending = true;
            true
        }
    }

    /// Takes the waiting word off the bus into `val`, unless there is
    /// none: then both are left as they are and the answer is `false`.
    pub fn read_into(&mut self, val: &mut MValue) -> (taken: bool)
        ensures
            final(self)@ == bus_read(old(self)@).0,
            taken == old(self)@.is_some(),
            final(val)@ == match bus_read(old(self)@).1 {
                Some(word) => word,
                None => old(val)@,
            },
    {
        if self.pending {
            val.set(&self.value);
            self.pending = false;
            true
        } else {
            false
        }
    }
}

} // verus!
