//! The protocol of the writer/reader phaser, as a state machine.
//!
//! A phase is even or odd, by the sign of the start epoch. A writer takes a
//! ticket by adding 1 to the start epoch, and hands it back by adding 1 to the
//! end epoch of the phase in which it took the ticket. A reader flips the
//! phase and then waits until the end epoch of the old phase has reached what
//! the start epoch was at the flip.

use vstd::prelude::*;

verus! {

/// The start epoch with which the odd phases begin.
pub open spec fn odd_phase_start() -> int {
    isize::MIN as int
}

/// Whether a writer that read `critical_value` from the start epoch belongs to
/// an odd phase.
pub open spec fn ticket_is_odd(critical_value: int) -> bool {
    critical_value < 0
}

/// Whether the phase after the one of start epoch `start_epoch` is even.
pub open spec fn next_phase_is_even(start_epoch: int) -> bool {
    start_epoch < 0
}

/// The start epoch with which a phase begins.
pub open spec fn initial_start_value(phase_is_even: bool) -> int {
    if phase_is_even {
        0
    } else {
        odd_phase_start()
    }
}

/// The three counters of the phaser, and the writers that are at work.
pub struct PhaserState {
    pub start_epoch: int,
    pub even_end_epoch: int,
    pub odd_end_epoch: int,
    /// The writers that took a ticket in an even phase and did not hand it
    /// back yet.
    pub even_writers: nat,
    /// The writers that took a ticket in an odd phase and did not hand it
    /// back yet.
    pub odd_writers: nat,
}

/// What a reader keeps from the flip while it waits.
pub struct FlipRecord {
    pub next_phase_is_even: bool,
    pub start_value_at_flip: int,
}

impl PhaserState {
    /// The phaser before any ticket is taken.
    pub open spec fn initial() -> PhaserState {
        PhaserState {
            start_epoch: 0,
            even_end_epoch: 0,
            odd_end_epoch: odd_phase_start(),
            even_writers: 0,
            odd_writers: 0,
        }
    }

    /// Whether the current phase is even.
    pub open spec fn phase_is_even(self) -> bool {
        self.start_epoch >= 0
    }

    /// In the current phase, the tickets that were taken and not handed back
    /// are the writers at work; the other phase has no writer at work, unless
    /// a reader is waiting for them.
    pub open spec fn inv(self) -> bool {
        &&& odd_phase_start() < 0
        &&& self.phase_is_even() ==> self.start_epoch - self.even_end_epoch == self.even_writers
        &&& !self.phase_is_even() ==> self.start_epoch - self.odd_end_epoch == self.odd_writers
        &&& !self.phase_is_even() ==> self.start_epoch - odd_phase_start() < -odd_phase_start()
    }

    /// Whether no writer of the phase that is not current is at work.
    pub open spec fn other_phase_is_quiet(self) -> bool {
        if self.phase_is_even() {
            self.odd_writers == 0
        } else {
            self.even_writers == 0
        }
    }

    /// The state once a writer has taken a ticket.
    pub open spec fn writer_entered(self) -> PhaserState {
        if ticket_is_odd(self.start_epoch) {
            PhaserState {
                start_epoch: self.start_epoch + 1,
                odd_writers: self.odd_writers + 1,
                ..self
            }
        } else {
            PhaserState {
                start_epoch: self.start_epoch + 1,
                even_writers: self.even_writers + 1,
                ..self
            }
        }
    }

    /// The state once a writer with a ticket of the odd or the even phases has
    /// handed it back.
    pub open spec fn writer_left(self, ticket_is_odd: bool) -> PhaserState {
        if ticket_is_odd {
            PhaserState {
                odd_end_epoch: self.odd_end_epoch + 1,
                odd_writers: (self.odd_writers - 1) as nat,
                ..self
            }
        } else {
            PhaserState {
                even_end_epoch: self.even_end_epoch + 1,
                even_writers: (self.even_writers - 1) as nat,
                ..self
            }
        }
    }

    /// What the reader keeps from a flip in this state.
    pub open spec fn flip_record(self) -> FlipRecord {
        FlipRecord {
            next_phase_is_even: next_phase_is_even(self.start_epoch),
            start_value_at_flip: self.start_epoch,
        }
    }

    /// The state once the reader has flipped the phase: the end epoch of the
    /// new phase and the start epoch are set to where the new phase begins.
    pub open spec fn flipped(self) -> PhaserState {
        let even = next_phase_is_even(self.start_epoch);
        if even {
            PhaserState {
                even_end_epoch: initial_start_value(true),
                start_epoch: initial_start_value(true),
                ..self
            }
        } else {
            PhaserState {
                odd_end_epoch: initial_start_value(false),
                start_epoch: initial_start_value(false),
                ..self
            }
        }
    }

    /// Whether the writers of the phase before the flip are done, as the
    /// reader sees it: the end epoch of that phase has reached what the start
    /// epoch was at the flip.
    pub open spec fn caught_up(self, record: FlipRecord) -> bool {
        if record.next_phase_is_even {
            self.odd_end_epoch == record.start_value_at_flip
        } else {
            self.even_end_epoch == record.start_value_at_flip
        }
    }

    /// What holds while a reader waits after a flip: the tickets of the old
    /// phase that were not handed back are the writers of that phase at work.
    pub open spec fn waiting_inv(self, record: FlipRecord) -> bool {
        &&& self.inv()
        &&& self.phase_is_even() == record.next_phase_is_even
        &&& record.next_phase_is_even ==> record.start_value_at_flip - self.odd_end_epoch
            == self.odd_writers
        &&& !record.next_phase_is_even ==> record.start_value_at_flip - self.even_end_epoch
            == self.even_writers
    }

    /// The phaser begins in a state that the protocol keeps.
    pub proof fn lemma_initial()
        ensures
            PhaserState::initial().inv(),
            PhaserState::initial().other_phase_is_quiet(),
    {
    }

    /// A writer that takes a ticket keeps the protocol, also while a reader
    /// waits, and does not join the phase that the reader waits for.
    pub proof fn lemma_writer_entered(self, record: FlipRecord)
        requires
            self.inv(),
            !self.phase_is_even() ==> self.start_epoch + 1 - odd_phase_start()
                < -odd_phase_start(),
        ensures
            self.writer_entered().inv(),
            self.other_phase_is_quiet() ==> self.writer_entered().other_phase_is_quiet(),
            self.waiting_inv(record) ==> self.writer_entered().waiting_inv(record),
    {
    }

    /// A writer that hands its ticket back keeps the protocol, also while a
    /// reader waits.
    pub proof fn lemma_writer_left(self, ticket_is_odd: bool, record: FlipRecord)
        requires
            self.inv(),
            ticket_is_odd ==> self.odd_writers >= 1,
            !ticket_is_odd ==> self.even_writers >= 1,
        ensures
            self.writer_left(ticket_is_odd).inv(),
            self.other_phase_is_quiet() ==> self.writer_left(ticket_is_odd).other_phase_is_quiet(),
            self.waiting_inv(record) ==> self.writer_left(ticket_is_odd).waiting_inv(record),
    {
    }

    /// A flip in a state whose other phase is quiet leaves a state in which
    /// the reader can wait.
    pub proof fn lemma_flipped(self)
        requires
            self.inv(),
            self.other_phase_is_quiet(),
        ensures
            self.flipped().waiting_inv(self.flip_record()),
    {
    }

    /// Once the reader sees that the writers have caught up, no writer that
    /// took its ticket before the flip is at work, and the next flip can be
    /// made.
    pub proof fn lemma_caught_up_is_quiet(self, record: FlipRecord)
        requires
            self.waiting_inv(record),
            self.caught_up(record),
        ensures
            record.next_phase_is_even ==> self.odd_writers == 0,
            !record.next_phase_is_even ==> self.even_writers == 0,
            self.inv(),
            self.other_phase_is_quiet(),
    {
    }
}

} // verus!
