//! The protocol by which a recorder takes a sample, as a state machine over
//! the protocol of the phaser.
//!
//! A recorder has two histograms, of which one is active. A writer takes a
//! ticket of the phaser, then reads which histogram is active, records into
//! that histogram, and hands the ticket back. A reader that holds the reader
//! lock swaps the active histogram for the other one, flips the phase, and
//! waits for the writers of the old phase. What is shown here is that no
//! writer is then left that records into the histogram that was active
//! before the swap, and that every finished record is counted once.

use vstd::prelude::*;
use crate::concurrent::phaser_model::{FlipRecord, PhaserState};

verus! {

/// The writers that hold a ticket, by what they have read so far: nothing
/// yet, or that the first or the second histogram is active.
pub struct WritersAtWork {
    pub undecided: nat,
    pub into_first: nat,
    pub into_second: nat,
}

impl WritersAtWork {
    /// How many they are.
    pub open spec fn number(self) -> nat {
        self.undecided + self.into_first + self.into_second
    }

    /// How many of them record into the first histogram, or into the second.
    pub open spec fn into(self, first: bool) -> nat {
        if first {
            self.into_first
        } else {
            self.into_second
        }
    }

    /// One more that has read nothing yet.
    pub open spec fn joined(self) -> WritersAtWork {
        WritersAtWork { undecided: self.undecided + 1, ..self }
    }

    /// One of those that had read nothing yet has read that the first
    /// histogram is active, or the second.
    pub open spec fn decided(self, first: bool) -> WritersAtWork {
        if first {
            WritersAtWork {
                undecided: (self.undecided - 1) as nat,
                into_first: self.into_first + 1,
                ..self
            }
        } else {
            WritersAtWork {
                undecided: (self.undecided - 1) as nat,
                into_second: self.into_second + 1,
                ..self
            }
        }
    }

    /// One of those that record into the first histogram, or into the
    /// second, is done.
    pub open spec fn done(self, first: bool) -> WritersAtWork {
        if first {
            WritersAtWork { into_first: (self.into_first - 1) as nat, ..self }
        } else {
            WritersAtWork { into_second: (self.into_second - 1) as nat, ..self }
        }
    }
}

/// A recorder: its phaser, which histogram is active, the writers at work
/// with a ticket of an even and of an odd phase, and the records that each
/// histogram holds.
pub struct RecorderState {
    pub phaser: PhaserState,
    pub first_is_active: bool,
    /// Whether the active histogram was swapped and the phase not yet
    /// flipped.
    pub swapped: bool,
    pub even: WritersAtWork,
    pub odd: WritersAtWork,
    pub records_in_first: nat,
    pub records_in_second: nat,
    /// The records that writers have finished.
    pub records_finished: nat,
}

impl RecorderState {
    /// A recorder before any record, with the first histogram active.
    pub open spec fn initial() -> RecorderState {
        RecorderState {
            phaser: PhaserState::initial(),
            first_is_active: true,
            swapped: false,
            even: WritersAtWork { undecided: 0, into_first: 0, into_second: 0 },
            odd: WritersAtWork { undecided: 0, into_first: 0, into_second: 0 },
            records_in_first: 0,
            records_in_second: 0,
            records_finished: 0,
        }
    }

    /// The writers with a ticket of the current phase.
    pub open spec fn current(self) -> WritersAtWork {
        if self.phaser.phase_is_even() {
            self.even
        } else {
            self.odd
        }
    }

    /// The writers with a ticket of the other phase.
    pub open spec fn other(self) -> WritersAtWork {
        if self.phaser.phase_is_even() {
            self.odd
        } else {
            self.even
        }
    }

    /// The phaser keeps its protocol and counts the writers at work; every
    /// finished record is in one histogram; and a writer of the current
    /// phase records into the active histogram, unless that was swapped
    /// since the phase began.
    pub open spec fn inv(self) -> bool {
        &&& self.phaser.inv()
        &&& self.phaser.even_writers == self.even.number()
        &&& self.phaser.odd_writers == self.odd.number()
        &&& self.records_finished == self.records_in_first + self.records_in_second
        &&& !self.swapped ==> self.current().into(!self.first_is_active) == 0
    }

    /// The state once a writer has taken a ticket.
    pub open spec fn writer_entered(self) -> RecorderState {
        if self.phaser.phase_is_even() {
            RecorderState {
                phaser: self.phaser.writer_entered(),
                even: self.even.joined(),
                ..self
            }
        } else {
            RecorderState {
                phaser: self.phaser.writer_entered(),
                odd: self.odd.joined(),
                ..self
            }
        }
    }

    /// The state once a writer with a ticket of an odd or an even phase has
    /// read which histogram is active.
    pub open spec fn writer_decided(self, ticket_is_odd: bool) -> RecorderState {
        if ticket_is_odd {
            RecorderState { odd: self.odd.decided(self.first_is_active), ..self }
        } else {
            RecorderState { even: self.even.decided(self.first_is_active), ..self }
        }
    }

    /// The state once a writer with a ticket of an odd or an even phase has
    /// recorded into the first or the second histogram and handed its ticket
    /// back.
    pub open spec fn writer_recorded(self, ticket_is_odd: bool, first: bool) -> RecorderState {
        RecorderState {
            phaser: self.phaser.writer_left(ticket_is_odd),
            odd: if ticket_is_odd {
                self.odd.done(first)
            } else {
                self.odd
            },
            even: if ticket_is_odd {
                self.even
            } else {
                self.even.done(first)
            },
            records_in_first: if first {
                self.records_in_first + 1
            } else {
                self.records_in_first
            },
            records_in_second: if first {
                self.records_in_second
            } else {
                self.records_in_second + 1
            },
            records_finished: self.records_finished + 1,
            ..self
        }
    }

    /// The state once the reader has swapped the active histogram for the
    /// other one.
    pub open spec fn swapped_histograms(self) -> RecorderState {
        RecorderState { first_is_active: !self.first_is_active, swapped: true, ..self }
    }

    /// The state once the reader has flipped the phase.
    pub open spec fn flipped(self) -> RecorderState {
        RecorderState { phaser: self.phaser.flipped(), swapped: false, ..self }
    }

    /// The writers at work that record into the histogram which is not
    /// active.
    pub open spec fn writers_into_sample(self) -> nat {
        self.even.into(!self.first_is_active) + self.odd.into(!self.first_is_active)
    }

    /// A recorder begins in a state that the protocol keeps.
    pub proof fn lemma_initial()
        ensures
            RecorderState::initial().inv(),
            RecorderState::initial().phaser.other_phase_is_quiet(),
    {
    }

    /// A writer that takes a ticket keeps the protocol, also while a reader
    /// waits.
    pub proof fn lemma_writer_entered(self, record: FlipRecord)
        requires
            self.inv(),
            !self.phaser.phase_is_even() ==> self.phaser.start_epoch + 1
                - crate::concurrent::phaser_model::odd_phase_start()
                < -crate::concurrent::phaser_model::odd_phase_start(),
        ensures
            self.writer_entered().inv(),
            self.phaser.waiting_inv(record) ==> self.writer_entered().phaser.waiting_inv(record),
            self.writer_entered().writers_into_sample() == self.writers_into_sample(),
    {
        self.phaser.lemma_writer_entered(record);
    }

    /// A writer that reads which histogram is active keeps the protocol; one
    /// with a ticket of the current phase does not come to record into the
    /// other histogram.
    pub proof fn lemma_writer_decided(self, ticket_is_odd: bool)
        requires
            self.inv(),
            ticket_is_odd ==> self.odd.undecided >= 1,
            !ticket_is_odd ==> self.even.undecided >= 1,
        ensures
            self.writer_decided(ticket_is_odd).inv(),
            self.writer_decided(ticket_is_odd).writers_into_sample() == self.writers_into_sample(),
    {
    }

    /// A writer that records and hands its ticket back keeps the protocol,
    /// also while a reader waits, and its record is counted once.
    pub proof fn lemma_writer_recorded(self, ticket_is_odd: bool, first: bool, record: FlipRecord)
        requires
            self.inv(),
            ticket_is_odd ==> self.odd.into(first) >= 1,
            !ticket_is_odd ==> self.even.into(first) >= 1,
        ensures
            self.writer_recorded(ticket_is_odd, first).inv(),
            self.phaser.waiting_inv(record) ==> self.writer_recorded(
                ticket_is_odd,
                first,
            ).phaser.waiting_inv(record),
            self.writer_recorded(ticket_is_odd, first).records_finished == self.records_finished
                + 1,
            self.writer_recorded(ticket_is_odd, first).records_in_first
                + self.writer_recorded(ticket_is_odd, first).records_in_second
                == self.records_in_first + self.records_in_second + 1,
            self.writer_recorded(ticket_is_odd, first).writers_into_sample()
                <= self.writers_into_sample(),
    {
        self.phaser.lemma_writer_left(ticket_is_odd, record);
    }

    /// The reader may swap the histograms and then flip the phase where no
    /// writer of the other phase is at work: the protocol is kept, and the
    /// reader can wait.
    pub proof fn lemma_swapped_and_flipped(self)
        requires
            self.inv(),
            self.phaser.other_phase_is_quiet(),
        ensures
            self.swapped_histograms().inv(),
            self.swapped_histograms().phaser.other_phase_is_quiet(),
            self.swapped_histograms().flipped().inv(),
            self.swapped_histograms().flipped().phaser.waiting_inv(
                self.swapped_histograms().phaser.flip_record(),
            ),
    {
        self.phaser.lemma_flipped();
    }

    /// The sample is quiet: once the reader sees that the writers of the old
    /// phase have caught up, no writer at work records into the histogram
    /// that was active before the swap, so that the histogram holds every
    /// record that went into it and changes no more until the next swap.
    pub proof fn lemma_sample_is_quiet(self, record: FlipRecord)
        requires
            self.inv(),
            !self.swapped,
            self.phaser.waiting_inv(record),
            self.phaser.caught_up(record),
        ensures
            self.writers_into_sample() == 0,
            self.phaser.other_phase_is_quiet(),
            self.records_finished == self.records_in_first + self.records_in_second,
    {
        self.phaser.lemma_caught_up_is_quiet(record);
    }
}

} // verus!
