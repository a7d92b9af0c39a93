//! The writer/reader phaser: writers go about their critical sections without
//! waiting for anyone, and a reader can wait until every writer that began
//! before a flip of the phase is done.

use vstd::prelude::*;
use parking_lot::{Mutex, MutexGuard, RawMutex};
use std::sync::atomic::{AtomicIsize, Ordering};
use crate::concurrent::phaser_model::{
    initial_start_value, next_phase_is_even, ticket_is_odd, FlipRecord, PhaserState,
};

verus! {

/// The raw lock of the mutex of `parking_lot`. Nothing is known of it.
#[verifier::external_type_specification]
#[verifier::external_body]
pub struct ExRawMutex(RawMutex);

/// The mutex of `parking_lot`, which is the mutex of `lock_api` over that raw
/// lock. Nothing is known of what it holds.
#[verifier::external_type_specification]
#[verifier::external_body]
#[verifier::reject_recursive_types(R)]
#[verifier::reject_recursive_types(T)]
pub struct ExMutex<R, T: ?Sized>(parking_lot::lock_api::Mutex<R, T>);

/// The reader lock while it is held. It holds the guard that `Mutex::lock`
/// of `parking_lot` returned; the lock is released when this value is dropped.
#[verifier::external_body]
pub struct ReaderLock<'a> {
    guard: MutexGuard<'a, ()>,
}

/// Makes a mutex with `Mutex::new` of `parking_lot`. Nothing is claimed of it.
#[verifier::external_body]
fn new_reader_mutex() -> Mutex<()> {
    Mutex::new(())
}

/// Takes the mutex with `Mutex::lock` of `parking_lot`, which waits until the
/// mutex is free. Nothing is claimed of the guard.
#[verifier::external_body]
fn lock_reader_mutex<'a>(mutex: &'a Mutex<()>) -> ReaderLock<'a> {
    ReaderLock { guard: mutex.lock() }
}

/// Whether a writer that read `critical_value` from the start epoch hands its
/// ticket back to the odd end epoch.
pub fn writer_belongs_to_odd_phase(critical_value: isize) -> (r: bool)
    ensures
        r == ticket_is_odd(critical_value as int),
{
    critical_value < 0
}

/// Whether the phase after the one of start epoch `start_epoch` is even.
pub fn flip_leads_to_even_phase(start_epoch: isize) -> (r: bool)
    ensures
        r == next_phase_is_even(start_epoch as int),
{
    start_epoch < 0
}

/// The start epoch with which a phase begins.
pub fn phase_start_value(phase_is_even: bool) -> (r: isize)
    ensures
        r == initial_start_value(phase_is_even),
{
    if phase_is_even {
        0
    } else {
        isize::MIN
    }
}

/// Whether the writers of the phase before the flip of `ticket` are done,
/// where the two end epochs hold `odd_end_epoch` and `even_end_epoch`: the end
/// epoch of the phase before the flip has reached what the start epoch was at
/// the flip.
pub fn flip_has_caught_up(ticket: &FlipTicket, odd_end_epoch: isize, even_end_epoch: isize) -> (r:
    bool)
    ensures
        r == (if ticket.next_phase_is_even {
            odd_end_epoch == ticket.start_value_at_flip
        } else {
            even_end_epoch == ticket.start_value_at_flip
        }),
        r == ticket.reached_by(odd_end_epoch, even_end_epoch),
{
    if ticket.next_phase_is_even {
        odd_end_epoch == ticket.start_value_at_flip
    } else {
        even_end_epoch == ticket.start_value_at_flip
    }
}

/// The three epochs of the phaser and the lock that readers take.
pub struct WriterReaderPhaser {
    start_epoch: AtomicIsize,
    even_end_epoch: AtomicIsize,
    odd_end_epoch: AtomicIsize,
    reader_lock: Mutex<()>,
}

/// The ticket of a writer in its critical section: the end epoch that the
/// writer hands it back to.
#[must_use]
pub struct WriterCriticalSectionGuard<'a> {
    epoch: &'a AtomicIsize,
}

/// The reader lock of a phaser, held: only its holder can flip the phase.
pub struct PhaseFlipGuard<'a> {
    parent: &'a WriterReaderPhaser,
    lock: ReaderLock<'a>,
}

/// What a reader keeps from a flip while it waits for the writers.
pub struct FlipTicket {
    pub next_phase_is_even: bool,
    pub start_value_at_flip: isize,
}

impl FlipTicket {
    /// The ticket as the protocol keeps it.
    pub open spec fn record(&self) -> FlipRecord {
        FlipRecord {
            next_phase_is_even: self.next_phase_is_even,
            start_value_at_flip: self.start_value_at_flip as int,
        }
    }

    /// Whether a phaser whose end epochs hold `odd_end_epoch` and
    /// `even_end_epoch` has caught up with the flip of the ticket, as the
    /// protocol has it.
    pub open spec fn reached_by(&self, odd_end_epoch: isize, even_end_epoch: isize) -> bool {
        (PhaserState {
            start_epoch: 0,
            even_end_epoch: even_end_epoch as int,
            odd_end_epoch: odd_end_epoch as int,
            even_writers: 0,
            odd_writers: 0,
        }).caught_up(self.record())
    }

    /// Whether the phase that the ticket leads to is the one that follows the
    /// start epoch of the ticket.
    pub open spec fn fits_the_flip(&self) -> bool {
        self.next_phase_is_even == next_phase_is_even(self.start_value_at_flip as int)
    }
}

impl<'a> WriterCriticalSectionGuard<'a> {
    /// The end epoch that the writer hands its ticket back to.
    pub closed spec fn spec_epoch(&self) -> AtomicIsize {
        *self.epoch
    }
}

impl<'a> PhaseFlipGuard<'a> {
    /// The phaser whose reader lock is held.
    pub closed spec fn spec_parent(&self) -> WriterReaderPhaser {
        *self.parent
    }
}

impl WriterReaderPhaser {
    /// The end epoch of the even phases.
    pub closed spec fn spec_even_end_epoch(&self) -> AtomicIsize {
        self.even_end_epoch
    }

    /// The end epoch of the odd phases.
    pub closed spec fn spec_odd_end_epoch(&self) -> AtomicIsize {
        self.odd_end_epoch
    }

    /// A phaser in its first, even phase.
    pub fn new() -> WriterReaderPhaser {
        WriterReaderPhaser {
            start_epoch: AtomicIsize::new(phase_start_value(true)),
            even_end_epoch: AtomicIsize::new(phase_start_value(true)),
            odd_end_epoch: AtomicIsize::new(phase_start_value(false)),
            reader_lock: new_reader_mutex(),
        }
    }

    /// Lets a writer into its critical section: takes a ticket from the start
    /// epoch, and returns the guard that hands it back, to the end epoch of
    /// the odd or of the even phases of this phaser, as the ticket says.
    pub fn begin_writer_critical_section<'a>(&'a self) -> (r: WriterCriticalSectionGuard<'a>)
        ensures
            r.spec_epoch() == self.spec_even_end_epoch() || r.spec_epoch()
                == self.spec_odd_end_epoch(),
    {
        let critical_value = self.start_epoch.fetch_add(1, Ordering::Acquire);
        if writer_belongs_to_odd_phase(critical_value) {
            WriterCriticalSectionGuard { epoch: &self.odd_end_epoch }
        } else {
            WriterCriticalSectionGuard { epoch: &self.even_end_epoch }
        }
    }

    /// Takes the reader lock, waiting for another reader to release it. The
    /// guard is one of this phaser.
    pub fn reader_lock<'a>(&'a self) -> (r: PhaseFlipGuard<'a>)
        ensures
            r.spec_parent() == *self,
    {
        PhaseFlipGuard { parent: self, lock: lock_reader_mutex(&self.reader_lock) }
    }
}

impl<'a> WriterCriticalSectionGuard<'a> {
    /// Ends the critical section of the writer: hands the ticket back to the
    /// end epoch of the phase in which it was taken.
    pub fn end_writer_critical_section(self) {
        let _ = self.epoch.fetch_add(1, Ordering::Release);
    }
}

impl<'a> PhaseFlipGuard<'a> {
    /// Flips the phase: sets the end epoch of the new phase to where that
    /// phase begins, and swaps the start epoch for that value. The writers
    /// that took their ticket before are then to be waited for with
    /// `writers_have_caught_up`.
    pub fn begin_flip(&self) -> (ticket: FlipTicket)
        ensures
            ticket.fits_the_flip(),
    {
        let next_phase_is_even = flip_leads_to_even_phase(
            self.parent.start_epoch.load(Ordering::SeqCst),
        );
        let initial_start_value = phase_start_value(next_phase_is_even);
        if next_phase_is_even {
            self.parent.even_end_epoch.store(initial_start_value, Ordering::Relaxed);
        } else {
            self.parent.odd_end_epoch.store(initial_start_value, Ordering::Relaxed);
        }
        let start_value_at_flip = self.parent.start_epoch.swap(
            initial_start_value,
            Ordering::SeqCst,
        );
        // only a reader changes the sign of the start epoch, and this reader
        // holds the reader lock: the sign is what it was at the load
        FlipTicket {
            next_phase_is_even: flip_leads_to_even_phase(start_value_at_flip),
            start_value_at_flip,
        }
    }

    /// Whether every writer that took its ticket before the flip of `ticket`
    /// has handed it back: the end epoch of the phase before the flip has
    /// reached what the start epoch was at the flip.
    /// What the end epochs hold is read here; `flip_has_caught_up` decides.
    pub fn writers_have_caught_up(&self, ticket: &FlipTicket) -> bool {
        let odd_end_epoch = self.parent.odd_end_epoch.load(Ordering::Relaxed);
        let even_end_epoch = self.parent.even_end_epoch.load(Ordering::Relaxed);
        flip_has_caught_up(ticket, odd_end_epoch, even_end_epoch)
    }

    /// Releases the reader lock.
    pub fn reader_unlock(self) {
    }
}

} // verus!
