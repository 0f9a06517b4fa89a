//! The refresher: when the next fetch is due, and what becomes of the store
//! when a fetch has ended.
//!
//! The refresher is idle until its deadline, then fetching, then, if the
//! fetch and the packing went well, swapping; after that it is idle again.
//! Each state is a type of its own, so a step can only be taken from the
//! state it belongs to. Waiting and fetching are the caller's work. Time is a
//! count of ticks from an origin that the caller chooses.

use crate::bundle::{archive_of, encodable, packed, Bundle};
use crate::error::{FetchError, RefreshError, SerializationError};
use crate::store::{consistent, BundleFile, BundleFileView, BundleStore};
use vstd::prelude::*;

verus! {

/// The cadence of the refresher: the fixed interval between two fetches, and
/// the time at which the next fetch is due.
#[derive(Clone, Copy, Debug, PartialEq, Eq, Structural)]
pub struct Schedule {
    pub interval: u64,
    pub deadline: u64,
}

impl Schedule {
    /// The schedule one interval later. The deadline moves from the deadline
    /// before, not from the time at which a fetch ended.
    pub open spec fn advanced(self) -> Schedule {
        Schedule { interval: self.interval, deadline: (self.deadline + self.interval) as u64 }
    }

    /// Whether the deadline after this one can still be written down.
    pub open spec fn can_advance(self) -> bool {
        self.deadline + self.interval <= u64::MAX
    }

    /// The deadline after `ticks` more fetches.
    pub open spec fn deadline_after(self, ticks: nat) -> int
        decreases ticks,
    {
        if ticks == 0 {
            self.deadline as int
        } else {
            self.deadline_after((ticks - 1) as nat) + self.interval
        }
    }
}

/// How long to wait at `now` for a deadline: the time that is left, and
/// nothing when the deadline has passed.
pub open spec fn wait(deadline: u64, now: u64) -> u64 {
    if now >= deadline {
        0
    } else {
        (deadline - now) as u64
    }
}

/// The refresher between two fetches.
pub struct Idle {
    schedule: Schedule,
}

/// The refresher while a fetch is under way. Its deadline is already that of
/// the fetch after this one.
pub struct Fetching {
    schedule: Schedule,
}

/// The refresher with a new pair in hand, about to replace the current one.
pub struct Swapping {
    schedule: Schedule,
    pair: BundleFile,
}

/// How a fetch ended.
pub enum Fetched {
    /// There is a new pair to install.
    Success(Swapping),
    /// The fetch or the packing failed; the refresher is idle again and the
    /// failure is to be reported.
    Failure(Idle, RefreshError),
}

impl Idle {
    /// The cadence.
    pub closed spec fn schedule(&self) -> Schedule {
        self.schedule
    }

    /// An idle refresher whose first fetch is due one interval after `now`.
    pub fn start(now: u64, interval: u64) -> (idle: Idle)
        requires
            now + interval <= u64::MAX,
        ensures
            idle.schedule() == (Schedule { interval, deadline: (now + interval) as u64 }),
    {
        Idle { schedule: Schedule { interval, deadline: now + interval } }
    }

    /// The time at which the next fetch is due.
    pub fn deadline(&self) -> (deadline: u64)
        ensures
            deadline == self.schedule().deadline,
    {
        self.schedule.deadline
    }

    /// The interval between two fetches.
    pub fn interval(&self) -> (interval: u64)
        ensures
            interval == self.schedule().interval,
    {
        self.schedule.interval
    }

    /// Whether [`Idle::fire`] can be called: the deadline after this one still
    /// fits.
    pub fn can_fire(&self) -> (yes: bool)
        ensures
            yes == self.schedule().can_advance(),
    {
        self.schedule.deadline <= u64::MAX - self.schedule.interval
    }

    /// How long to wait at `now` until the fetch is due. When the deadline
    /// has passed, the fetch is due at once.
    pub fn delay(&self, now: u64) -> (delay: u64)
        ensures
            delay == wait(self.schedule().deadline, now),
    {
        if now >= self.schedule.deadline {
            0
        } else {
            self.schedule.deadline - now
        }
    }

    /// The deadline has come: the fetch begins, and the next deadline is one
    /// interval after this one.
    pub fn fire(self) -> (fetching: Fetching)
        requires
            self.schedule().can_advance(),
        ensures
            fetching.schedule() == self.schedule().advanced(),
    {
        Fetching {
            schedule: Schedule {
                interval: self.schedule.interval,
                deadline: self.schedule.deadline + self.schedule.interval,
            },
        }
    }
}

impl Fetching {
    /// The cadence.
    pub closed spec fn schedule(&self) -> Schedule {
        self.schedule
    }

    /// The fetch has ended. A fetched bundle is packed, and if that goes
    /// well there is a pair to install. A failed fetch and a failed packing
    /// leave nothing to install: the refresher is idle again, with the
    /// deadline it already had.
    pub fn finish(self, fetched: Result<Bundle, FetchError>) -> (out: Fetched)
        ensures
            match fetched {
                Err(e) => out matches Fetched::Failure(idle, failure) && idle.schedule()
                    == self.schedule() && failure == RefreshError::Fetch(e),
                Ok(bundle) => match out {
                    Fetched::Success(swapping) => {
                        &&& swapping.schedule() == self.schedule()
                        &&& swapping.pair().bundle == bundle@
                        &&& packed(bundle@) == Ok::<Seq<u8>, SerializationError>(
                            swapping.pair().file,
                        )
                        &&& consistent(swapping.pair())
                    },
                    Fetched::Failure(idle, RefreshError::Serialization(error)) => {
                        &&& idle.schedule() == self.schedule()
                        &&& packed(bundle@) == Err::<Seq<u8>, SerializationError>(error)
                    },
                    Fetched::Failure(_, RefreshError::Fetch(_)) => false,
                },
            },
            out is Success <==> (fetched matches Ok(bundle) && encodable(bundle@) && archive_of(
                bundle@,
            ) is Some),
    {
        let schedule = self.schedule;
        match fetched {
            Err(e) => Fetched::Failure(Idle { schedule }, RefreshError::Fetch(e)),
            Ok(bundle) => match BundleFile::try_from(bundle) {
                Ok(pair) => Fetched::Success(Swapping { schedule, pair }),
                Err(e) => Fetched::Failure(Idle { schedule }, RefreshError::Serialization(e)),
            },
        }
    }
}

impl Swapping {
    /// The cadence.
    pub closed spec fn schedule(&self) -> Schedule {
        self.schedule
    }

    /// The pair to install.
    pub closed spec fn pair(&self) -> BundleFileView {
        self.pair@
    }

    /// Replaces the current pair by the new one.
    pub fn install(self, store: &mut BundleStore) -> (idle: Idle)
        ensures
            final(store)@ == self.pair(),
            idle.schedule() == self.schedule(),
    {
        let Swapping { schedule, pair } = self;
        store.swap(pair);
        Idle { schedule }
    }
}

/// The pair that is served once a fetch has ended: the new pair after a
/// success, the pair served before after a failure.
pub open spec fn served_after(before: BundleFileView, fetched: Fetched) -> BundleFileView {
    match fetched {
        Fetched::Success(swapping) => swapping.pair(),
        Fetched::Failure(_, _) => before,
    }
}

/// The cadence once a fetch has ended.
pub open spec fn schedule_after(fetched: Fetched) -> Schedule {
    match fetched {
        Fetched::Success(swapping) => swapping.schedule(),
        Fetched::Failure(idle, _) => idle.schedule(),
    }
}

impl Fetched {
    /// Brings the refresher back to idle: installs the new pair if there is
    /// one, and hands back the failure to report if there is one. After a
    /// failure the store holds what it held before.
    pub fn settle(self, store: &mut BundleStore) -> (out: (Idle, Option<RefreshError>))
        ensures
            final(store)@ == served_after(old(store)@, self),
            out.0.schedule() == schedule_after(self),
            match self {
                Fetched::Success(_) => out.1 is None,
                Fetched::Failure(_, failure) => out.1 == Some(failure),
            },
    {
        match self {
            Fetched::Success(swapping) => (swapping.install(store), None),
            Fetched::Failure(idle, failure) => (idle, Some(failure)),
        }
    }
}

/// The deadlines lie one interval apart, whatever came of the fetches in
/// between: the deadline after `ticks` more fetches is this deadline plus
/// `ticks` intervals.
pub proof fn lemma_fixed_cadence(schedule: Schedule, ticks: nat)
    ensures
        schedule.deadline_after(ticks) == schedule.deadline + ticks * schedule.interval,
    decreases ticks,
{
    let interval = schedule.interval as int;
    if ticks > 0 {
        lemma_fixed_cadence(schedule, (ticks - 1) as nat);
        assert(ticks * interval == (ticks - 1) * interval + interval) by (nonlinear_arith);
    } else {
        assert(ticks * interval == 0) by (nonlinear_arith)
            requires
                ticks == 0,
        ;
    }
}

/// A failed fetch changes neither what is served nor the cadence: the pair
/// served after it is the pair served before it, and the refresher is idle
/// again with its next fetch due one interval after the deadline of the
/// failed one.
pub proof fn lemma_failed_fetch(before: BundleFileView, schedule: Schedule, fetched: Fetched)
    requires
        schedule.can_advance(),
        fetched matches Fetched::Failure(idle, _) && idle.schedule() == schedule.advanced(),
    ensures
        served_after(before, fetched) == before,
        schedule_after(fetched).deadline == schedule.deadline + schedule.interval,
        schedule_after(fetched).interval == schedule.interval,
        schedule_after(fetched).deadline == schedule.deadline_after(1),
{
    reveal_with_fuel(Schedule::deadline_after, 2);
}

} // verus!
