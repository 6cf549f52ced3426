//! The effect driver: a state machine that owns a mounted spatial index and
//! a keyed scratch store, and runs an effect's three phases. `Unmounted`
//! until an index is attached; `Mounted` until the startup phase first
//! succeeds; `Running` from then on, with the compute and draw phases run on
//! every step.
use crate::buffer::{BufferError, BufferStore};
use crate::clock::{instant_now, nanos_since};
use crate::geometry::Vec2i;
use crate::index::{GeometryError, SpatialIndex};
use vstd::prelude::*;

verus! {

/// The time snapshot handed to the compute and draw phases: time since mount
/// and time since the previous step, in nanoseconds. Recomputed once per
/// step from the process clock; nothing is promised of the values.
#[derive(Clone, Copy, PartialEq, Eq, Structural, Debug)]
pub struct Time {
    pub elapsed_ns: u64,
    pub delta_ns: u64,
}

/// A failure reported by an effect phase; `step` passes it through
/// unchanged.
#[derive(Clone, Copy, PartialEq, Eq, Structural, Debug)]
pub enum PhaseError {
    /// A scratch-store access failed.
    Buffer(BufferError),
    /// A spatial query failed.
    Geometry(GeometryError),
    /// Any other failure of effect logic, under a code the effect chooses.
    Failed(u64),
}

/// Why a driver operation failed.
#[derive(Clone, Copy, PartialEq, Eq, Structural, Debug)]
pub enum DriverError {
    /// An index-dependent operation on a driver with no index mounted.
    NotMounted,
    /// `mount` on a driver that already holds an index.
    AlreadyMounted,
    /// An effect phase failed; the phase's own error, unchanged.
    Phase(PhaseError),
}

/// The three pluggable phases of an effect. Phases keep their state in the
/// scratch store; none of them may change the points of the index, only its
/// colors.
pub trait Effect<C> {
    /// Runs once, before the first compute: initialize scratch state.
    fn startup(&self, index: &mut SpatialIndex<C>, store: &mut BufferStore<C>) -> (r: Result<
        (),
        PhaseError,
    >)
        ensures
            final(index).same_layout(*old(index)),
    ;

    /// Runs every step: advance scratch state by the time snapshot.
    fn compute(&self, index: &SpatialIndex<C>, store: &mut BufferStore<C>, time: &Time) -> (r:
        Result<(), PhaseError>);

    /// Runs every step after a successful compute: write colors.
    fn draw(&self, index: &mut SpatialIndex<C>, store: &BufferStore<C>, time: &Time) -> (r: Result<
        (),
        PhaseError,
    >)
        ensures
            final(index).same_layout(*old(index)),
    ;
}

/// The driver: an effect, an optionally mounted spatial index, the effect's
/// scratch store, and the state machine position.
pub struct Driver<C, E> {
    effect: E,
    index: Option<SpatialIndex<C>>,
    store: BufferStore<C>,
    started: bool,
    startup_runs: Ghost<int>,
    start: std::time::Instant,
    last: std::time::Instant,
}

impl<C: Copy, E: Effect<C>> Driver<C, E> {
    /// An index is mounted.
    pub closed spec fn is_mounted(self) -> bool {
        self.index is Some
    }

    /// The startup phase has succeeded; compute and draw run on every
    /// further step.
    pub closed spec fn is_running(self) -> bool {
        self.started
    }

    /// How many times the startup phase has been invoked.
    pub closed spec fn startup_count(self) -> int {
        self.startup_runs@
    }

    /// The mounted index (meaningful only while mounted).
    pub closed spec fn spec_index(self) -> SpatialIndex<C> {
        self.index->0
    }

    /// The scratch store.
    pub closed spec fn spec_store(self) -> BufferStore<C> {
        self.store
    }

    /// A fresh, unmounted driver around an effect.
    pub fn new(effect: E) -> (r: Driver<C, E>)
        ensures
            !r.is_mounted(),
            !r.is_running(),
            r.startup_count() == 0,
            r.spec_store().contents() == Map::<Seq<char>, crate::buffer::BufferEntry<C>>::empty(),
    {
        let now = instant_now();
        Driver {
            effect,
            index: None,
            store: BufferStore::new(),
            started: false,
            startup_runs: Ghost(0),
            start: now,
            last: now,
        }
    }

    /// Attach an index and a fresh scratch store. Fails exactly when an
    /// index is already mounted, and then changes nothing.
    pub fn mount(&mut self, index: SpatialIndex<C>) -> (r: Result<(), DriverError>)
        ensures
            r is Ok <==> !old(self).is_mounted(),
            r is Err ==> r == Err::<(), DriverError>(DriverError::AlreadyMounted) && *final(self)
                == *old(self),
            r is Ok ==> final(self).is_mounted() && final(self).spec_index() == index,
            r is Ok ==> final(self).spec_store().contents() == Map::<
                Seq<char>,
                crate::buffer::BufferEntry<C>,
            >::empty(),
            final(self).is_running() == old(self).is_running(),
            final(self).startup_count() == old(self).startup_count(),
    {
        match &self.index {
            Some(_) => Err(DriverError::AlreadyMounted),
            None => {
                self.index = Some(index);
                self.store = BufferStore::new();
                let now = instant_now();
                self.start = now;
                self.last = now;
                Ok(())
            },
        }
    }

    /// Run one step of the state machine. Before an index is mounted this
    /// fails fast. On the first steps after mounting, the startup phase runs
    /// until it first succeeds; a startup failure leaves the driver mounted
    /// but not running, and the next step retries. Once running, the compute
    /// phase runs, then — only if compute succeeded — the draw phase; a
    /// phase failure propagates unchanged and skips what follows it. The
    /// mounted layout (points, vertices, center, domain) never changes.
    pub fn step(&mut self) -> (r: Result<(), DriverError>)
        ensures
            r == Err::<(), DriverError>(DriverError::NotMounted) <==> !old(self).is_mounted(),
            final(self).is_mounted() == old(self).is_mounted(),
            !old(self).is_mounted() ==> final(self).is_running() == old(self).is_running(),
            !old(self).is_mounted() ==> final(self).startup_count() == old(self).startup_count(),
            !old(self).is_mounted() ==> final(self).spec_store() == old(self).spec_store(),
            old(self).is_mounted() ==> final(self).spec_index().same_layout(
                old(self).spec_index(),
            ),
            old(self).is_mounted() && old(self).is_running() ==> final(self).is_running(),
            old(self).is_mounted() && old(self).is_running() ==> final(self).startup_count() == old(
                self,
            ).startup_count(),
            old(self).is_mounted() && !old(self).is_running() ==> final(self).startup_count()
                == old(self).startup_count() + 1,
            r is Ok ==> final(self).is_running(),
            old(self).is_mounted() && !final(self).is_running() ==> r is Err && r matches Err(
                DriverError::Phase(_),
            ),
    {
        let elapsed = nanos_since(&self.start);
        let delta = nanos_since(&self.last);
        self.last = instant_now();
        let time = Time { elapsed_ns: elapsed, delta_ns: delta };
        match &mut self.index {
            None => Err(DriverError::NotMounted),
            Some(ix) => {
                if !self.started {
                    let sres = self.effect.startup(ix, &mut self.store);
                    proof {
                        self.startup_runs@ = self.startup_runs@ + 1;
                    }
                    match sres {
                        Err(e) => { return Err(DriverError::Phase(e)) },
                        Ok(()) => {},
                    }
                    self.started = true;
                }
                match self.effect.compute(ix, &mut self.store, &time) {
                    Err(e) => { return Err(DriverError::Phase(e)) },
                    Ok(()) => {},
                }
                match self.effect.draw(ix, &self.store, &time) {
                    Err(e) => { return Err(DriverError::Phase(e)) },
                    Ok(()) => {},
                }
                Ok(())
            },
        }
    }

    /// Number of points of the mounted index; fails fast while unmounted.
    pub fn num_points(&self) -> (r: Result<usize, DriverError>)
        ensures
            r is Ok <==> self.is_mounted(),
            !self.is_mounted() ==> r == Err::<usize, DriverError>(DriverError::NotMounted),
            r is Ok ==> r->Ok_0 == self.spec_index().pos_seq().len() && r->Ok_0
                == self.spec_index().color_seq().len(),
    {
        match &self.index {
            None => Err(DriverError::NotMounted),
            Some(ix) => Ok(ix.num_points()),
        }
    }

    /// The mounted index's color buffer, in point-index order; fails fast
    /// while unmounted.
    pub fn colors(&self) -> (r: Result<&Vec<C>, DriverError>)
        ensures
            r is Ok <==> self.is_mounted(),
            !self.is_mounted() ==> r == Err::<&Vec<C>, DriverError>(DriverError::NotMounted),
            r is Ok ==> r->Ok_0@ == self.spec_index().color_seq() && r->Ok_0@.len()
                == self.spec_index().pos_seq().len(),
    {
        match &self.index {
            None => Err(DriverError::NotMounted),
            Some(ix) => Ok(ix.colors()),
        }
    }

    /// A snapshot of the mounted index's positions and colors, one pair per
    /// point; fails fast while unmounted.
    pub fn colors_and_positions(&self) -> (r: Result<Vec<(Vec2i, C)>, DriverError>)
        ensures
            r is Ok <==> self.is_mounted(),
            !self.is_mounted() ==> r == Err::<Vec<(Vec2i, C)>, DriverError>(
                DriverError::NotMounted,
            ),
            r is Ok ==> r->Ok_0@.len() == self.spec_index().pos_seq().len() && forall|k: int|
                0 <= k < r->Ok_0@.len() ==> #[trigger] r->Ok_0@[k] == (
                self.spec_index().pos_seq()[k],
                self.spec_index().color_seq()[k],
            ),
    {
        match &self.index {
            None => Err(DriverError::NotMounted),
            Some(ix) => Ok(ix.colors_and_positions()),
        }
    }

    /// The mounted index itself, for direct queries; `None` while unmounted.
    pub fn index(&self) -> (r: Option<&SpatialIndex<C>>)
        ensures
            r is Some <==> self.is_mounted(),
            r is Some ==> r->0 == &self.spec_index(),
    {
        match &self.index {
            None => None,
            Some(ix) => Some(ix),
        }
    }

    /// The scratch store, for reading effect state from outside.
    pub fn store(&self) -> (r: &BufferStore<C>)
        ensures
            *r == self.spec_store(),
    {
        &self.store
    }
}

} // verus!
