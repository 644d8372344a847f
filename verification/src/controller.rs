//! The long-running render job controller.
//!
//! One controller owns the shared render state and every consumer's
//! delivery progress. It accepts replacement jobs at any time — resetting
//! all derived state and every consumer — appends frames as they complete,
//! discards results that belong to a superseded job, records the animated
//! loop once all frames are done, and honors a cooperative stop flag.
//!
//! The controller makes the decisions; performing backend work and moving
//! bytes over a transport are its caller's business.

use vstd::prelude::*;
use crate::delivery::ClientState;
use crate::delivery::Msg;
use crate::delivery::RenderFrame;
use crate::delivery::RenderJob;
use crate::delivery::RenderStatus;
use crate::delivery::client_waits;
use crate::delivery::drain_client;
use crate::delivery::frames_in_order;
use crate::delivery::render_finished;
use crate::delivery::trace_ok;

verus! {

/// Owns the render state of the active job and the progress of every
/// connected consumer.
pub struct AnimationJobController {
    /// The single mutable shared state: active job, completed frames, loop.
    pub status: RenderStatus,
    /// Increments on every job replacement; results from older generations
    /// are discarded rather than misapplied to the new job.
    pub generation: u64,
    /// Connected consumers: an opaque id and each one's delivery progress.
    pub clients: Vec<(u64, ClientState)>,
    /// Source of fresh consumer ids.
    pub next_client_id: u64,
    /// Cooperative stop flag, checked every loop iteration by the driver.
    pub stopping: bool,
}

impl AnimationJobController {
    /// Consumer ids are unique and below the id counter.
    pub open spec fn wf(self) -> bool {
        &&& forall|i: int, j: int|
            0 <= i < j < self.clients@.len() ==> (#[trigger] self.clients@[i]).0 != (
            #[trigger] self.clients@[j]).0
        &&& forall|i: int|
            0 <= i < self.clients@.len() ==> (#[trigger] self.clients@[i]).0
                < self.next_client_id
    }

    /// Is some consumer registered under this id?
    pub open spec fn has_client(self, id: u64) -> bool {
        exists|k: int| 0 <= k < self.clients@.len() && (#[trigger] self.clients@[k]).0 == id
    }

    pub fn new() -> (r: AnimationJobController)
        ensures
            r.wf(),
            r.status.job == (RenderJob {
                total_frames: 40,
                samples_per_pixel: 32,
                width: 320,
                height: 180,
                parallel: crate::delivery::ParallelType::PerFrame,
            }),
            r.status.frames@.len() == 0,
            r.status.gif is None,
            r.generation == 0,
            r.clients@.len() == 0,
            r.stopping == false,
    {
        AnimationJobController {
            status: Default::default(),
            generation: 0,
            clients: Vec::new(),
            next_client_id: 0,
            stopping: false,
        }
    }

    /// Register a new consumer; it starts needing the configuration.
    pub fn connect(&mut self) -> (id: u64)
        requires
            old(self).wf(),
            old(self).next_client_id < u64::MAX,
        ensures
            final(self).wf(),
            id == old(self).next_client_id,
            final(self).clients@ == old(self).clients@.push((id, ClientState::NeedsConfig)),
            final(self).next_client_id == id + 1,
            final(self).status == old(self).status,
            final(self).generation == old(self).generation,
            final(self).stopping == old(self).stopping,
    {
        let id = self.next_client_id;
        self.clients.push((id, ClientState::NeedsConfig));
        self.next_client_id = id + 1;
        id
    }

    /// Drop a consumer's tracked progress entirely (disconnect, or a
    /// permanently closed channel).
    pub fn disconnect(&mut self, id: u64)
        requires
            old(self).wf(),
        ensures
            final(self).wf(),
            !final(self).has_client(id),
            old(self).has_client(id) ==> exists|k: int|
                0 <= k < old(self).clients@.len() && (#[trigger] old(self).clients@[k]).0 == id
                    && final(self).clients@ == old(self).clients@.remove(k),
            !old(self).has_client(id) ==> final(self).clients@ == old(self).clients@,
            final(self).status == old(self).status,
            final(self).generation == old(self).generation,
            final(self).next_client_id == old(self).next_client_id,
            final(self).stopping == old(self).stopping,
    {
        let n = self.clients.len();
        let mut k: usize = 0;
        while k < n
            invariant
                k <= n,
                n == self.clients@.len(),
                *self == *old(self),
                old(self).wf(),
                forall|t: int| 0 <= t < k ==> (#[trigger] self.clients@[t]).0 != id,
            decreases n - k,
        {
            if self.clients[k].0 == id {
                let ghost k0 = k as int;
                self.clients.remove(k);
                proof {
                    let new = self.clients@;
                    let olds = old(self).clients@;
                    // Every remaining entry is an old entry at a distinct
                    // old index, so ids stay unique and `id` is gone.
                    assert forall|t: int| 0 <= t < new.len() implies #[trigger] new[t] == (
                    if t < k0 {
                        olds[t]
                    } else {
                        olds[t + 1]
                    }) by {}
                    assert forall|i: int, j: int| 0 <= i < j < new.len() implies (
                    #[trigger] new[i]).0 != (#[trigger] new[j]).0 by {}
                    assert forall|t: int| 0 <= t < new.len() implies (#[trigger] new[t]).0
                        != id by {
                        if t >= k0 {
                            assert(new[t] == olds[t + 1]);
                        }
                    }
                }
                return ;
            }
            k = k + 1;
        }
        proof {
            if self.has_client(id) {
                let t = choose|t: int|
                    0 <= t < self.clients@.len() && (#[trigger] self.clients@[t]).0 == id;
                assert(false);
            }
        }
    }

    /// Replace the active job: reset the shared render state and every
    /// consumer's delivery progress back to the start. Results of the old
    /// job that are still in flight carry the old generation and will be
    /// discarded on arrival.
    pub fn replace_job(&mut self, job: RenderJob)
        requires
            old(self).wf(),
            old(self).generation < u64::MAX,
        ensures
            final(self).wf(),
            final(self).status.job == job,
            final(self).status.frames@.len() == 0,
            final(self).status.gif is None,
            final(self).generation == old(self).generation + 1,
            final(self).clients@.len() == old(self).clients@.len(),
            forall|k: int|
                0 <= k < final(self).clients@.len() ==> #[trigger] final(self).clients@[k] == (
                old(self).clients@[k].0, ClientState::NeedsConfig),
            final(self).next_client_id == old(self).next_client_id,
            final(self).stopping == old(self).stopping,
    {
        self.status = RenderStatus { job, frames: Vec::new(), gif: None };
        self.generation = self.generation + 1;
        let n = self.clients.len();
        let mut k: usize = 0;
        while k < n
            invariant
                k <= n,
                n == self.clients@.len(),
                self.clients@.len() == old(self).clients@.len(),
                self.status.job == job,
                self.status.frames@.len() == 0,
                self.status.gif is None,
                self.generation == old(self).generation + 1,
                self.stopping == old(self).stopping,
                forall|t: int|
                    0 <= t < k ==> #[trigger] self.clients@[t] == (
                    old(self).clients@[t].0, ClientState::NeedsConfig),
                forall|t: int|
                    k <= t < n ==> #[trigger] self.clients@[t] == old(self).clients@[t],
                self.next_client_id == old(self).next_client_id,
            decreases n - k,
        {
            let id = self.clients[k].0;
            self.clients.set(k, (id, ClientState::NeedsConfig));
            k = k + 1;
        }
    }

    /// A frame finished rendering. It is appended to the shared state only
    /// if it belongs to the current job; a result of a superseded job is
    /// discarded, never misapplied.
    pub fn frame_done(&mut self, generation: u64, index: usize, frame: RenderFrame)
        requires
            old(self).wf(),
        ensures
            final(self).wf(),
            generation == old(self).generation ==> final(self).status.frames@
                == old(self).status.frames@.push((index, frame))
                && final(self).status.job == old(self).status.job
                && final(self).status.gif == old(self).status.gif,
            generation != old(self).generation ==> *final(self) == *old(self),
            final(self).generation == old(self).generation,
            final(self).clients@ == old(self).clients@,
            final(self).next_client_id == old(self).next_client_id,
            final(self).stopping == old(self).stopping,
    {
        if generation == self.generation {
            self.status.frames.push((index, frame));
        }
    }

    /// Are all frames of the current job done, with the animated loop still
    /// to be built?
    pub fn needs_gif(&self) -> (r: bool)
        ensures
            r <==> (self.status.frames@.len() == self.status.job.total_frames
                && self.status.gif is None),
    {
        self.status.frames.len() == self.status.job.total_frames && self.status.gif.is_none()
    }

    /// Store the animated loop built from the current job's frames; one
    /// built for a superseded job is discarded.
    pub fn gif_built(&mut self, generation: u64, gif: Vec<u8>)
        requires
            old(self).wf(),
        ensures
            final(self).wf(),
            generation == old(self).generation ==> final(self).status.gif == Some(gif)
                && final(self).status.job == old(self).status.job
                && final(self).status.frames@ == old(self).status.frames@,
            generation != old(self).generation ==> *final(self) == *old(self),
            final(self).generation == old(self).generation,
            final(self).clients@ == old(self).clients@,
            final(self).next_client_id == old(self).next_client_id,
            final(self).stopping == old(self).stopping,
    {
        if generation == self.generation {
            self.status.gif = Some(gif);
        }
    }

    /// Ask the controller loop to wind down.
    pub fn stop(&mut self)
        ensures
            final(self).stopping == true,
            final(self).status == old(self).status,
            final(self).generation == old(self).generation,
            final(self).clients@ == old(self).clients@,
            final(self).next_client_id == old(self).next_client_id,
    {
        self.stopping = true;
    }

    pub fn should_stop(&self) -> (r: bool)
        ensures
            r == self.stopping,
    {
        self.stopping
    }

    /// Run every consumer as far forward as the shared state allows,
    /// collecting the messages each one is owed, with sends assumed to
    /// succeed; `pool_status` is the backend's status line for
    /// configuration messages. After a pass no consumer has pending work,
    /// each consumer's messages consistently extend whatever trace it was
    /// owed, and a consumer that connected fresh against a finished job
    /// ends `Complete`.
    pub fn update_clients(&mut self, pool_status: &Vec<u8>) -> (out: Vec<(u64, Vec<Msg>)>)
        requires
            old(self).wf(),
        ensures
            final(self).wf(),
            final(self).status == old(self).status,
            final(self).generation == old(self).generation,
            final(self).next_client_id == old(self).next_client_id,
            final(self).stopping == old(self).stopping,
            final(self).clients@.len() == old(self).clients@.len(),
            out@.len() == old(self).clients@.len(),
            forall|k: int|
                0 <= k < final(self).clients@.len() ==> (#[trigger] final(self).clients@[k]).0
                    == old(self).clients@[k].0 && client_waits(
                    final(self).clients@[k].1,
                    old(self).status,
                ) && (out@[k].0 == old(self).clients@[k].0),
            frames_in_order(old(self).status) ==> forall|k: int, prefix: Seq<Msg>|
                0 <= k < final(self).clients@.len() && #[trigger] trace_ok(
                    prefix,
                    old(self).status,
                    pool_status@,
                    old(self).clients@[k].1,
                ) ==> trace_ok(
                    prefix + (#[trigger] out@[k].1)@,
                    old(self).status,
                    pool_status@,
                    final(self).clients@[k].1,
                ),
            forall|k: int|
                0 <= k < final(self).clients@.len() && old(self).clients@[k].1
                    == ClientState::NeedsConfig && frames_in_order(old(self).status)
                    && render_finished(old(self).status)
                    ==> (#[trigger] final(self).clients@[k]).1 == ClientState::Complete
                    && trace_ok(
                    out@[k].1@,
                    old(self).status,
                    pool_status@,
                    ClientState::Complete,
                ),
    {
        let n = self.clients.len();
        let mut out: Vec<(u64, Vec<Msg>)> = Vec::new();
        let mut k: usize = 0;
        while k < n
            invariant
                k <= n,
                n == self.clients@.len(),
                self.clients@.len() == old(self).clients@.len(),
                self.status == old(self).status,
                self.generation == old(self).generation,
                self.next_client_id == old(self).next_client_id,
                self.stopping == old(self).stopping,
                out@.len() == k,
                forall|t: int|
                    0 <= t < k ==> (#[trigger] self.clients@[t]).0 == old(self).clients@[t].0
                        && client_waits(self.clients@[t].1, old(self).status) && (out@[t].0 == old(
                        self,
                    ).clients@[t].0),
                forall|t: int|
                    k <= t < n ==> #[trigger] self.clients@[t] == old(self).clients@[t],
                frames_in_order(old(self).status) ==> forall|t: int, prefix: Seq<Msg>|
                    0 <= t < k && #[trigger] trace_ok(
                        prefix,
                        old(self).status,
                        pool_status@,
                        old(self).clients@[t].1,
                    ) ==> trace_ok(
                        prefix + (#[trigger] out@[t].1)@,
                        old(self).status,
                        pool_status@,
                        self.clients@[t].1,
                    ),
                forall|t: int|
                    0 <= t < k && old(self).clients@[t].1 == ClientState::NeedsConfig
                        && frames_in_order(old(self).status) && render_finished(old(self).status)
                        ==> (#[trigger] self.clients@[t]).1 == ClientState::Complete && trace_ok(
                        out@[t].1@,
                        old(self).status,
                        pool_status@,
                        ClientState::Complete,
                    ),
            decreases n - k,
        {
            let (id, state) = self.clients[k];
            let mut cs = state;
            let msgs = drain_client(&mut cs, &self.status, pool_status);
            self.clients.set(k, (id, cs));
            out.push((id, msgs));
            k = k + 1;
        }
        proof {
            assert forall|i: int, j: int|
                0 <= i < j < self.clients@.len() implies (#[trigger] self.clients@[i]).0 != (
            #[trigger] self.clients@[j]).0 by {
                assert(self.clients@[i].0 == old(self).clients@[i].0);
                assert(self.clients@[j].0 == old(self).clients@[j].0);
            }
            assert forall|i: int|
                0 <= i < self.clients@.len() implies (#[trigger] self.clients@[i]).0
                < self.next_client_id by {
                assert(self.clients@[i].0 == old(self).clients@[i].0);
            }
        }
        out
    }
}

} // verus!
