//! Per-consumer progressive delivery.
//!
//! Each connected consumer advances through a small state machine that hands
//! it, in order: the job configuration, then metadata and payload for every
//! completed frame, then the animated-loop artifact. Delivery never blocks:
//! when the next item is not available yet the consumer simply waits, and a
//! send that cannot complete leaves the consumer's state unchanged.

use vstd::prelude::*;

verus! {

/// The parallelization strategy of a job.
#[derive(Copy, Clone, Debug, PartialEq, Eq, Structural)]
pub enum ParallelType {
    PerBlock,
    PerFrame,
}

/// Render parameters for one animation sequence.
#[derive(Copy, Clone, Debug, PartialEq, Eq, Structural)]
pub struct RenderJob {
    pub total_frames: usize,
    pub samples_per_pixel: u32,
    pub width: u16,
    pub height: u16,
    pub parallel: ParallelType,
}

impl Default for RenderJob {
    /// The job rendered when no consumer has submitted one yet.
    fn default() -> (r: Self)
        ensures
            r == (RenderJob {
                total_frames: 40,
                samples_per_pixel: 32,
                width: 320,
                height: 180,
                parallel: ParallelType::PerFrame,
            }),
    {
        Self {
            total_frames: 40,
            samples_per_pixel: 32,
            width: 320,
            height: 180,
            parallel: ParallelType::PerFrame,
        }
    }
}

/// One completed frame: its raw pixels and its encoded payload.
pub struct RenderFrame {
    /// Raw RGB bytes, row-major, 3 bytes per pixel.
    pub img: Vec<u8>,
    /// The encoded image sent to consumers.
    pub png: Vec<u8>,
}

/// The shared render state: the active job, the frames completed so far in
/// completion order (each tagged with its frame index), and the animated
/// loop once all frames are done.
pub struct RenderStatus {
    pub job: RenderJob,
    pub frames: Vec<(usize, RenderFrame)>,
    pub gif: Option<Vec<u8>>,
}

impl Default for RenderStatus {
    fn default() -> (r: Self)
        ensures
            r.job == (RenderJob {
                total_frames: 40,
                samples_per_pixel: 32,
                width: 320,
                height: 180,
                parallel: ParallelType::PerFrame,
            }),
            r.frames@.len() == 0,
            r.gif is None,
    {
        Self { job: Default::default(), frames: vec![], gif: None }
    }
}

/// Delivery progress of one consumer.
#[derive(Copy, Clone, Debug, PartialEq, Eq, Structural)]
pub enum ClientState {
    NeedsConfig,
    NeedsFrameMeta(usize),
    NeedsFrame(usize),
    NeedsGifMeta,
    NeedsGif,
    Complete,
}

/// The kind of value a job field accepts on the wire.
#[derive(Copy, Clone, Debug, PartialEq, Eq, Structural)]
pub enum FieldKind {
    /// A nonnegative integer.
    Integer,
    /// One of the `ParallelType` strategy names.
    Strategy,
}

/// The schema of the job fields a consumer may submit, in wire order.
#[derive(Copy, Clone, Debug, PartialEq, Eq, Structural)]
pub struct JobSchema {
    pub total_frames: FieldKind,
    pub samples_per_pixel: FieldKind,
    pub width: FieldKind,
    pub height: FieldKind,
    pub parallel: FieldKind,
}

/// The schema the library accepts.
pub open spec fn spec_job_schema() -> JobSchema {
    JobSchema {
        total_frames: FieldKind::Integer,
        samples_per_pixel: FieldKind::Integer,
        width: FieldKind::Integer,
        height: FieldKind::Integer,
        parallel: FieldKind::Strategy,
    }
}

/// The accepted job fields, as sent to every consumer in its
/// configuration message.
pub fn render_job_fields() -> (r: JobSchema)
    ensures
        r == spec_job_schema(),
{
    JobSchema {
        total_frames: FieldKind::Integer,
        samples_per_pixel: FieldKind::Integer,
        width: FieldKind::Integer,
        height: FieldKind::Integer,
        parallel: FieldKind::Strategy,
    }
}

/// A wire message to one consumer, in the order the state machine emits
/// them: configuration (the job, the accepted field schema and the
/// backend's status line), then per-frame metadata and payload, then the
/// animated loop's notice and payload.
pub enum Msg {
    Config { job: RenderJob, schema: JobSchema, pool_status: Vec<u8> },
    FrameMeta { index: usize },
    FrameData { bytes: Vec<u8> },
    GifMeta,
    GifData { bytes: Vec<u8> },
}

/// What the state machine asks of the transport next.
pub enum ClientStep {
    /// Send this message; on success the consumer moves to the new state.
    Send(Msg, ClientState),
    /// Move to the new state without sending anything.
    Advance(ClientState),
    /// Nothing to do until the shared render state changes.
    Wait,
}

/// An exact copy of a payload.
pub fn copy_bytes(v: &Vec<u8>) -> (r: Vec<u8>)
    ensures
        r@ == v@,
{
    let mut r: Vec<u8> = Vec::new();
    let n = v.len();
    let mut i: usize = 0;
    while i < n
        invariant
            i <= n,
            n == v@.len(),
            r@ == v@.take(i as int),
        decreases n - i,
    {
        r.push(v[i]);
        proof {
            assert(r@ =~= v@.take(i + 1 as int));
        }
        i = i + 1;
    }
    proof {
        assert(v@.take(n as int) =~= v@);
    }
    r
}

/// Does the consumer in state `cs` have nothing to do against `render`?
pub open spec fn client_waits(cs: ClientState, render: RenderStatus) -> bool {
    match cs {
        ClientState::NeedsConfig => false,
        ClientState::NeedsFrameMeta(i) => i != render.job.total_frames && i
            >= render.frames@.len(),
        ClientState::NeedsFrame(i) => i >= render.frames@.len(),
        ClientState::NeedsGifMeta => false,
        ClientState::NeedsGif => render.gif is None,
        ClientState::Complete => true,
    }
}

/// The state a consumer moves to next, or `None` when it has to wait.
/// The mathematical transition relation of the delivery state machine.
pub open spec fn spec_step(cs: ClientState, render: RenderStatus) -> Option<ClientState> {
    match cs {
        ClientState::NeedsConfig => Some(ClientState::NeedsFrameMeta(0)),
        ClientState::NeedsFrameMeta(i) => if i == render.job.total_frames {
            Some(ClientState::NeedsGifMeta)
        } else if i < render.frames@.len() {
            Some(ClientState::NeedsFrame(i))
        } else {
            None
        },
        ClientState::NeedsFrame(i) => if i < render.frames@.len() {
            Some(ClientState::NeedsFrameMeta((i + 1) as usize))
        } else {
            None
        },
        ClientState::NeedsGifMeta => Some(ClientState::NeedsGif),
        ClientState::NeedsGif => if render.gif is Some {
            Some(ClientState::Complete)
        } else {
            None
        },
        ClientState::Complete => None,
    }
}

/// What a sent message and successor state must be, per starting state:
/// the exact send relation of the delivery machine.
pub open spec fn client_send_rel(
    cs: ClientState,
    render: RenderStatus,
    pool: Seq<u8>,
    m: Msg,
    next: ClientState,
) -> bool {
    match cs {
        ClientState::NeedsConfig => {
            &&& m matches Msg::Config { job, schema, pool_status } && job == render.job && schema
                == spec_job_schema() && pool_status@ == pool
            &&& next == ClientState::NeedsFrameMeta(0)
        },
        ClientState::NeedsFrameMeta(i) => {
            &&& i != render.job.total_frames
            &&& i < render.frames@.len()
            &&& m matches Msg::FrameMeta { index } && index == render.frames@[i as int].0
            &&& next == ClientState::NeedsFrame(i)
        },
        ClientState::NeedsFrame(i) => {
            &&& i < render.frames@.len()
            &&& m matches Msg::FrameData { bytes } && bytes@ == render.frames@[i as int].1.png@
            &&& next == ClientState::NeedsFrameMeta((i + 1) as usize)
        },
        ClientState::NeedsGifMeta => m is GifMeta && next == ClientState::NeedsGif,
        ClientState::NeedsGif => {
            &&& render.gif matches Some(g) && m matches Msg::GifData { bytes } && bytes@ == g@
            &&& next == ClientState::Complete
        },
        ClientState::Complete => false,
    }
}

/// The next delivery step for a consumer in state `cs`, evaluated against
/// the shared render state; `pool_status` is the backend's status line,
/// included in the configuration message. This is the transition rule of
/// the progressive-delivery state machine.
pub fn client_next(cs: ClientState, render: &RenderStatus, pool_status: &Vec<u8>) -> (r:
    ClientStep)
    ensures
        r matches ClientStep::Send(m, n) ==> spec_step(cs, *render) == Some(n)
            && client_send_rel(cs, *render, pool_status@, m, n),
        r matches ClientStep::Advance(n) ==> spec_step(cs, *render) == Some(n),
        r is Wait <==> spec_step(cs, *render) is None,
        cs is NeedsConfig ==> (r matches ClientStep::Send(m, n) && m matches Msg::Config { job, ..
        } && job == render.job && n == ClientState::NeedsFrameMeta(0)),
        cs matches ClientState::NeedsFrameMeta(i) ==> (i == render.job.total_frames ==> r
            == ClientStep::Advance(ClientState::NeedsGifMeta)),
        cs matches ClientState::NeedsFrameMeta(i) ==> ((i != render.job.total_frames && i
            < render.frames@.len()) ==> (r matches ClientStep::Send(m, n) && m matches
            Msg::FrameMeta { index } && index == render.frames@[i as int].0 && n
            == ClientState::NeedsFrame(i))),
        cs matches ClientState::NeedsFrame(i) ==> ((i < render.frames@.len()) ==> (r matches
            ClientStep::Send(m, n) && m matches Msg::FrameData { bytes } && bytes@
            == render.frames@[i as int].1.png@ && n == ClientState::NeedsFrameMeta(
            (i + 1) as usize,
        ))),
        cs is NeedsGifMeta ==> r == ClientStep::Send(Msg::GifMeta, ClientState::NeedsGif),
        cs is NeedsGif ==> (render.gif matches Some(g) ==> (r matches ClientStep::Send(m, n)
            && m matches Msg::GifData { bytes } && bytes@ == g@ && n == ClientState::Complete)),
        client_waits(cs, *render) ==> r is Wait,
        r is Wait ==> client_waits(cs, *render),
{
    match cs {
        ClientState::NeedsConfig => ClientStep::Send(
            Msg::Config {
                job: render.job,
                schema: render_job_fields(),
                pool_status: copy_bytes(pool_status),
            },
            ClientState::NeedsFrameMeta(0),
        ),
        ClientState::NeedsFrameMeta(i) => {
            if i == render.job.total_frames {
                // All frames delivered: move on to the animated loop.
                ClientStep::Advance(ClientState::NeedsGifMeta)
            } else if i < render.frames.len() {
                ClientStep::Send(
                    Msg::FrameMeta { index: render.frames[i].0 },
                    ClientState::NeedsFrame(i),
                )
            } else {
                // Frame i has not been rendered yet.
                ClientStep::Wait
            }
        },
        ClientState::NeedsFrame(i) => {
            if i < render.frames.len() {
                ClientStep::Send(
                    Msg::FrameData { bytes: copy_bytes(&render.frames[i].1.png) },
                    ClientState::NeedsFrameMeta(i + 1),
                )
            } else {
                ClientStep::Wait
            }
        },
        ClientState::NeedsGifMeta => ClientStep::Send(Msg::GifMeta, ClientState::NeedsGif),
        ClientState::NeedsGif => {
            match &render.gif {
                Some(g) => ClientStep::Send(
                    Msg::GifData { bytes: copy_bytes(g) },
                    ClientState::Complete,
                ),
                None => ClientStep::Wait,
            }
        },
        ClientState::Complete => ClientStep::Wait,
    }
}

/// Frames stand in the status in index order: the k-th completed frame is
/// frame k.
pub open spec fn frames_in_order(render: RenderStatus) -> bool {
    forall|k: int| 0 <= k < render.frames@.len() ==> (#[trigger] render.frames@[k]).0 == k
}

/// The job has fully finished: every frame is present and the animated loop
/// has been built.
pub open spec fn render_finished(render: RenderStatus) -> bool {
    &&& render.frames@.len() == render.job.total_frames
    &&& render.gif is Some
}

/// The emitted messages so far match the consumer's state: a config, then
/// alternating metadata and payload for each frame below the consumer's
/// position, then the loop notice and payload.
pub open spec fn trace_ok(msgs: Seq<Msg>, render: RenderStatus, pool: Seq<u8>, cs: ClientState) -> bool {
    let n = render.job.total_frames as int;
    match cs {
        ClientState::NeedsConfig => msgs.len() == 0,
        ClientState::NeedsFrameMeta(i) => msgs.len() == 1 + 2 * i && i <= n && trace_frames_ok(
            msgs,
            render,
            pool,
            i as int,
        ),
        ClientState::NeedsFrame(i) => {
            &&& msgs.len() == 2 + 2 * i
            &&& i < n
            &&& trace_frames_ok(msgs, render, pool, i as int)
            &&& msgs[1 + 2 * i] matches Msg::FrameMeta { index } && index == i
        },
        ClientState::NeedsGifMeta => msgs.len() == 1 + 2 * n && trace_frames_ok(
            msgs,
            render,
            pool,
            n,
        ),
        ClientState::NeedsGif => {
            &&& msgs.len() == 2 + 2 * n
            &&& trace_frames_ok(msgs, render, pool, n)
            &&& msgs[1 + 2 * n] is GifMeta
        },
        ClientState::Complete => {
            &&& msgs.len() == 3 + 2 * n
            &&& trace_frames_ok(msgs, render, pool, n)
            &&& msgs[1 + 2 * n] is GifMeta
            &&& msgs[2 + 2 * n] matches Msg::GifData { bytes } && render.gif matches Some(g)
                && bytes@ == g@
        },
    }
}

/// The first message is the configuration — the job, the accepted schema
/// and the backend status — and messages `1+2k`, `2+2k` are the metadata
/// and payload of frame `k`, for every `k` below `upto`.
pub open spec fn trace_frames_ok(
    msgs: Seq<Msg>,
    render: RenderStatus,
    pool: Seq<u8>,
    upto: int,
) -> bool {
    &&& msgs.len() >= 1
    &&& msgs[0] matches Msg::Config { job, schema, pool_status } && job == render.job && schema
        == spec_job_schema() && pool_status@ == pool
    &&& upto <= render.frames@.len()
    &&& forall|k: int|
        0 <= k < upto ==> (#[trigger] msgs[1 + 2 * k] matches Msg::FrameMeta { index }
            && index == k)
    &&& forall|k: int|
        0 <= k < upto ==> (#[trigger] msgs[2 + 2 * k] matches Msg::FrameData { bytes } && bytes@
            == render.frames@[k].1.png@)
}

/// Measure of how much work a drain pass can still do.
pub open spec fn client_rank(cs: ClientState, render: RenderStatus) -> int {
    let n = render.job.total_frames as int;
    let m = render.frames@.len() as int;
    let bound = if n >= m {
        n
    } else {
        m
    };
    match cs {
        ClientState::NeedsConfig => 2 * bound + 5,
        ClientState::NeedsFrameMeta(i) => if i <= bound {
            2 * (bound - i) + 4
        } else {
            0
        },
        ClientState::NeedsFrame(i) => if i <= bound {
            2 * (bound - i) + 3
        } else {
            0
        },
        ClientState::NeedsGifMeta => 2,
        ClientState::NeedsGif => 1,
        ClientState::Complete => 0,
    }
}

/// One successful send extends any consistent message trace: whatever
/// prefix the consumer was owed and has been sent so far, appending the
/// sent message keeps the trace consistent with the successor state.
proof fn lemma_trace_extend(
    tr: Seq<Msg>,
    render: RenderStatus,
    pool: Seq<u8>,
    cs: ClientState,
    m: Msg,
    next: ClientState,
)
    requires
        frames_in_order(render),
        trace_ok(tr, render, pool, cs),
        client_send_rel(cs, render, pool, m, next),
    ensures
        trace_ok(tr.push(m), render, pool, next),
{
    let t2 = tr.push(m);
    assert(t2.len() == tr.len() + 1);
    assert(forall|k: int| 0 <= k < tr.len() ==> t2[k] == tr[k]);
    assert(t2[tr.len() as int] == m);
    match cs {
        ClientState::NeedsConfig => {},
        ClientState::NeedsFrameMeta(i) => {
            assert((render.frames@[i as int]).0 == i);
            assert(trace_frames_ok(t2, render, pool, i as int));
        },
        ClientState::NeedsFrame(i) => {
            assert(trace_frames_ok(t2, render, pool, i as int));
            assert forall|k: int|
                0 <= k < i + 1 implies (#[trigger] t2[1 + 2 * k] matches Msg::FrameMeta {
                index,
            } && index == k) by {
                if k < i {
                } else {
                    assert(t2[1 + 2 * i] == tr[1 + 2 * i]);
                }
            }
            assert forall|k: int|
                0 <= k < i + 1 implies (#[trigger] t2[2 + 2 * k] matches Msg::FrameData {
                bytes,
            } && bytes@ == render.frames@[k].1.png@) by {
                if k == i {
                    assert(t2[2 + 2 * i] == m);
                }
            }
            assert(trace_frames_ok(t2, render, pool, i + 1));
        },
        ClientState::NeedsGifMeta => {
            assert(trace_frames_ok(t2, render, pool, render.job.total_frames as int));
        },
        ClientState::NeedsGif => {
            assert(trace_frames_ok(t2, render, pool, render.job.total_frames as int));
        },
        ClientState::Complete => {},
    }
}

/// Run one consumer forward until it has to wait, collecting every message
/// it is owed, with all sends assumed to succeed.
///
/// Whatever messages the consumer has already received consistent with its
/// state, the collected messages extend them consistently: the pass never
/// skips, repeats or reorders. For a consumer observed from connection to
/// a fully finished job of N frames, the collected sequence is exactly
/// `Config, FrameMeta(0), FrameData(0), ..., FrameMeta(N-1),
/// FrameData(N-1), GifMeta, GifData` — and the consumer ends `Complete`.
pub fn drain_client(cs: &mut ClientState, render: &RenderStatus, pool_status: &Vec<u8>) -> (msgs:
    Vec<Msg>)
    ensures
        client_waits(*final(cs), *render),
        frames_in_order(*render) ==> forall|prefix: Seq<Msg>|
            #[trigger] trace_ok(prefix, *render, pool_status@, *old(cs)) ==> trace_ok(
                prefix + msgs@,
                *render,
                pool_status@,
                *final(cs),
            ),
        *old(cs) == ClientState::NeedsConfig && frames_in_order(*render) && render_finished(
            *render,
        ) ==> *final(cs) == ClientState::Complete && msgs@.len() == 3 + 2 * (
        render.job.total_frames as int) && trace_ok(
            msgs@,
            *render,
            pool_status@,
            ClientState::Complete,
        ),
{
    let mut msgs: Vec<Msg> = Vec::new();
    let ghost pool = pool_status@;
    let ghost pre_ok = frames_in_order(*render);
    loop
        invariant
            pool == pool_status@,
            pre_ok == frames_in_order(*render),
            pre_ok ==> forall|prefix: Seq<Msg>|
                #[trigger] trace_ok(prefix, *render, pool, *old(cs)) ==> trace_ok(
                    prefix + msgs@,
                    *render,
                    pool,
                    *cs,
                ),
        ensures
            client_waits(*cs, *render),
            pre_ok ==> forall|prefix: Seq<Msg>|
                #[trigger] trace_ok(prefix, *render, pool, *old(cs)) ==> trace_ok(
                    prefix + msgs@,
                    *render,
                    pool,
                    *cs,
                ),
        decreases client_rank(*cs, *render),
    {
        let ghost old_msgs = msgs@;
        let ghost old_cs = *cs;
        match client_next(*cs, render, pool_status) {
            ClientStep::Send(m, next) => {
                msgs.push(m);
                *cs = next;
                proof {
                    match old_cs {
                        ClientState::NeedsConfig => {
                            assert(*cs == ClientState::NeedsFrameMeta(0));
                        },
                        ClientState::NeedsFrameMeta(i) => {
                            assert(i != render.job.total_frames && i < render.frames@.len());
                            assert(*cs == ClientState::NeedsFrame(i));
                        },
                        ClientState::NeedsFrame(i) => {
                            assert(render.frames.len() == render.frames@.len());
                            assert(i < render.frames@.len());
                            assert(i + 1 <= usize::MAX);
                            assert(*cs == ClientState::NeedsFrameMeta((i + 1) as usize));
                        },
                        ClientState::NeedsGifMeta => {
                            assert(*cs == ClientState::NeedsGif);
                        },
                        ClientState::NeedsGif => {
                            assert(render.gif is Some);
                            assert(*cs == ClientState::Complete);
                        },
                        ClientState::Complete => {
                            assert(false);
                        },
                    }
                    assert(client_rank(*cs, *render) < client_rank(old_cs, *render));
                    if pre_ok {
                        assert forall|prefix: Seq<Msg>|
                            #[trigger] trace_ok(prefix, *render, pool, *old(cs)) implies trace_ok(
                            prefix + msgs@,
                            *render,
                            pool,
                            *cs,
                        ) by {
                            assert(trace_ok(prefix + old_msgs, *render, pool, old_cs));
                            lemma_trace_extend(prefix + old_msgs, *render, pool, old_cs, m, *cs);
                            assert((prefix + old_msgs).push(m) =~= prefix + msgs@);
                        }
                    }
                }
            },
            ClientStep::Advance(next) => {
                *cs = next;
                proof {
                    match old_cs {
                        ClientState::NeedsFrameMeta(i) => {
                            assert(i == render.job.total_frames);
                            assert(*cs == ClientState::NeedsGifMeta);
                        },
                        _ => {
                            assert(false);
                        },
                    }
                    assert(client_rank(*cs, *render) < client_rank(old_cs, *render));
                }
            },
            ClientStep::Wait => {
                break ;
            },
        }
    }
    proof {
        if pre_ok {
            // Specialize the trace extension to the empty prefix.
            assert(trace_ok(Seq::<Msg>::empty(), *render, pool, ClientState::NeedsConfig));
            if *old(cs) == ClientState::NeedsConfig {
                assert(Seq::<Msg>::empty() + msgs@ =~= msgs@);
            }
        }
        if *old(cs) == ClientState::NeedsConfig && frames_in_order(*render) && render_finished(
            *render,
        ) {
            match *cs {
                ClientState::NeedsConfig => {
                    assert(false);
                },
                ClientState::NeedsFrameMeta(i) => {
                    assert(i != render.job.total_frames && i >= render.frames@.len());
                    assert(i <= render.job.total_frames as int);
                    assert(false);
                },
                ClientState::NeedsFrame(i) => {
                    assert(i < render.job.total_frames as int);
                    assert(false);
                },
                ClientState::NeedsGifMeta => {
                    assert(false);
                },
                ClientState::NeedsGif => {
                    assert(render.gif is Some);
                    assert(false);
                },
                ClientState::Complete => {},
            }
        }
    }
    msgs
}

} // verus!
