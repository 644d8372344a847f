//! The per-consumer delivery machine, the job controller and size analysis.

use raytracer::controller::AnimationJobController;
use raytracer::delivery::client_next;
use raytracer::delivery::drain_client;
use raytracer::delivery::ClientState;
use raytracer::delivery::ClientStep;
use raytracer::delivery::Msg;
use raytracer::delivery::render_job_fields;
use raytracer::delivery::ParallelType;
use raytracer::delivery::RenderFrame;
use raytracer::delivery::RenderJob;
use raytracer::delivery::RenderStatus;
use raytracer::sizing::size_display;
use raytracer::sizing::SizeUnit;

fn job(total: usize) -> RenderJob {
    RenderJob {
        total_frames: total,
        samples_per_pixel: 1,
        width: 4,
        height: 4,
        parallel: ParallelType::PerBlock,
    }
}

fn frame(tag: u8) -> RenderFrame {
    RenderFrame { img: vec![tag; 48], png: vec![tag, tag] }
}

fn finished_status(total: usize) -> RenderStatus {
    RenderStatus {
        job: job(total),
        frames: (0..total).map(|i| (i, frame(i as u8))).collect(),
        gif: Some(vec![9, 9, 9]),
    }
}

fn pool_line() -> Vec<u8> {
    b"[running threads]".to_vec()
}

#[test]
fn full_delivery_sequence_has_no_gaps_or_repeats() {
    let render = finished_status(2);
    let mut cs = ClientState::NeedsConfig;
    let msgs = drain_client(&mut cs, &render, &pool_line());
    assert_eq!(cs, ClientState::Complete);
    assert_eq!(msgs.len(), 7);
    assert!(matches!(&msgs[0], Msg::Config { job: j, schema, pool_status }
        if *j == render.job && *schema == render_job_fields() && *pool_status == pool_line()));
    assert!(matches!(&msgs[1], Msg::FrameMeta { index: 0 }));
    assert!(matches!(&msgs[2], Msg::FrameData { bytes } if *bytes == vec![0, 0]));
    assert!(matches!(&msgs[3], Msg::FrameMeta { index: 1 }));
    assert!(matches!(&msgs[4], Msg::FrameData { bytes } if *bytes == vec![1, 1]));
    assert!(matches!(&msgs[5], Msg::GifMeta));
    assert!(matches!(&msgs[6], Msg::GifData { bytes } if *bytes == vec![9, 9, 9]));
}

#[test]
fn delivery_waits_for_missing_frames() {
    let render = RenderStatus {
        job: job(2),
        frames: vec![(0, frame(0))],
        gif: None,
    };
    let mut cs = ClientState::NeedsConfig;
    let msgs = drain_client(&mut cs, &render, &pool_line());
    // Config, metadata and payload of frame 0; then nothing to do.
    assert_eq!(msgs.len(), 3);
    assert_eq!(cs, ClientState::NeedsFrameMeta(1));
    assert!(matches!(client_next(cs, &render, &pool_line()), ClientStep::Wait));
}

#[test]
fn delivery_waits_for_the_gif() {
    let mut render = finished_status(1);
    render.gif = None;
    let mut cs = ClientState::NeedsConfig;
    let msgs = drain_client(&mut cs, &render, &pool_line());
    // Config, one frame, and the gif notice; the payload must wait.
    assert_eq!(msgs.len(), 4);
    assert_eq!(cs, ClientState::NeedsGif);
    assert!(matches!(client_next(cs, &render, &pool_line()), ClientStep::Wait));
}

#[test]
fn job_replacement_resets_every_consumer() {
    let mut ctl = AnimationJobController::new();
    let a = ctl.connect();
    let b = ctl.connect();
    let gen = ctl.generation;
    ctl.frame_done(gen, 0, frame(0));
    ctl.update_clients(&pool_line());
    // Both consumers have advanced past the configuration.
    for (_, cs) in &ctl.clients {
        assert_ne!(*cs, ClientState::NeedsConfig);
    }
    ctl.replace_job(job(2));
    assert_eq!(ctl.status.frames.len(), 0);
    assert!(ctl.status.gif.is_none());
    assert_eq!(ctl.clients.len(), 2);
    for (id, cs) in &ctl.clients {
        assert!(*id == a || *id == b);
        assert_eq!(*cs, ClientState::NeedsConfig);
    }
}

#[test]
fn stale_results_are_discarded_on_preemption() {
    let mut ctl = AnimationJobController::new();
    ctl.connect();

    // Job A: four frames; two complete.
    ctl.replace_job(job(4));
    let gen_a = ctl.generation;
    ctl.frame_done(gen_a, 0, frame(0));
    ctl.frame_done(gen_a, 1, frame(1));
    assert_eq!(ctl.status.frames.len(), 2);

    // Job B preempts before frame 2 completes.
    ctl.replace_job(job(2));
    let gen_b = ctl.generation;
    assert_eq!(ctl.status.frames.len(), 0);

    // A late result of job A arrives and is discarded, never misapplied.
    ctl.frame_done(gen_a, 2, frame(2));
    assert_eq!(ctl.status.frames.len(), 0);

    // Job B's frames land; the status reflects exactly job B.
    ctl.frame_done(gen_b, 0, frame(10));
    ctl.frame_done(gen_b, 1, frame(11));
    assert_eq!(ctl.status.frames.len(), 2);
    assert_eq!(ctl.status.job.total_frames, 2);
    assert!(ctl.needs_gif());
    ctl.gif_built(gen_a, vec![1]);
    assert!(ctl.status.gif.is_none());
    ctl.gif_built(gen_b, vec![2]);
    assert_eq!(ctl.status.gif, Some(vec![2]));
    assert_eq!(ctl.status.frames[0].1.img, vec![10; 48]);
    assert_eq!(ctl.status.frames[1].1.img, vec![11; 48]);
}

#[test]
fn update_clients_delivers_everything_when_finished() {
    let mut ctl = AnimationJobController::new();
    ctl.connect();
    ctl.replace_job(job(1));
    let gen = ctl.generation;
    ctl.frame_done(gen, 0, frame(3));
    ctl.gif_built(gen, vec![5]);
    let out = ctl.update_clients(&pool_line());
    assert_eq!(out.len(), 1);
    assert_eq!(out[0].1.len(), 5);
    assert_eq!(ctl.clients[0].1, ClientState::Complete);
}

#[test]
fn mid_stream_consumer_continues_without_gaps() {
    // A consumer that already received config and frame 0 gets exactly
    // the rest when the job finishes: no skips, no repeats.
    let partial = RenderStatus { job: job(2), frames: vec![(0, frame(0))], gif: None };
    let mut cs = ClientState::NeedsConfig;
    let first = drain_client(&mut cs, &partial, &pool_line());
    assert_eq!(first.len(), 3);
    assert_eq!(cs, ClientState::NeedsFrameMeta(1));
    let full = finished_status(2);
    let rest = drain_client(&mut cs, &full, &pool_line());
    assert_eq!(cs, ClientState::Complete);
    assert_eq!(rest.len(), 4);
    assert!(matches!(&rest[0], Msg::FrameMeta { index: 1 }));
    assert!(matches!(&rest[1], Msg::FrameData { bytes } if *bytes == vec![1, 1]));
    assert!(matches!(&rest[2], Msg::GifMeta));
    assert!(matches!(&rest[3], Msg::GifData { bytes } if *bytes == vec![9, 9, 9]));
}

#[test]
fn disconnect_drops_progress() {
    let mut ctl = AnimationJobController::new();
    let a = ctl.connect();
    let b = ctl.connect();
    ctl.disconnect(a);
    assert_eq!(ctl.clients.len(), 1);
    assert_eq!(ctl.clients[0].0, b);
    // Dropping an unknown consumer changes nothing.
    ctl.disconnect(a);
    assert_eq!(ctl.clients.len(), 1);
}

#[test]
fn stop_flag_is_sticky() {
    let mut ctl = AnimationJobController::new();
    assert!(!ctl.should_stop());
    ctl.stop();
    assert!(ctl.should_stop());
}

#[test]
fn size_display_picks_units() {
    assert_eq!(size_display(500), (500, SizeUnit::Bytes));
    assert_eq!(size_display(2048), (2, SizeUnit::Kibibytes));
    assert_eq!(size_display(3 * 1024 * 1024), (3, SizeUnit::Mebibytes));
}
