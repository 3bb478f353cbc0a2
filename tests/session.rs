use record_screen::session::{
    duration_passed, frame_interval_ns, frame_timestamp_ms, mux_timestamp, sleep_ns, Action,
    Config, Event, Phase, Session,
};

const MS: u64 = 1_000_000;

fn config(fps: u64, limit_s: Option<u64>) -> Config {
    Config::new(fps, limit_s, 5000).unwrap()
}

/// One iteration that captures a frame, encodes it into `pts` packets and
/// takes `work_ns`; returns the actions.
fn frame_iteration(s: &mut Session, elapsed_ns: u64, pts: &[i64], work_ns: u64) -> Vec<Action> {
    let mut out = vec![s.step(Event::Tick { elapsed_ns })];
    out.push(s.step(Event::Ready));
    for &p in pts {
        out.push(s.step(Event::Packet { pts: p }));
    }
    out.push(s.step(Event::Encoded));
    out.push(s.step(Event::IterationEnd { cancelled: false, work_ns }));
    out
}

#[test]
fn frame_interval_from_fps() {
    assert_eq!(frame_interval_ns(10), 100 * MS);
    assert_eq!(frame_interval_ns(30), 33_333_333);
    assert_eq!(frame_interval_ns(1), 1_000_000_000);
    assert!(Config::new(0, None, 5000).is_none());
    let c = config(10, Some(3));
    assert_eq!(c.frame_interval_ns, 100 * MS);
    assert_eq!(c.duration_limit_s, Some(3));
    assert_eq!(c.bitrate_kbps, 5000);
}

#[test]
fn sleep_fills_the_interval_and_never_goes_negative() {
    assert_eq!(sleep_ns(100 * MS, 30 * MS), 70 * MS);
    assert_eq!(sleep_ns(100 * MS, 0), 100 * MS);
    assert_eq!(sleep_ns(100 * MS, 100 * MS), 0);
    assert_eq!(sleep_ns(100 * MS, 250 * MS), 0);
}

#[test]
fn ten_fps_iterations_last_one_interval_each() {
    let mut s = Session::new(config(10, None));
    let mut clock: u64 = 0;
    for _ in 0..5 {
        let acts = frame_iteration(&mut s, clock, &[(clock / MS) as i64], 2 * MS);
        match acts.last() {
            Some(Action::Sleep { ns }) => clock += 2 * MS + ns,
            other => panic!("unexpected {:?}", other),
        }
    }
    assert_eq!(clock, 500 * MS);
}

#[test]
fn overrun_is_not_made_up() {
    let mut s = Session::new(config(10, None));
    let acts = frame_iteration(&mut s, 0, &[0], 180 * MS);
    assert_eq!(acts.last(), Some(&Action::Sleep { ns: 0 }));
}

#[test]
fn frame_timestamp_is_whole_milliseconds() {
    assert_eq!(frame_timestamp_ms(1_234_567_890), 1234);
    assert_eq!(frame_timestamp_ms(999_999), 0);
    let mut s = Session::new(config(30, None));
    assert_eq!(s.step(Event::Tick { elapsed_ns: 1_234_567_890 }), Action::Poll);
    assert_eq!(s.step(Event::Ready), Action::Encode { timestamp_ms: 1234 });
}

#[test]
fn packet_timestamps_are_rescaled_and_kept_in_order() {
    assert_eq!(mux_timestamp(0, 7), 7 * MS);
    assert_eq!(mux_timestamp(5 * MS, 3), 5 * MS);
    assert_eq!(mux_timestamp(5 * MS, -1), 5 * MS);
    assert_eq!(mux_timestamp(0, i64::MAX), u64::MAX);
    let mut s = Session::new(config(30, None));
    let acts = frame_iteration(&mut s, 40 * MS, &[40, 33, 41], MS);
    let muxed: Vec<u64> = acts
        .iter()
        .filter_map(|a| match a {
            Action::Mux { timestamp_ns } => Some(*timestamp_ns),
            _ => None,
        })
        .collect();
    assert_eq!(muxed, vec![40 * MS, 40 * MS, 41 * MS]);
    assert_eq!(s.step(Event::IterationEnd { cancelled: true, work_ns: 0 }), Action::Ignore);
    assert_eq!(s.step(Event::Tick { elapsed_ns: 80 * MS }), Action::Poll);
    assert_eq!(s.step(Event::Fatal), Action::Drain);
    assert_eq!(s.step(Event::Packet { pts: 39 }), Action::Mux { timestamp_ns: 41 * MS });
    assert_eq!(s.step(Event::Packet { pts: 42 }), Action::Mux { timestamp_ns: 42 * MS });
    assert_eq!(s.step(Event::Drained), Action::Finalize);
}

#[test]
fn duration_limit_stops_after_two_seconds() {
    assert!(!duration_passed(Some(2), 2_000_000_000));
    assert!(duration_passed(Some(2), 2_000_000_001));
    assert!(!duration_passed(None, u64::MAX));
    assert!(duration_passed(Some(0), 1));
    assert!(!duration_passed(Some(u64::MAX), u64::MAX));

    let mut s = Session::new(config(30, Some(2)));
    let acts = frame_iteration(&mut s, 1_990_000_000, &[1990], MS);
    assert!(matches!(acts.last(), Some(Action::Sleep { .. })));
    let acts = frame_iteration(&mut s, 2_000_000_000, &[2000], MS);
    assert!(matches!(acts.last(), Some(Action::Sleep { .. })));
    assert_eq!(s.step(Event::Tick { elapsed_ns: 2_033_000_000 }), Action::Drain);
    assert_eq!(s.phase(), Phase::Draining);
    assert_eq!(s.step(Event::Drained), Action::Finalize);
    assert_eq!(s.phase(), Phase::Closed);
}

#[test]
fn fatal_capture_after_four_frames() {
    let mut s = Session::new(config(30, None));
    let mut actions = Vec::new();
    for i in 0..4u64 {
        actions.extend(frame_iteration(&mut s, i * 33 * MS, &[(i * 33) as i64], MS));
    }
    actions.push(s.step(Event::Tick { elapsed_ns: 132 * MS }));
    actions.push(s.step(Event::Fatal));
    actions.push(s.step(Event::Packet { pts: 132 }));
    actions.push(s.step(Event::Drained));
    let encodes = actions.iter().filter(|a| matches!(a, Action::Encode { .. })).count();
    let finals = actions.iter().filter(|a| **a == Action::Finalize).count();
    assert_eq!(encodes, 4);
    assert_eq!(finals, 1);
    assert_eq!(actions[actions.len() - 3], Action::Drain);
}

#[test]
fn pending_polls_are_never_encoded() {
    let mut s = Session::new(config(30, None));
    for i in 0..3u64 {
        assert_eq!(s.step(Event::Tick { elapsed_ns: i * 33 * MS }), Action::Poll);
        assert_eq!(s.step(Event::Pending), Action::EndIteration);
        assert_eq!(
            s.step(Event::IterationEnd { cancelled: false, work_ns: MS }),
            Action::Sleep { ns: 33_333_333 - MS }
        );
    }
    assert_eq!(s.step(Event::Tick { elapsed_ns: 99 * MS }), Action::Poll);
    assert_eq!(s.step(Event::Ready), Action::Encode { timestamp_ms: 99 });
}

#[test]
fn cancellation_ends_the_loop_at_the_iteration_end() {
    let mut s = Session::new(config(30, None));
    frame_iteration(&mut s, 0, &[0], MS);
    assert_eq!(s.step(Event::Tick { elapsed_ns: 33 * MS }), Action::Poll);
    assert_eq!(s.step(Event::Pending), Action::EndIteration);
    assert_eq!(s.step(Event::IterationEnd { cancelled: true, work_ns: MS }), Action::Drain);
    assert_eq!(s.step(Event::Tick { elapsed_ns: 66 * MS }), Action::Ignore);
    assert_eq!(s.step(Event::Drained), Action::Finalize);
}

#[test]
fn encoder_failure_drains_and_finalizes_once() {
    let mut s = Session::new(config(30, None));
    assert_eq!(s.step(Event::Tick { elapsed_ns: 0 }), Action::Poll);
    assert_eq!(s.step(Event::Ready), Action::Encode { timestamp_ms: 0 });
    assert_eq!(s.step(Event::EncoderFailed), Action::Drain);
    assert_eq!(s.step(Event::EncoderFailed), Action::Finalize);
    assert_eq!(s.step(Event::Drained), Action::Ignore);
    assert_eq!(s.step(Event::EncoderFailed), Action::Ignore);
    assert_eq!(s.phase(), Phase::Closed);
}

#[test]
fn events_out_of_phase_are_ignored() {
    let mut s = Session::new(config(30, None));
    assert_eq!(s.phase(), Phase::Idle);
    assert_eq!(s.step(Event::Ready), Action::Ignore);
    assert_eq!(s.step(Event::Packet { pts: 1 }), Action::Ignore);
    assert_eq!(s.step(Event::Drained), Action::Ignore);
    assert_eq!(s.phase(), Phase::Idle);
    assert_eq!(s.config().frame_interval_ns, 33_333_333);
}
