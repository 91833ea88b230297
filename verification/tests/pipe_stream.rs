use bar_core::components::pipe::{PipeAction, PipeEvent, PipeStream};
use bar_core::{Component, ErrorKind, Pipe};

fn periodic_pipe() -> PipeStream {
    let mut conf = Pipe::default();
    conf.command = "yes".to_string();
    conf.refresh_rate = Some(1000);
    conf.stream()
}

#[test]
fn default_pipe() {
    let conf = Pipe::default();
    assert_eq!(conf.command, "true");
    assert!(conf.args.is_empty());
    assert!(conf.refresh_rate.is_none());
}

#[test]
fn stream_starts_at_generation_one() {
    let conf = Pipe::default();
    let stream = conf.stream();
    assert_eq!(stream.generation, 1);
    assert!(!stream.finished);
    assert_eq!(stream.command, "true");
}

#[test]
fn two_lines_then_end() {
    let mut stream = Pipe::default().stream();
    let mut seen: Vec<String> = Vec::new();
    for event in [
        PipeEvent::Line("a".to_string()),
        PipeEvent::Line("b".to_string()),
        PipeEvent::Eof,
    ] {
        match stream.step(event) {
            PipeAction::Emit(_, line) => seen.push(line),
            PipeAction::End => break,
            other => panic!("unexpected action {:?}", action_name(&other)),
        }
    }
    assert_eq!(seen, vec!["a".to_string(), "b".to_string()]);
    assert!(stream.finished);
}

#[test]
fn a_finished_stream_decides_nothing() {
    let mut stream = Pipe::default().stream();
    assert!(matches!(stream.step(PipeEvent::Eof), PipeAction::End));
    assert!(matches!(
        stream.step(PipeEvent::Line("late".to_string())),
        PipeAction::Wait
    ));
}

#[test]
fn read_failure_is_fatal() {
    let mut stream = Pipe::default().stream();
    assert!(matches!(
        stream.step(PipeEvent::ReadFailure),
        PipeAction::Fail(ErrorKind::Io)
    ));
    assert!(stream.finished);
}

#[test]
fn one_shot_stream_ignores_ticks() {
    let mut stream = Pipe::default().stream();
    assert!(matches!(stream.step(PipeEvent::Tick), PipeAction::Wait));
    assert!(!stream.finished);
}

#[test]
fn every_tick_respawns() {
    let mut stream = periodic_pipe();
    let events = [
        PipeEvent::Line("a".to_string()),
        PipeEvent::Tick,
        PipeEvent::Line("b".to_string()),
        PipeEvent::Eof,
        PipeEvent::Tick,
        PipeEvent::Line("c".to_string()),
    ];
    let mut respawns = 0u64;
    for event in events {
        if let PipeAction::Respawn(_) = stream.step(event) {
            respawns += 1;
        }
    }
    assert_eq!(respawns, 2);
    assert_eq!(stream.generation, 3);
}

#[test]
fn emitted_generations_never_interleave() {
    let mut stream = periodic_pipe();
    let events = [
        PipeEvent::Line("a".to_string()),
        PipeEvent::Line("b".to_string()),
        PipeEvent::Tick,
        PipeEvent::Line("c".to_string()),
        PipeEvent::Eof,
        PipeEvent::Tick,
        PipeEvent::Line("d".to_string()),
    ];
    let mut generations: Vec<u64> = Vec::new();
    for event in events {
        if let PipeAction::Emit(generation, _) = stream.step(event) {
            generations.push(generation);
        }
    }
    assert_eq!(generations, vec![1, 1, 2, 3]);
    for pair in generations.windows(2) {
        assert!(pair[0] <= pair[1]);
    }
}

#[test]
fn eof_only_idles_a_periodic_stream() {
    let mut stream = periodic_pipe();
    assert!(matches!(stream.step(PipeEvent::Eof), PipeAction::Wait));
    assert!(!stream.finished);
    assert!(matches!(stream.step(PipeEvent::Tick), PipeAction::Respawn(2)));
}

fn action_name(action: &PipeAction) -> &'static str {
    match action {
        PipeAction::Emit(_, _) => "Emit",
        PipeAction::Respawn(_) => "Respawn",
        PipeAction::End => "End",
        PipeAction::Fail(_) => "Fail",
        PipeAction::Wait => "Wait",
    }
}
