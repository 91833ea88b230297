use vstd::prelude::*;

verus! {

use vstd::string::StringExecFns;
use crate::component::Component;
use crate::error::{ComponentError, ErrorKind};

/// Streams the standard output of an external command, line by line,
/// optionally restarting the command on a fixed cadence.
pub struct Pipe {
    /// Name of the command to spawn.
    pub command: String,
    /// Arguments handed to the command.
    pub args: Vec<String>,
    /// Milliseconds between two restarts of the command; `None` streams one
    /// process to its end.
    pub refresh_rate: Option<u64>,
}

impl Default for Pipe {
    fn default() -> (r: Pipe)
        ensures
            r.command@ == "true"@,
            r.args@ == Seq::<String>::empty(),
            r.refresh_rate is None,
    {
        Pipe { command: String::from_str("true"), args: Vec::new(), refresh_rate: None }
    }
}

/// What the driver observed since the stream last decided anything.
pub enum PipeEvent {
    /// The attached process printed one line.
    Line(String),
    /// The attached process closed its output.
    Eof,
    /// The restart cadence elapsed.
    Tick,
    /// Reading or decoding the output failed.
    ReadFailure,
}

/// What the stream asks the driver to do next.
pub enum PipeAction {
    /// Hand the line on as the next item; the first field names the spawn
    /// generation the line came from.
    Emit(u64, String),
    /// Abandon the attached process's output and attach a freshly spawned
    /// process; the field is the new spawn generation.
    Respawn(u64),
    /// The stream is over.
    End,
    /// The stream failed for good, with this kind of error.
    Fail(ErrorKind),
    /// Nothing to do until the next event.
    Wait,
}

/// The running state of a Pipe stream: the command being watched, the spawn
/// generation currently attached, and whether the stream is over.
pub struct PipeStream {
    /// Name of the command each generation spawns.
    pub command: String,
    /// Arguments handed to the command.
    pub args: Vec<String>,
    /// Milliseconds between two restarts; `None` streams one process only.
    pub refresh_rate: Option<u64>,
    /// How many processes have been attached so far; the first is generation
    /// one.
    pub generation: u64,
    /// The stream has ended or failed and decides nothing further.
    pub finished: bool,
}

impl PipeStream {
    /// The stream restarts its command on a cadence.
    pub open spec fn periodic(&self) -> bool {
        self.refresh_rate is Some
    }
}

/// What one event does to the stream: the state afterwards and the action
/// the driver is asked to perform. A line is always emitted, tagged with the
/// generation it came from; the end of a process's output ends a one-shot
/// stream but only idles a periodic one; a cadence tick attaches the next
/// generation; a read failure is fatal. A finished stream decides nothing.
pub open spec fn spec_step(m: PipeStream, event: PipeEvent) -> (PipeStream, PipeAction) {
    if m.finished {
        (m, PipeAction::Wait)
    } else {
        match event {
            PipeEvent::Line(s) => (m, PipeAction::Emit(m.generation, s)),
            PipeEvent::Eof => if m.periodic() {
                (m, PipeAction::Wait)
            } else {
                (PipeStream { finished: true, ..m }, PipeAction::End)
            },
            PipeEvent::Tick => if m.periodic() {
                let next = if m.generation == u64::MAX {
                    m.generation
                } else {
                    (m.generation + 1) as u64
                };
                (PipeStream { generation: next, ..m }, PipeAction::Respawn(next))
            } else {
                (m, PipeAction::Wait)
            },
            PipeEvent::ReadFailure => (
                PipeStream { finished: true, ..m },
                PipeAction::Fail(ErrorKind::Io),
            ),
        }
    }
}

impl PipeStream {
    /// Decide what one observed event means for the stream.
    pub fn step(&mut self, event: PipeEvent) -> (a: PipeAction)
        requires
            old(self).generation < u64::MAX,
        ensures
            (*final(self), a) == spec_step(*old(self), event),
    {
        if self.finished {
            return PipeAction::Wait;
        }
        match event {
            PipeEvent::Line(s) => PipeAction::Emit(self.generation, s),
            PipeEvent::Eof => {
                if self.refresh_rate.is_some() {
                    PipeAction::Wait
                } else {
                    self.finished = true;
                    PipeAction::End
                }
            },
            PipeEvent::Tick => {
                if self.refresh_rate.is_some() {
                    self.generation = self.generation + 1;
                    PipeAction::Respawn(self.generation)
                } else {
                    PipeAction::Wait
                }
            },
            PipeEvent::ReadFailure => {
                self.finished = true;
                PipeAction::Fail(ErrorKind::Io)
            },
        }
    }
}

/// The states and actions a stream runs through on a sequence of events.
pub open spec fn spec_run(m: PipeStream, events: Seq<PipeEvent>) -> (PipeStream, Seq<PipeAction>)
    decreases events.len(),
{
    if events.len() == 0 {
        (m, Seq::empty())
    } else {
        let (m1, a) = spec_step(m, events.first());
        let (m2, rest) = spec_run(m1, events.drop_first());
        (m2, seq![a] + rest)
    }
}

/// How many cadence ticks a sequence of events holds.
pub open spec fn count_ticks(events: Seq<PipeEvent>) -> int
    decreases events.len(),
{
    if events.len() == 0 {
        0
    } else {
        (if events.first() is Tick {
            1int
        } else {
            0int
        }) + count_ticks(events.drop_first())
    }
}

/// How many respawns a sequence of actions asks for.
pub open spec fn count_respawns(actions: Seq<PipeAction>) -> int
    decreases actions.len(),
{
    if actions.len() == 0 {
        0
    } else {
        (if actions.first() is Respawn {
            1int
        } else {
            0int
        }) + count_respawns(actions.drop_first())
    }
}

/// A periodic stream that has not failed respawns its command once for every
/// cadence tick it observes: over any run without read failures, the number
/// of respawn actions equals the number of ticks among the events.
pub proof fn lemma_periodic_respawns_every_tick(m: PipeStream, events: Seq<PipeEvent>)
    requires
        m.periodic(),
        !m.finished,
        forall|i: int| 0 <= i < events.len() ==> !(#[trigger] events[i] is ReadFailure),
    ensures
        count_respawns(spec_run(m, events).1) == count_ticks(events),
    decreases events.len(),
{
    if events.len() > 0 {
        let (m1, a) = spec_step(m, events.first());
        assert(events.drop_first().len() == events.len() - 1);
        assert(forall|i: int|
            0 <= i < events.drop_first().len() ==> !(#[trigger] events.drop_first()[i]
                is ReadFailure)) by {
            assert(forall|i: int|
                0 <= i < events.drop_first().len() ==> events.drop_first()[i] == events[i + 1]);
        }
        lemma_periodic_respawns_every_tick(m1, events.drop_first());
        let (m2, rest) = spec_run(m1, events.drop_first());
        assert((seq![a] + rest).drop_first() =~= rest);
    }
}

/// Over an observation window in which at least `elapsed / cadence` ticks
/// were delivered, the command is respawned at least `elapsed / cadence`
/// times.
pub proof fn lemma_respawn_floor(
    m: PipeStream,
    events: Seq<PipeEvent>,
    elapsed: int,
    cadence: int,
)
    requires
        m.periodic(),
        !m.finished,
        forall|i: int| 0 <= i < events.len() ==> !(#[trigger] events[i] is ReadFailure),
        cadence >= 1,
        count_ticks(events) >= elapsed / cadence,
    ensures
        count_respawns(spec_run(m, events).1) >= elapsed / cadence,
{
    lemma_periodic_respawns_every_tick(m, events);
}

/// The generation never decreases as a stream runs.
pub proof fn lemma_generation_monotone(m: PipeStream, events: Seq<PipeEvent>)
    ensures
        m.generation <= spec_run(m, events).0.generation,
    decreases events.len(),
{
    if events.len() > 0 {
        let (m1, a) = spec_step(m, events.first());
        lemma_generation_monotone(m1, events.drop_first());
    }
}

/// Every line emitted during a run carries a generation between the starting
/// one and the final one.
pub proof fn lemma_emit_generation_range(m: PipeStream, events: Seq<PipeEvent>)
    ensures
        forall|k: int|
            0 <= k < spec_run(m, events).1.len() ==> match #[trigger] spec_run(m, events).1[k] {
                PipeAction::Emit(g, _) => m.generation <= g <= spec_run(m, events).0.generation,
                _ => true,
            },
    decreases events.len(),
{
    if events.len() > 0 {
        let (m1, a) = spec_step(m, events.first());
        let (m2, rest) = spec_run(m1, events.drop_first());
        lemma_emit_generation_range(m1, events.drop_first());
        lemma_generation_monotone(m1, events.drop_first());
        assert(forall|k: int|
            1 <= k < (seq![a] + rest).len() ==> (seq![a] + rest)[k] == rest[k - 1]);
    }
}

/// The outputs of two spawn generations never interleave: once a line of a
/// later generation has been emitted, no line of an earlier generation
/// follows. Formally, the generations tagged on the emitted lines of any run
/// are nondecreasing.
pub proof fn lemma_no_interleaving(m: PipeStream, events: Seq<PipeEvent>, i: int, j: int)
    requires
        0 <= i <= j < spec_run(m, events).1.len(),
        spec_run(m, events).1[i] is Emit,
        spec_run(m, events).1[j] is Emit,
    ensures
        spec_run(m, events).1[i]->Emit_0 <= spec_run(m, events).1[j]->Emit_0,
    decreases events.len(),
{
    let (m1, a) = spec_step(m, events.first());
    let (m2, rest) = spec_run(m1, events.drop_first());
    assert(forall|k: int| 1 <= k < (seq![a] + rest).len() ==> (seq![a] + rest)[k] == rest[k - 1]);
    if i == 0 {
        if j > 0 {
            // the first action's generation is the starting one; later emits
            // never fall below it
            lemma_emit_generation_range(m1, events.drop_first());
            assert(m.generation <= m1.generation);
        }
    } else {
        lemma_no_interleaving(m1, events.drop_first(), i - 1, j - 1);
    }
}

impl Pipe {
    /// The running stream this configuration starts with: generation one
    /// attached, nothing finished.
    pub open spec fn spec_stream(self) -> PipeStream {
        PipeStream {
            command: self.command,
            args: self.args,
            refresh_rate: self.refresh_rate,
            generation: 1,
            finished: false,
        }
    }
}

impl Component for Pipe {
    type Stream = PipeStream;

    open spec fn stream_spec(self) -> PipeStream {
        self.spec_stream()
    }

    /// A Pipe needs no environment check.
    fn init(&mut self) -> (r: Result<(), ComponentError>)
        ensures
            r is Ok,
    {
        Ok(())
    }

    /// Consume the configuration into the initial stream state; nothing is
    /// spawned until a driver acts on it.
    fn stream(self) -> (r: PipeStream) {
        PipeStream {
            command: self.command,
            args: self.args,
            refresh_rate: self.refresh_rate,
            generation: 1,
            finished: false,
        }
    }
}

} // verus!
