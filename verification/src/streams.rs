//! What the streams of a command bring: shown as it comes, kept, and logged line by line.

use vstd::prelude::*;
use vstd::string::*;

use crate::error::{PlanError, in_context, outcome};
use crate::logging::{
    byte_lines, complete_lines, flush_log_lines, lines_do_not_depend_on_chunks, partial_line,
};
use crate::staging::opt_error;

verus! {

// ---------------------------------------------------------------------------
// A stream as a whole
// ---------------------------------------------------------------------------

/// What a stream has brought so far.
#[derive(Debug, PartialEq, Eq)]
pub struct StepStream {
    /// What stands behind the last complete line.
    pub pending: Vec<u8>,
    /// All of it.
    pub captured: Vec<u8>,
}

/// The lines that become complete when `data` comes behind `seen`.
pub open spec fn new_lines(seen: Seq<u8>, data: Seq<u8>) -> Seq<Seq<u8>> {
    complete_lines(partial_line(seen) + data)
}

impl StepStream {
    /// What waits is what stands behind the last complete line.
    pub open spec fn wf(self) -> bool {
        self.pending@ == partial_line(self.captured@)
    }

    /// A stream that has brought nothing.
    pub fn new() -> (r: StepStream)
        ensures
            r.wf(),
            r.captured@ == Seq::<u8>::empty(),
    {
        let r = StepStream { pending: Vec::new(), captured: Vec::new() };
        assert(partial_line(Seq::<u8>::empty()) =~= Seq::<u8>::empty());
        r
    }

    /// Takes in what comes, and gives the lines that are complete now.
    pub fn take_in(&mut self, data: &Vec<u8>) -> (lines: Vec<Vec<u8>>)
        requires
            old(self).wf(),
        ensures
            final(self).wf(),
            final(self).captured@ == old(self).captured@ + data@,
            byte_lines(lines@) == new_lines(old(self).captured@, data@),
    {
        let ghost seen = self.captured@;
        let mut i: usize = 0;
        while i < data.len()
            invariant
                i <= data@.len(),
                self.captured@ == seen + data@.take(i as int),
                self.pending@ == partial_line(seen) + data@.take(i as int),
            decreases data@.len() - i,
        {
            let b: u8 = data[i];
            self.captured.push(b);
            self.pending.push(b);
            assert(data@.take(i + 1) =~= data@.take(i as int).push(b));
            assert(self.captured@ =~= seen + data@.take(i + 1));
            assert(self.pending@ =~= partial_line(seen) + data@.take(i + 1));
            i += 1;
        }
        assert(data@.take(i as int) =~= data@);
        proof {
            lines_do_not_depend_on_chunks(seen, data@);
        }
        flush_log_lines(&mut self.pending)
    }

    /// The line that a stream ends with, if no line end stands behind it.
    pub fn last_line(&self) -> (r: Option<Vec<u8>>)
        requires
            self.wf(),
        ensures
            match r {
                Some(line) => line@ == partial_line(self.captured@) && line@.len() > 0,
                None => partial_line(self.captured@).len() == 0,
            },
    {
        if self.pending.len() == 0 {
            None
        } else {
            let line = self.pending.clone();
            assert(line@ =~= self.pending@);
            Some(line)
        }
    }
}

/// What comes in chunks, as a whole.
pub open spec fn whole(chunks: Seq<Seq<u8>>) -> Seq<u8>
    decreases chunks.len(),
{
    if chunks.len() == 0 {
        seq![]
    } else {
        whole(chunks.drop_last()) + chunks.last()
    }
}

/// The lines that become complete with the chunks, one after another.
pub open spec fn lines_on_the_way(chunks: Seq<Seq<u8>>) -> Seq<Seq<u8>>
    decreases chunks.len(),
{
    if chunks.len() == 0 {
        seq![]
    } else {
        lines_on_the_way(chunks.drop_last()) + new_lines(
            whole(chunks.drop_last()),
            chunks.last(),
        )
    }
}

/// Each line is logged once and in its order, in whatever chunks a stream comes.
pub proof fn each_line_is_logged_once(chunks: Seq<Seq<u8>>)
    ensures
        lines_on_the_way(chunks) == complete_lines(whole(chunks)),
    decreases chunks.len(),
{
    if chunks.len() == 0 {
        assert(complete_lines(whole(chunks)) =~= lines_on_the_way(chunks));
    } else {
        each_line_is_logged_once(chunks.drop_last());
        lines_do_not_depend_on_chunks(whole(chunks.drop_last()), chunks.last());
    }
}

// ---------------------------------------------------------------------------
// The stream of a process, read to its end
// ---------------------------------------------------------------------------

/// How far the reading of a stream has come.
#[derive(Clone, Copy, Debug, PartialEq, Eq, Structural)]
pub enum StreamPhase {
    Start,
    /// More is read.
    Reading,
    /// What was read is shown.
    Forwarding,
    /// The lines that are complete are logged.
    Logging,
    /// The line that the stream ends with is logged.
    Closing,
    Finished,
}

/// The reading of a stream.
#[derive(Debug)]
pub struct ChildStream {
    pub phase: StreamPhase,
    /// What was read last.
    pub chunk: Vec<u8>,
    /// What stands behind the last complete line.
    pub pending: Vec<u8>,
    /// The lines to log.
    pub lines: Vec<Vec<u8>>,
    /// Why the reading ended early.
    pub failure: Option<PlanError>,
}

/// What happened since the last action.
#[derive(Debug)]
pub enum StreamEvent {
    /// The stream was read; at its end there is nothing.
    Read(Result<Vec<u8>, PlanError>),
    /// The action ended.
    Ended(Result<(), PlanError>),
}

/// What to do next.
#[derive(Debug, PartialEq, Eq)]
pub enum StreamAction {
    /// Read on.
    Read,
    /// Show that.
    Forward { data: Vec<u8> },
    /// Log that line.
    Log { line: Vec<u8> },
    Done(Result<(), PlanError>),
}

/// The model of the reading of a stream.
#[verifier::ext_equal]
pub struct StreamState {
    pub phase: StreamPhase,
    pub chunk: Seq<u8>,
    pub pending: Seq<u8>,
    pub lines: Seq<Seq<u8>>,
    pub failure: Option<Seq<char>>,
}

impl View for ChildStream {
    type V = StreamState;

    open spec fn view(&self) -> StreamState {
        StreamState {
            phase: self.phase,
            chunk: self.chunk@,
            pending: self.pending@,
            lines: byte_lines(self.lines@),
            failure: opt_error(self.failure),
        }
    }
}

/// What the reading of a stream waits for.
pub open spec fn stream_awaits(phase: StreamPhase, event: StreamEvent) -> bool {
    match phase {
        StreamPhase::Reading => event is Read,
        _ => event is Ended,
    }
}

/// Where the reading stands when there may be lines to log.
pub open spec fn logging_or_reading(lines: Seq<Seq<u8>>) -> StreamPhase {
    if lines.len() > 0 {
        StreamPhase::Logging
    } else {
        StreamPhase::Reading
    }
}

/// The state that follows when `event` happens.
pub open spec fn stream_next(state: StreamState, event: StreamEvent) -> StreamState {
    match state.phase {
        StreamPhase::Start => StreamState { phase: StreamPhase::Reading, ..state },
        StreamPhase::Reading => match event->Read_0 {
            Err(e) => StreamState {
                phase: StreamPhase::Finished,
                failure: Some(in_context("failed to read child process output"@, e@)),
                ..state
            },
            Ok(data) => if data@.len() > 0 {
                StreamState { phase: StreamPhase::Forwarding, chunk: data@, ..state }
            } else if state.pending.len() > 0 {
                StreamState { phase: StreamPhase::Closing, ..state }
            } else {
                StreamState { phase: StreamPhase::Finished, ..state }
            },
        },
        StreamPhase::Forwarding => match event->Ended_0 {
            Err(e) => StreamState {
                phase: StreamPhase::Finished,
                failure: Some(in_context("failed to forward child process output"@, e@)),
                ..state
            },
            Ok(()) => {
                let lines = complete_lines(state.pending + state.chunk);
                StreamState {
                    phase: logging_or_reading(lines),
                    chunk: seq![],
                    pending: partial_line(state.pending + state.chunk),
                    lines,
                    ..state
                }
            },
        },
        StreamPhase::Logging => match event->Ended_0 {
            Err(e) => StreamState {
                phase: StreamPhase::Finished,
                failure: Some(e@),
                ..state
            },
            Ok(()) => StreamState {
                phase: logging_or_reading(state.lines.skip(1)),
                lines: state.lines.skip(1),
                ..state
            },
        },
        StreamPhase::Closing => StreamState {
            phase: StreamPhase::Finished,
            failure: match event->Ended_0 {
                Err(e) => Some(e@),
                Ok(()) => state.failure,
            },
            ..state
        },
        StreamPhase::Finished => state,
    }
}

/// What the reading of a stream does in a state.
pub open spec fn stream_acts(state: StreamState, action: StreamAction) -> bool {
    match state.phase {
        StreamPhase::Start => false,
        StreamPhase::Reading => action is Read,
        StreamPhase::Forwarding => action matches StreamAction::Forward { data } && data@
            == state.chunk,
        StreamPhase::Logging => action matches StreamAction::Log { line } && line@
            == state.lines[0],
        StreamPhase::Closing => action matches StreamAction::Log { line } && line@
            == state.pending,
        StreamPhase::Finished => action matches StreamAction::Done(r) && outcome(r, state.failure),
    }
}

fn copied(bytes: &Vec<u8>) -> (r: Vec<u8>)
    ensures
        r@ == bytes@,
{
    let r = bytes.clone();
    assert(r@ =~= bytes@);
    r
}

impl ChildStream {
    /// While lines are logged, there are some.
    pub open spec fn wf(self) -> bool {
        self.phase == StreamPhase::Logging ==> self.lines@.len() > 0
    }

    /// The reading of a stream that has not begun.
    pub fn new() -> (r: ChildStream)
        ensures
            r.wf(),
            r@ == (StreamState {
                phase: StreamPhase::Start,
                chunk: seq![],
                pending: seq![],
                lines: seq![],
                failure: None,
            }),
    {
        let r = ChildStream {
            phase: StreamPhase::Start,
            chunk: Vec::new(),
            pending: Vec::new(),
            lines: Vec::new(),
            failure: None,
        };
        assert(byte_lines(r.lines@) =~= seq![]);
        r
    }

    fn queue(&mut self)
        requires
            old(self).phase == StreamPhase::Forwarding,
        ensures
            final(self).wf(),
            final(self)@ == stream_next(old(self)@, StreamEvent::Ended(Ok(()))),
    {
        let ghost before = self@;
        self.pending.append(&mut self.chunk);
        assert(self.pending@ =~= before.pending + before.chunk);
        self.lines = flush_log_lines(&mut self.pending);
        assert(byte_lines(self.lines@).len() == self.lines@.len());
        self.phase = if self.lines.len() > 0 {
            StreamPhase::Logging
        } else {
            StreamPhase::Reading
        };
        assert(self.chunk@ =~= seq![]);
    }

    fn act(&self) -> (action: StreamAction)
        requires
            self.wf(),
            self.phase != StreamPhase::Start,
        ensures
            stream_acts(self@, action),
    {
        match self.phase {
            StreamPhase::Start | StreamPhase::Finished => StreamAction::Done(
                match &self.failure {
                    Some(e) => Err(e.clone()),
                    None => Ok(()),
                },
            ),
            StreamPhase::Reading => StreamAction::Read,
            StreamPhase::Forwarding => StreamAction::Forward { data: copied(&self.chunk) },
            StreamPhase::Logging => StreamAction::Log { line: copied(&self.lines[0]) },
            StreamPhase::Closing => StreamAction::Log { line: copied(&self.pending) },
        }
    }
}

/// Reads a stream of a process to its end: takes what happened since the last action and
/// says what to do next. What comes is shown, and its lines are logged.
pub fn stream_child_output(stream: &mut ChildStream, event: StreamEvent) -> (action: StreamAction)
    requires
        old(stream).wf(),
        stream_awaits(old(stream).phase, event),
    ensures
        final(stream).wf(),
        final(stream)@ == stream_next(old(stream)@, event),
        stream_acts(final(stream)@, action),
{
    let ghost before = stream@;
    match event {
        StreamEvent::Read(read) => match read {
            Err(e) => {
                stream.failure = Some(e.within("failed to read child process output"));
                stream.phase = StreamPhase::Finished;
            },
            Ok(data) => {
                if data.len() > 0 {
                    stream.chunk = data;
                    stream.phase = StreamPhase::Forwarding;
                } else if stream.pending.len() > 0 {
                    stream.phase = StreamPhase::Closing;
                } else {
                    stream.phase = StreamPhase::Finished;
                }
            },
        },
        StreamEvent::Ended(result) => match stream.phase {
            StreamPhase::Start => {
                stream.phase = StreamPhase::Reading;
            },
            StreamPhase::Forwarding => match result {
                Err(e) => {
                    stream.failure = Some(e.within("failed to forward child process output"));
                    stream.phase = StreamPhase::Finished;
                },
                Ok(()) => {
                    stream.queue();
                },
            },
            StreamPhase::Logging => match result {
                Err(e) => {
                    stream.failure = Some(e);
                    stream.phase = StreamPhase::Finished;
                },
                Ok(()) => {
                    let _ = stream.lines.remove(0);
                    assert(byte_lines(stream.lines@) =~= before.lines.skip(1));
                    assert(byte_lines(stream.lines@).len() == stream.lines@.len());
                    stream.phase = if stream.lines.len() > 0 {
                        StreamPhase::Logging
                    } else {
                        StreamPhase::Reading
                    };
                },
            },
            StreamPhase::Closing => {
                if let Err(e) = result {
                    stream.failure = Some(e);
                }
                stream.phase = StreamPhase::Finished;
            },
            StreamPhase::Reading | StreamPhase::Finished => {},
        },
    }
    stream.act()
}

/// Whether a step of the reading adds what was read last to what is kept: it was shown.
pub open spec fn keeps_chunk(phase: StreamPhase, event: StreamEvent) -> bool {
    phase == StreamPhase::Forwarding && event->Ended_0 is Ok
}

/// Reads a stream of a process to its end, as [`stream_child_output`] does, and keeps all
/// that was shown of it.
pub fn stream_child_output_capturing(
    stream: &mut ChildStream,
    captured: &mut Vec<u8>,
    event: StreamEvent,
) -> (action: StreamAction)
    requires
        old(stream).wf(),
        stream_awaits(old(stream).phase, event),
    ensures
        final(stream).wf(),
        final(stream)@ == stream_next(old(stream)@, event),
        stream_acts(final(stream)@, action),
        final(captured)@ == if keeps_chunk(old(stream).phase, event) {
            old(captured)@ + old(stream).chunk@
        } else {
            old(captured)@
        },
{
    let forwarding = match stream.phase {
        StreamPhase::Forwarding => true,
        _ => false,
    };
    let shown = match &event {
        StreamEvent::Ended(Ok(())) => true,
        _ => false,
    };
    if forwarding && shown {
        let mut chunk = copied(&stream.chunk);
        captured.append(&mut chunk);
    }
    stream_child_output(stream, event)
}

/// Whether what waits of a stream fits what is kept of it: between two chunks, it is what
/// stands behind the last complete line.
pub open spec fn keeps_up(state: StreamState, captured: Seq<u8>) -> bool {
    state.pending == partial_line(captured)
}

/// What is logged of a stream is the lines of what is kept of it: a step of the reading that
/// keeps a chunk puts exactly the lines in the queue that the chunk completes, and what
/// waits stays what stands behind the last complete line.
pub proof fn the_log_follows_the_stream(state: StreamState, captured: Seq<u8>, event: StreamEvent)
    requires
        stream_awaits(state.phase, event),
        keeps_up(state, captured),
    ensures
        ({
            let after = stream_next(state, event);
            if keeps_chunk(state.phase, event) {
                &&& keeps_up(after, captured + state.chunk)
                &&& complete_lines(captured) + after.lines == complete_lines(
                    captured + state.chunk,
                )
            } else {
                keeps_up(after, captured)
            }
        }),
{
    lines_do_not_depend_on_chunks(captured, state.chunk);
}

} // verus!
