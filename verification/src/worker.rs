//! Request handling of the document worker's disposable stdio command codec.

use vstd::prelude::*;
use crate::engine::DocumentEngine;
use crate::mock_engine::MockDocumentEngine;
use crate::transport::{frame_result_view, io_error_text, read_frame, transport_error_text, write_frame, Frame, FrameKind, FrameLimits, TransportError};

use crate::text::push_text;

verus! {

/// Enables the disposable stdin/stdout process protocol.
pub const R0A_STDIO_SPIKE_ARG: &'static str = "--r0a-stdio-spike";

/// Command byte requesting the mock engine's protocol capabilities.
pub const R0A_CAPABILITIES_COMMAND: u8 = 1;

/// Command byte requesting a graceful worker shutdown.
pub const R0A_SHUTDOWN_COMMAND: u8 = 2;

/// Success status byte of the command codec.
pub const R0A_STATUS_OK: u8 = 0;

/// Invalid-command status byte of the command codec.
pub const R0A_STATUS_INVALID_REQUEST: u8 = 1;

/// The small control-plane bound of the worker spike.
pub fn r0a_spike_frame_limits() -> (l: FrameLimits)
    ensures
        l.max_control_payload_bytes == 1024,
{
    FrameLimits::new(1024)
}

/// Why the worker loop stopped with an error.
#[derive(Debug)]
pub enum WorkerSpikeError {
    Transport(TransportError),
    Io(std::io::Error),
    UnexpectedFrameKind(FrameKind),
}

impl From<TransportError> for WorkerSpikeError {
    fn from(value: TransportError) -> (r: Self) {
        WorkerSpikeError::Transport(value)
    }
}

impl vstd::std_specs::convert::FromSpecImpl<TransportError> for WorkerSpikeError {
    open spec fn obeys_from_spec() -> bool {
        true
    }

    open spec fn from_spec(v: TransportError) -> WorkerSpikeError {
        WorkerSpikeError::Transport(v)
    }
}

impl From<std::io::Error> for WorkerSpikeError {
    fn from(value: std::io::Error) -> (r: Self) {
        WorkerSpikeError::Io(value)
    }
}

impl vstd::std_specs::convert::FromSpecImpl<std::io::Error> for WorkerSpikeError {
    open spec fn obeys_from_spec() -> bool {
        true
    }

    open spec fn from_spec(v: std::io::Error) -> WorkerSpikeError {
        WorkerSpikeError::Io(v)
    }
}

/// The response payload to a request payload, and whether the worker stops after it.
pub open spec fn spike_response(payload: Seq<u8>) -> (Seq<u8>, bool) {
    if payload.len() == 1 && payload[0] == 1 {
        (seq![0u8, 1u8, 0u8, 0u8, 1u8, 0u8], false)
    } else if payload.len() == 1 && payload[0] == 2 {
        (seq![0u8, 2u8], true)
    } else if payload.len() == 1 {
        (seq![1u8, payload[0]], false)
    } else {
        (seq![1u8, 0u8], false)
    }
}

/// Answers one command payload: capabilities, shutdown, or an explicit invalid-command status.
pub fn handle_spike_request(engine: &MockDocumentEngine, payload: &[u8]) -> (r: (Vec<u8>, bool))
    ensures
        r.0@ == spike_response(payload@).0,
        r.1 == spike_response(payload@).1,
{
    if payload.len() == 1 && payload[0] == R0A_CAPABILITIES_COMMAND {
        let capabilities = engine.capabilities();
        let mut response: Vec<u8> = Vec::new();
        response.push(R0A_STATUS_OK);
        response.push(R0A_CAPABILITIES_COMMAND);
        let major = capabilities.protocol.major;
        let minor = capabilities.protocol.minor;
        assert(((major & 0xff) as u8) == 0u8 && (((major >> 8u16) & 0xff) as u8) == 0u8) by (bit_vector)
            requires
                major == 0u16,
        ;
        assert(((minor & 0xff) as u8) == 1u8 && (((minor >> 8u16) & 0xff) as u8) == 0u8) by (bit_vector)
            requires
                minor == 1u16,
        ;
        response.push((major & 0xff) as u8);
        response.push(((major >> 8u16) & 0xff) as u8);
        response.push((minor & 0xff) as u8);
        response.push(((minor >> 8u16) & 0xff) as u8);
        assert(response@ =~= spike_response(payload@).0);
        (response, false)
    } else if payload.len() == 1 && payload[0] == R0A_SHUTDOWN_COMMAND {
        let response = vec![R0A_STATUS_OK, R0A_SHUTDOWN_COMMAND];
        assert(response@ =~= spike_response(payload@).0);
        (response, true)
    } else if payload.len() == 1 {
        let response = vec![R0A_STATUS_INVALID_REQUEST, payload[0]];
        assert(response@ =~= spike_response(payload@).0);
        (response, false)
    } else {
        let response = vec![R0A_STATUS_INVALID_REQUEST, 0];
        assert(response@ =~= spike_response(payload@).0);
        (response, false)
    }
}

/// The worker's decision for one received frame: a response correlated with the request and
/// whether to stop, or a refusal of a frame that is not a request.
pub fn respond_to_frame(engine: &MockDocumentEngine, frame: &Frame) -> (r: Result<(Frame, bool), WorkerSpikeError>)
    ensures
        frame.kind == FrameKind::Response ==> (r matches Err(WorkerSpikeError::UnexpectedFrameKind(k)) && k == FrameKind::Response),
        frame.kind == FrameKind::Request ==> (r matches Ok(x) && x.0.kind == FrameKind::Response
            && x.0.request_id == frame.request_id && x.0.payload@ == spike_response(frame.payload@).0
            && x.1 == spike_response(frame.payload@).1),
{
    if frame.kind != FrameKind::Request {
        return Err(WorkerSpikeError::UnexpectedFrameKind(frame.kind));
    }
    let (payload, should_shutdown) = handle_spike_request(engine, frame.payload.as_slice());
    Ok((Frame::new(FrameKind::Response, frame.request_id, payload), should_shutdown))
}

/// `Write::flush` on the worker's output.
#[verifier::external_body]
fn flush_output<W: std::io::Write>(output: &mut W) -> (r: Result<(), std::io::Error>) {
    output.flush()
}

/// What one read of the worker loop gave: the kind, request id and payload of a frame,
/// `None` at the end of the input, or the transport's refusal.
pub type FrameRead = Result<Option<(FrameKind, u64, Seq<u8>)>, TransportError>;

/// A pass of the loop that answered a request and went on: the read gave a request frame that
/// is not a shutdown command, and the response handed to the writer carries that request's id
/// and the `spike_response` of its payload.
pub open spec fn answered_and_continued(read: FrameRead, response: (u64, Seq<u8>)) -> bool {
    &&& read matches Ok(Some((kind, id, payload)))
    &&& kind == FrameKind::Request
    &&& !spike_response(payload).1
    &&& response == (id, spike_response(payload).0)
}

/// A run of the worker loop, given the frames it read, in order, and the responses (request id,
/// payload) it handed to the writer, in order: every pass but the last answered a request and
/// went on; the last pass decides the result. The end of the input ends the run cleanly; a
/// transport refusal or a frame that is not a request stops it with that error; a request is
/// answered, and the run then ends cleanly only on a shutdown command or after `u64::MAX`
/// passes, or stops with the writer's I/O failure.
pub open spec fn worker_run(reads: Seq<FrameRead>, responses: Seq<(u64, Seq<u8>)>, r: Result<(), WorkerSpikeError>) -> bool {
    let m = reads.len() as int;
    &&& m >= 1
    &&& forall|i: int| 0 <= i < m - 1 ==> answered_and_continued(#[trigger] reads[i], responses[i])
    &&& match reads[m - 1] {
        Err(e) => r == Err::<(), WorkerSpikeError>(WorkerSpikeError::Transport(e)) && responses.len() == m - 1,
        Ok(None) => r is Ok && responses.len() == m - 1,
        Ok(Some((kind, id, payload))) => if kind == FrameKind::Response {
            &&& r matches Err(WorkerSpikeError::UnexpectedFrameKind(k)) && k == FrameKind::Response
            &&& responses.len() == m - 1
        } else {
            &&& responses.len() == m
            &&& responses[m - 1] == (id, spike_response(payload).0)
            &&& r is Ok ==> spike_response(payload).1 || m == u64::MAX
            &&& r is Err ==> (r matches Err(WorkerSpikeError::Transport(TransportError::Io(_)))
                || r matches Err(WorkerSpikeError::Io(_)))
        },
    }
}

/// Runs the worker loop over a byte stream (see `run_r0a_stdio_spike`), and returns with its
/// result the frames read and the responses handed to the writer, as `worker_run` relates them.
pub fn run_r0a_stdio_spike_traced<R: std::io::Read, W: std::io::Write>(input: &mut R, output: &mut W)
    -> (out: (Result<(), WorkerSpikeError>, Ghost<(Seq<FrameRead>, Seq<(u64, Seq<u8>)>)>))
    ensures
        worker_run(out.1@.0, out.1@.1, out.0),
{
    let engine = MockDocumentEngine::default();
    let limits = r0a_spike_frame_limits();
    let ghost mut reads: Seq<FrameRead> = Seq::empty();
    let ghost mut responses: Seq<(u64, Seq<u8>)> = Seq::empty();
    let mut answered: u64 = 0;
    while answered < u64::MAX
        invariant
            limits.max_control_payload_bytes == 1024,
            reads.len() == answered,
            responses.len() == answered,
            forall|i: int| 0 <= i < answered ==> answered_and_continued(#[trigger] reads[i], responses[i]),
        decreases u64::MAX - answered,
    {
        let read = read_frame(input, limits);
        let ghost seen = frame_result_view(read);
        proof {
            reads = reads.push(seen);
        }
        let frame = match read {
            Err(e) => {
                return (Err(WorkerSpikeError::Transport(e)), Ghost((reads, responses)));
            },
            Ok(None) => {
                return (Ok(()), Ghost((reads, responses)));
            },
            Ok(Some(frame)) => frame,
        };
        let (response, should_shutdown) = match respond_to_frame(&engine, &frame) {
            Err(e) => {
                return (Err(e), Ghost((reads, responses)));
            },
            Ok(x) => x,
        };
        proof {
            responses = responses.push((response.request_id.0, response.payload@));
        }
        match write_frame(output, &response, limits) {
            Err(e) => {
                return (Err(WorkerSpikeError::Transport(e)), Ghost((reads, responses)));
            },
            Ok(()) => {},
        }
        match flush_output(output) {
            Err(e) => {
                return (Err(WorkerSpikeError::Io(e)), Ghost((reads, responses)));
            },
            Ok(()) => {},
        }
        if should_shutdown {
            return (Ok(()), Ghost((reads, responses)));
        }
        answered = answered + 1;
    }
    (Ok(()), Ghost((reads, responses)))
}

/// Runs the worker loop over a byte stream: each request frame is answered by a correlated
/// response and flushed; a clean end of input or a shutdown command ends the loop; a frame that
/// is not a request, or a transport or I/O failure, stops it with that error. The loop also
/// stops, cleanly, after `u64::MAX` answered frames. (`run_r0a_stdio_spike_traced` states the
/// run pass by pass.)
pub fn run_r0a_stdio_spike<R: std::io::Read, W: std::io::Write>(input: &mut R, output: &mut W) -> (r: Result<(), WorkerSpikeError>)
    ensures
        r matches Err(WorkerSpikeError::UnexpectedFrameKind(k)) ==> k == FrameKind::Response,
        exists|reads: Seq<FrameRead>, responses: Seq<(u64, Seq<u8>)>| #[trigger] worker_run(reads, responses, r),
{
    let (r, trace) = run_r0a_stdio_spike_traced(input, output);
    proof {
        let reads = trace@.0;
        let responses = trace@.1;
        assert(worker_run(reads, responses, r));
    }
    r
}

/// A worker whose input holds `k` request frames, none of them a shutdown command, and then
/// ends, answers them in order: the i-th response handed to the writer carries the i-th
/// request's id and the `spike_response` of its payload. Unless writing a response fails, the
/// run ends cleanly after exactly `k` responses. (The reads of a run are the input's frames in
/// order, each read taking the next; `k` stays below the loop's `u64::MAX` passes.)
pub proof fn law_requests_then_end_are_all_answered(
    reads: Seq<FrameRead>,
    responses: Seq<(u64, Seq<u8>)>,
    r: Result<(), WorkerSpikeError>,
    requests: Seq<(u64, Seq<u8>)>,
)
    requires
        worker_run(reads, responses, r),
        requests.len() < u64::MAX,
        reads.len() <= requests.len() + 1,
        forall|i: int| 0 <= i < reads.len() && i < requests.len() ==>
            #[trigger] reads[i] == Ok::<Option<(FrameKind, u64, Seq<u8>)>, TransportError>(
                Some((FrameKind::Request, requests[i].0, requests[i].1))),
        reads.len() == requests.len() + 1 ==>
            reads[requests.len() as int] == Ok::<Option<(FrameKind, u64, Seq<u8>)>, TransportError>(None),
        forall|i: int| 0 <= i < requests.len() ==> !spike_response(#[trigger] requests[i].1).1,
    ensures
        r is Ok ==> responses.len() == requests.len(),
        r is Ok || r matches Err(WorkerSpikeError::Transport(TransportError::Io(_)))
            || r matches Err(WorkerSpikeError::Io(_)),
        responses.len() <= requests.len(),
        forall|i: int| 0 <= i < responses.len() ==>
            #[trigger] responses[i] == (requests[i].0, spike_response(requests[i].1).0),
{
    let m = reads.len() as int;
    let k = requests.len() as int;
    assert forall|i: int| 0 <= i < m - 1 implies
        #[trigger] responses[i] == (requests[i].0, spike_response(requests[i].1).0) by {
        assert(answered_and_continued(reads[i], responses[i]));
        assert(reads[i] == Ok::<Option<(FrameKind, u64, Seq<u8>)>, TransportError>(
            Some((FrameKind::Request, requests[i].0, requests[i].1))));
    }
    if m - 1 < k {
        assert(reads[m - 1] == Ok::<Option<(FrameKind, u64, Seq<u8>)>, TransportError>(
            Some((FrameKind::Request, requests[m - 1].0, requests[m - 1].1))));
        assert(!spike_response(requests[m - 1].1).1);
    }
}

/// A worker whose input holds request frames of which only the last is a shutdown command
/// answers them in order, the shutdown included, and reads nothing after the shutdown; unless
/// writing a response fails, it ends cleanly after answering every one of them.
pub proof fn law_shutdown_is_answered_and_ends_the_run(
    reads: Seq<FrameRead>,
    responses: Seq<(u64, Seq<u8>)>,
    r: Result<(), WorkerSpikeError>,
    requests: Seq<(u64, Seq<u8>)>,
)
    requires
        worker_run(reads, responses, r),
        1 <= requests.len() < u64::MAX,
        forall|i: int| 0 <= i < reads.len() && i < requests.len() ==>
            #[trigger] reads[i] == Ok::<Option<(FrameKind, u64, Seq<u8>)>, TransportError>(
                Some((FrameKind::Request, requests[i].0, requests[i].1))),
        forall|i: int| 0 <= i < requests.len() - 1 ==> !spike_response(#[trigger] requests[i].1).1,
        spike_response(requests.last().1).1,
    ensures
        reads.len() <= requests.len(),
        r is Ok ==> responses.len() == requests.len(),
        r is Ok || r matches Err(WorkerSpikeError::Transport(TransportError::Io(_)))
            || r matches Err(WorkerSpikeError::Io(_)),
        responses.len() <= requests.len(),
        forall|i: int| 0 <= i < responses.len() ==>
            #[trigger] responses[i] == (requests[i].0, spike_response(requests[i].1).0),
{
    let m = reads.len() as int;
    let k = requests.len() as int;
    if m > k {
        assert(answered_and_continued(reads[k - 1], responses[k - 1]));
        assert(reads[k - 1] == Ok::<Option<(FrameKind, u64, Seq<u8>)>, TransportError>(
            Some((FrameKind::Request, requests[k - 1].0, requests[k - 1].1))));
        assert(requests.last() == requests[k - 1]);
    }
    assert forall|i: int| 0 <= i < m - 1 implies
        #[trigger] responses[i] == (requests[i].0, spike_response(requests[i].1).0) by {
        assert(answered_and_continued(reads[i], responses[i]));
        assert(reads[i] == Ok::<Option<(FrameKind, u64, Seq<u8>)>, TransportError>(
            Some((FrameKind::Request, requests[i].0, requests[i].1))));
    }
    assert(reads[m - 1] == Ok::<Option<(FrameKind, u64, Seq<u8>)>, TransportError>(
        Some((FrameKind::Request, requests[m - 1].0, requests[m - 1].1))));
    if m - 1 < k - 1 {
        assert(!spike_response(requests[m - 1].1).1);
    }
}

/// The diagnostic text of a stopped worker loop; for an I/O failure, the text before the system's description.
pub open spec fn worker_error_text(e: WorkerSpikeError) -> Seq<char> {
    match e {
        WorkerSpikeError::Transport(error) => "worker transport error: "@ + transport_error_text(error),
        WorkerSpikeError::Io(error) => "worker I/O error: "@ ,
        WorkerSpikeError::UnexpectedFrameKind(kind) => "worker received unexpected "@ + (if kind == FrameKind::Request { "Request"@ } else { "Response"@ }) + " frame"@,
    }
}

impl WorkerSpikeError {
    /// The diagnostic text of the error.
    pub fn message(&self) -> (m: String)
        ensures
            !(*self is Io) && !(*self matches WorkerSpikeError::Transport(TransportError::Io(_))) ==> m@ == worker_error_text(*self),
            m@.len() >= worker_error_text(*self).len(),
            m@.subrange(0, worker_error_text(*self).len() as int) == worker_error_text(*self),
    {
        let mut m = String::new();
        match self {
            WorkerSpikeError::Transport(error) => {
                push_text(&mut m, "worker transport error: ");
                let ghost before = m@;
                let text = error.message();
                push_text(&mut m, text.as_str());
                assert(m@.subrange(0, before.len() as int) =~= before);
            },
            WorkerSpikeError::Io(error) => {
                push_text(&mut m, "worker I/O error: ");
                let ghost before = m@;
                let detail = io_error_text(error);
                push_text(&mut m, detail.as_str());
                assert(m@.subrange(0, before.len() as int) =~= before);
            },
            WorkerSpikeError::UnexpectedFrameKind(kind) => {
                push_text(&mut m, "worker received unexpected ");
                match kind {
                    FrameKind::Request => push_text(&mut m, "Request"),
                    FrameKind::Response => push_text(&mut m, "Response"),
                }
                push_text(&mut m, " frame");
            },
        }
        proof {
            if !(*self is Io) && !(*self matches WorkerSpikeError::Transport(TransportError::Io(_))) {
                assert(m@ =~= worker_error_text(*self));
            }
        }
        m
    }
}

} // verus!
