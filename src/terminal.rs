//! The read loop of a session's terminal.

use vstd::prelude::*;
use crate::protocol::ServerMessage;

verus! {

/// The rows and columns of a new terminal.
pub const DEFAULT_ROWS: u16 = 24;

pub const DEFAULT_COLS: u16 = 80;

/// The most bytes that one read of a terminal takes.
pub const READ_CHUNK: usize = 4096;

/// What `String::from_utf8_lossy` makes of some bytes.
pub uninterp spec fn utf8_lossy(b: Seq<u8>) -> Seq<char>;

/// Relies on String::from_utf8_lossy: the text of the bytes, with each
/// invalid sequence replaced; it depends on the bytes alone.
#[verifier::external_body]
fn text_of_bytes(b: &[u8]) -> (r: String)
    ensures
        r@ == utf8_lossy(b@),
{
    String::from_utf8_lossy(b).into_owned()
}

/// What one read of a session's terminal gave.
pub enum ReadOutcome {
    /// Some bytes; none at all means the end of the stream.
    Bytes(Vec<u8>),
    /// The read failed.
    Failed,
}

/// What a read loop does after a read.
pub enum ReadStep {
    /// Put this frame on the connection's outbound queue and read again.
    Forward(String),
    /// Stop reading: the session has ended.
    Finish,
}

/// The `output` frame that carries one chunk of a session's output.
pub open spec fn output_wire(session_id: Seq<char>, chunk: Seq<u8>) -> Seq<char> {
    "{\"type\":\"output\",\"session_id\":"@ + crate::protocol::json_string(session_id)
        + ",\"data\":"@ + crate::protocol::json_string(utf8_lossy(chunk)) + "}"@
}

/// What a read loop of session `id` does after a read with `outcome`.
pub open spec fn read_step(id: Seq<char>, outcome: ReadOutcome, r: ReadStep) -> bool {
    match outcome {
        ReadOutcome::Bytes(b) => if b@.len() == 0 {
            r is Finish
        } else {
            match r {
                ReadStep::Forward(f) => f@ == output_wire(id, b@),
                ReadStep::Finish => false,
            }
        },
        ReadOutcome::Failed => r is Finish,
    }
}

/// The frames that a run of read steps forwards, in order.
pub open spec fn forwarded(steps: Seq<ReadStep>) -> Seq<Seq<char>>
    decreases steps.len(),
{
    if steps.len() == 0 {
        Seq::empty()
    } else {
        forwarded(steps.drop_last()) + match steps.last() {
            ReadStep::Forward(f) => seq![f@],
            ReadStep::Finish => Seq::empty(),
        }
    }
}

/// A read loop forwards a session's output chunk by chunk in the order the
/// shell emitted it: one frame per read, carrying that read's bytes alone.
pub proof fn lemma_output_in_order(id: Seq<char>, chunks: Seq<Vec<u8>>, steps: Seq<ReadStep>)
    requires
        chunks.len() == steps.len(),
        forall|i: int| 0 <= i < chunks.len() ==> (#[trigger] chunks[i])@.len() > 0,
        forall|i: int|
            0 <= i < chunks.len() ==> read_step(id, ReadOutcome::Bytes(chunks[i]), #[trigger] steps[i]),
    ensures
        forwarded(steps) == chunks.map_values(|c: Vec<u8>| output_wire(id, c@)),
    decreases chunks.len(),
{
    if chunks.len() > 0 {
        let n = chunks.len() - 1;
        let c2 = chunks.drop_last();
        let s2 = steps.drop_last();
        assert forall|i: int| 0 <= i < c2.len() implies read_step(
            id,
            ReadOutcome::Bytes(c2[i]),
            #[trigger] s2[i],
        ) by {
            assert(read_step(id, ReadOutcome::Bytes(chunks[i]), steps[i]));
        }
        assert forall|i: int| 0 <= i < c2.len() implies (#[trigger] c2[i])@.len() > 0 by {
            assert(chunks[i]@.len() > 0);
        }
        lemma_output_in_order(id, c2, s2);
        assert(read_step(id, ReadOutcome::Bytes(chunks[n]), steps[n]));
        assert(chunks[n]@.len() > 0);
        assert(forwarded(steps) =~= chunks.map_values(|c: Vec<u8>| output_wire(id, c@)));
    }
}

/// The frame that carries one chunk of a session's output.
pub fn output_frame(session_id: &String, chunk: &[u8]) -> (r: String)
    ensures
        r@ == output_wire(session_id@, chunk@),
{
    let msg = ServerMessage::Output { session_id: session_id.clone(), data: text_of_bytes(chunk) };
    msg.encode()
}

/// The step of a read loop: each chunk that a read returns is forwarded at
/// once and on its own; the end of the stream or a failed read ends the loop.
pub fn after_read(session_id: &String, outcome: &ReadOutcome) -> (r: ReadStep)
    ensures
        read_step(session_id@, *outcome, r),
{
    match outcome {
        ReadOutcome::Bytes(b) => {
            if b.len() == 0 {
                ReadStep::Finish
            } else {
                ReadStep::Forward(output_frame(session_id, b.as_slice()))
            }
        },
        ReadOutcome::Failed => ReadStep::Finish,
    }
}

} // verus!
