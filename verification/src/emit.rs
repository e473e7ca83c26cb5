//! Handing a payload to the recording daemon, or writing it without one.
use vstd::prelude::*;

verus! {

/// What the daemon answers once a payload is on disk.
pub const ACK_BYTE: u8 = 0x06;

/// The way that a payload took.
#[derive(Debug, Clone, Copy, PartialEq, Eq, Structural)]
pub enum EmitOutcome {
    /// The daemon has it on disk.
    Forwarded,
    /// It was written without the daemon.
    Fallback,
}

/// The way that a payload takes, from what the daemon answered, if it did.
pub open spec fn outcome_of(reply: Option<Seq<u8>>) -> EmitOutcome {
    if reply == Some(seq![ACK_BYTE]) {
        EmitOutcome::Forwarded
    } else {
        EmitOutcome::Fallback
    }
}

/// Tells the way that a payload takes, from what the daemon answered, if it did.
pub fn emit_outcome(reply: Option<&Vec<u8>>) -> (r: EmitOutcome)
    ensures
        r == outcome_of(
            match reply {
                Some(b) => Some(b@),
                None => None,
            },
        ),
{
    match reply {
        Some(b) => {
            if b.len() == 1 && b[0] == ACK_BYTE {
                proof {
                    assert(b@ =~= seq![ACK_BYTE]);
                }
                EmitOutcome::Forwarded
            } else {
                EmitOutcome::Fallback
            }
        },
        None => EmitOutcome::Fallback,
    }
}

/// What the daemon does with a payload that it tried to write.
#[derive(Debug, Clone, Copy, PartialEq, Eq, Structural)]
pub enum WatchStep {
    /// It answers, and looks into the transcript.
    Acknowledge,
    /// It stays silent, and forgets how far it had counted.
    Forget,
}

/// What the daemon answers.
pub open spec fn answer_of(step: WatchStep) -> Seq<u8> {
    match step {
        WatchStep::Acknowledge => seq![ACK_BYTE],
        WatchStep::Forget => Seq::<u8>::empty(),
    }
}

/// Tells what the daemon does with a payload, from whether it was written.
pub fn watch_step(written: bool) -> (r: WatchStep)
    ensures
        r is Acknowledge <==> written,
{
    if written {
        WatchStep::Acknowledge
    } else {
        WatchStep::Forget
    }
}

/// What the daemon answers.
pub fn watch_answer(step: WatchStep) -> (out: Vec<u8>)
    ensures
        out@ == answer_of(step),
{
    let mut out: Vec<u8> = Vec::new();
    match step {
        WatchStep::Acknowledge => {
            out.push(ACK_BYTE);
        },
        WatchStep::Forget => {},
    }
    proof {
        assert(out@ =~= answer_of(step));
    }
    out
}

/// A payload is taken for recorded exactly where the daemon has written it and its
/// answer came through; in every other case it is written without the daemon.
pub proof fn no_payload_is_lost(step: WatchStep, arrived: bool)
    ensures
        outcome_of(
            if arrived {
                Some(answer_of(step))
            } else {
                None
            },
        ) is Forwarded <==> arrived && step is Acknowledge,
{
    let empty = Seq::<u8>::empty();
    assert(seq![ACK_BYTE].len() == 1);
    assert(empty.len() == 0);
}

} // verus!
