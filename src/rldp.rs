//! Decisions of the RLDP query engine: the query envelope, the check of an
//! answer against the pending query, and the progress tracking that drives
//! the send loop and the wait for the reply. The loops themselves, which
//! sleep and do I/O, run outside and hand each observation to these.

use crate::crypto::random_bytes32;
use crate::rtt::{
    calc_timeout, is_timed_out, next_roundtrip, stalled_roundtrip, timed_out, timeout_for, update_roundtrip,
    MAX_TIMEOUT, MAX_TRANSFER_WAVE,
};
use vstd::prelude::*;

verus! {

/// Answer size asked for when the caller gives none: 128 KiB.
pub const DEFAULT_MAX_ANSWER_SIZE: i64 = 131072;

/// Seconds a query stays valid at the peer.
pub const QUERY_TIMEOUT_SECS: i32 = 10;

/// Id of a query, echoed by its answer.
pub type QueryId = [u8; 32];

/// An RLDP query.
#[derive(Clone, Debug)]
pub struct RldpQuery {
    pub query_id: QueryId,
    pub max_answer_size: i64,
    /// Deadline, in seconds since the epoch.
    pub timeout: i32,
    pub data: Vec<u8>,
}

/// An RLDP answer.
#[derive(Clone, Debug)]
pub struct RldpAnswer {
    pub query_id: QueryId,
    pub data: Vec<u8>,
}

/// A decoded RLDP envelope.
#[derive(Clone, Debug)]
pub enum RldpMessage {
    Query(RldpQuery),
    Answer(RldpAnswer),
}

/// Why a reply was refused.
#[derive(Debug, Clone, Copy, PartialEq, Eq, Structural)]
pub enum RldpNodeError {
    /// The reply is not an answer.
    UnexpectedAnswer,
    /// The answer carries another query id.
    QueryIdMismatch,
}

/// Builds a query for `data` with a fresh random id, valid until
/// `now + QUERY_TIMEOUT_SECS`.
pub fn build_query(data: &Vec<u8>, max_answer_size: Option<i64>, now: i32) -> (r: RldpQuery)
    requires
        now <= i32::MAX - QUERY_TIMEOUT_SECS,
    ensures
        r.max_answer_size == match max_answer_size {
            Some(m) => m,
            None => DEFAULT_MAX_ANSWER_SIZE,
        },
        r.timeout == now + QUERY_TIMEOUT_SECS,
        r.data@ == data@,
{
    let query_id = random_bytes32();
    let max_answer_size = match max_answer_size {
        Some(m) => m,
        None => DEFAULT_MAX_ANSWER_SIZE,
    };
    RldpQuery { query_id, max_answer_size, timeout: now + QUERY_TIMEOUT_SECS, data: data.clone() }
}

/// The data of a reply to the query `query_id`: an answer with that id
/// gives its data; an answer with another id, or a message of another
/// kind, is an error.
pub fn answer_data(query_id: &QueryId, reply: RldpMessage) -> (r: Result<Vec<u8>, RldpNodeError>)
    ensures
        match reply {
            RldpMessage::Answer(a) => if a.query_id@ == query_id@ {
                r matches Ok(d) && d@ == a.data@
            } else {
                r == Err::<Vec<u8>, RldpNodeError>(RldpNodeError::QueryIdMismatch)
            },
            RldpMessage::Query(_) => r == Err::<Vec<u8>, RldpNodeError>(RldpNodeError::UnexpectedAnswer),
        },
{
    match reply {
        RldpMessage::Answer(a) => {
            if ids_equal(&a.query_id, query_id) {
                Ok(a.data)
            } else {
                Err(RldpNodeError::QueryIdMismatch)
            }
        },
        RldpMessage::Query(_) => Err(RldpNodeError::UnexpectedAnswer),
    }
}

fn ids_equal(a: &[u8; 32], b: &[u8; 32]) -> (r: bool)
    ensures
        r == (a@ == b@),
{
    let mut i: usize = 0;
    while i < 32
        invariant
            0 <= i <= 32,
            forall|j: int| 0 <= j < i ==> a@[j] == b@[j],
        decreases 32 - i,
    {
        if a[i] != b[i] {
            return false;
        }
        i = i + 1;
    }
    assert(a@ =~= b@);
    true
}

/// Number of symbols to send in one wave: the suggestion, capped at
/// `MAX_TRANSFER_WAVE`.
pub fn wave_len(suggested: u32) -> (r: u32)
    ensures
        r == if suggested <= MAX_TRANSFER_WAVE { suggested } else { MAX_TRANSFER_WAVE },
{
    if suggested <= MAX_TRANSFER_WAVE { suggested } else { MAX_TRANSFER_WAVE }
}

/// Whether an incoming transfer holds all it announced.
pub fn is_transfer_complete(total_size: Option<u64>, received: usize) -> (r: bool)
    ensures
        r == (total_size matches Some(t) && t == received),
{
    match total_size {
        Some(t) => t == received as u64,
        None => false,
    }
}

/// What one poll of a transfer loop found.
#[derive(Debug, Clone, Copy, PartialEq, Eq, Structural)]
pub enum PollOutcome {
    /// The peer's counter grew: the round-trip was measured and the timer restarts.
    Progress,
    /// No news, and the timeout has not run out.
    Waiting,
    /// No news for longer than the stretched timeout: the transfer has stalled.
    Stalled,
}

/// Round-trip estimate, current timeout, and the last value seen of the
/// counter that shows the peer's progress.
#[derive(Debug, Clone, Copy)]
pub struct TransferProgress {
    pub roundtrip: u64,
    pub timeout: u64,
    pub seen: u32,
}

impl TransferProgress {
    /// State at the start of a send: the caller's estimate (0 when none)
    /// and its timeout.
    pub fn for_send(roundtrip: Option<u64>) -> (r: TransferProgress)
        ensures
            r.roundtrip == match roundtrip {
                Some(x) => x,
                None => 0,
            },
            r.timeout == timeout_for(roundtrip),
            r.seen == 0,
    {
        let timeout = calc_timeout(roundtrip);
        let roundtrip = match roundtrip {
            Some(x) => x,
            None => 0,
        };
        TransferProgress { roundtrip, timeout, seen: 0 }
    }

    /// State while waiting for the reply, after a send that ended with the
    /// estimate `roundtrip`, with `updates` chunks received so far.
    pub fn for_reply(roundtrip: u64, updates: u32) -> (r: TransferProgress)
        ensures
            r.roundtrip == roundtrip,
            r.timeout == timeout_for(Some(roundtrip)),
            r.seen == updates,
    {
        TransferProgress { roundtrip, timeout: calc_timeout(Some(roundtrip)), seen: updates }
    }

    /// A new part starts: nothing of it has been acknowledged yet.
    pub fn start_part(&mut self)
        ensures
            final(self).roundtrip == old(self).roundtrip,
            final(self).timeout == old(self).timeout,
            final(self).seen == 0,
    {
        self.seen = 0;
    }

    /// A part was sent in full `elapsed_ms` after its timer started: the
    /// measurement joins the estimate.
    pub fn finish_part(&mut self, elapsed_ms: u64)
        requires
            next_roundtrip(old(self).roundtrip, elapsed_ms) <= u64::MAX,
        ensures
            final(self).roundtrip == next_roundtrip(old(self).roundtrip, elapsed_ms),
            final(self).timeout == timeout_for(Some(final(self).roundtrip)),
            final(self).seen == old(self).seen,
    {
        self.timeout = update_roundtrip(&mut self.roundtrip, elapsed_ms);
    }

    /// One poll: `counter` is the peer's progress counter now, `elapsed_ms`
    /// the time since the timer last started.
    pub fn observe(&mut self, counter: u32, elapsed_ms: u64) -> (r: PollOutcome)
        requires
            next_roundtrip(old(self).roundtrip, elapsed_ms) <= u64::MAX,
        ensures
            counter > old(self).seen ==> r == PollOutcome::Progress
                && final(self).roundtrip == next_roundtrip(old(self).roundtrip, elapsed_ms)
                && final(self).timeout == timeout_for(Some(final(self).roundtrip))
                && final(self).seen == counter,
            counter <= old(self).seen ==> *final(self) == *old(self)
                && r == if timed_out(elapsed_ms, old(self).timeout, old(self).seen) {
                    PollOutcome::Stalled
                } else {
                    PollOutcome::Waiting
                },
    {
        if counter > self.seen {
            self.timeout = update_roundtrip(&mut self.roundtrip, elapsed_ms);
            self.seen = counter;
            PollOutcome::Progress
        } else if is_timed_out(elapsed_ms, self.timeout, self.seen) {
            PollOutcome::Stalled
        } else {
            PollOutcome::Waiting
        }
    }

    /// The round-trip to report after a stall: twice the estimate, at most
    /// `MAX_TIMEOUT`.
    pub fn stalled_roundtrip(&self) -> (r: u64)
        ensures
            r == if 2 * self.roundtrip <= MAX_TIMEOUT { 2 * self.roundtrip } else { MAX_TIMEOUT as int },
    {
        stalled_roundtrip(self.roundtrip)
    }
}

} // verus!
