//! One connection of the price service: a ledger of its own, fed with raw
//! frames.
//!
//! The driver of a connection reads nine bytes at a time and hands each frame to
//! [`Session::on_frame`]. It writes back the bytes it is given, if any, and closes
//! the connection when the stream ends or the session reports a protocol error.
//! Frames are handled strictly one after another; each is answered from the
//! store as the frames before it left it.

use crate::ledger::PriceLedger;
use crate::model::{answer_to, store_after};
use crate::wire::{
    be_bytes, decode_frame, frame_of, i32_to_be, ProtocolError, TAG_INSERT, TAG_QUERY,
};
use vstd::prelude::*;

verus! {

/// The store after a session holding `m` has been handed the frame `bytes`. A
/// frame with an unknown tag leaves the store as it is.
pub open spec fn store_after_bytes(m: Map<i32, i32>, bytes: Seq<u8>) -> Map<i32, i32> {
    match frame_of(bytes) {
        Ok(frame) => store_after(m, frame),
        Err(_) => m,
    }
}

/// What a session holding `m` returns for the frame `bytes`: the protocol error
/// for an unknown tag, nothing for an insert, and for a query the four bytes of
/// the answer.
pub open spec fn outcome_of_bytes(m: Map<i32, i32>, bytes: Seq<u8>) -> Result<
    Option<Seq<u8>>,
    ProtocolError,
> {
    match frame_of(bytes) {
        Ok(frame) => Ok(
            match answer_to(m, frame) {
                Some(mean) => Some(be_bytes(mean)),
                None => None,
            },
        ),
        Err(error) => Err(error),
    }
}

/// The outcome of a frame with the response, if any, as a sequence of bytes.
pub open spec fn outcome_view(outcome: Result<Option<[u8; 4]>, ProtocolError>) -> Result<
    Option<Seq<u8>>,
    ProtocolError,
> {
    match outcome {
        Ok(Some(bytes)) => Ok(Some(bytes@)),
        Ok(None) => Ok(None),
        Err(error) => Err(error),
    }
}

/// A query frame changes nothing, so the same query frame handed in again at
/// once gets the same bytes back.
pub proof fn lemma_query_frame_repeats(m: Map<i32, i32>, bytes: Seq<u8>)
    requires
        bytes[0] == TAG_QUERY,
    ensures
        store_after_bytes(m, bytes) == m,
        outcome_of_bytes(store_after_bytes(m, bytes), bytes) == outcome_of_bytes(m, bytes),
{
}

/// A frame with an unknown tag is never answered and never changes the store.
pub proof fn lemma_unknown_tag(m: Map<i32, i32>, bytes: Seq<u8>)
    requires
        bytes[0] != TAG_INSERT,
        bytes[0] != TAG_QUERY,
    ensures
        store_after_bytes(m, bytes) == m,
        outcome_of_bytes(m, bytes) == Err::<Option<Seq<u8>>, ProtocolError>(
            ProtocolError::UnknownTag { tag: bytes[0] },
        ),
{
}

/// The state of one connection: its own ledger, empty at the start, shared with
/// no other connection and dropped with it.
pub struct Session {
    ledger: PriceLedger,
}

impl View for Session {
    type V = Map<i32, i32>;

    closed spec fn view(&self) -> Map<i32, i32> {
        self.ledger@
    }
}

/// Starts a session with an empty ledger.
pub fn new_session() -> (session: Session)
    ensures
        session@ == Map::<i32, i32>::empty(),
{
    Session { ledger: PriceLedger::new() }
}

impl Session {
    /// The ledger of this session.
    pub fn ledger(&self) -> (ledger: &PriceLedger)
        ensures
            ledger@ == self@,
    {
        &self.ledger
    }

    /// Handles one frame and returns the bytes to write back, if any.
    ///
    /// An insert frame updates the ledger and returns `Ok(None)`. A query frame
    /// leaves the ledger as it is and returns the mean as four big-endian
    /// bytes. A frame with any other tag is a protocol error: the ledger is
    /// left as it is, and the connection is to be closed.
    pub fn on_frame(&mut self, bytes: [u8; 9]) -> (outcome: Result<Option<[u8; 4]>, ProtocolError>)
        ensures
            final(self)@ == store_after_bytes(old(self)@, bytes@),
            outcome_view(outcome) == outcome_of_bytes(old(self)@, bytes@),
    {
        match decode_frame(&bytes) {
            Ok(frame) => match self.ledger.apply(frame) {
                Some(mean) => Ok(Some(i32_to_be(mean))),
                None => Ok(None),
            },
            Err(error) => Err(error),
        }
    }
}

} // verus!
