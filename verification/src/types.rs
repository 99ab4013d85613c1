//! Data-request records, answers, and the request-id nonce.

use vstd::prelude::*;

verus! {

/// The finalized answer to a data request.
#[derive(Clone, PartialEq, Debug)]
pub enum Outcome {
    Answer(AnswerType),
    Invalid,
}

/// The shape of an answer: a scaled number or free text.
#[derive(Clone, PartialEq, Debug)]
pub enum AnswerType {
    Number(AnswerNumberType),
    String(String),
}

/// A numeric answer as a scaled magnitude with a sign.
#[derive(Clone, Copy, PartialEq, Eq, Structural, Debug)]
pub struct AnswerNumberType {
    pub value: u128,
    pub multiplier: u128,
    pub negative: bool,
}

/// Where a data request's answer may be fetched from.
#[derive(Clone, PartialEq, Debug)]
pub struct Source {
    pub end_point: String,
    pub source_path: String,
}

/// Lifecycle of a data request: pending until finalized exactly once.
#[derive(Clone, PartialEq, Debug)]
pub enum RequestStatus {
    Pending,
    Finalized(Outcome),
}

/// The kind of answer a request expects.
#[derive(Clone, Copy, PartialEq, Eq, Structural, Debug)]
pub enum DataRequestDataType {
    Number(u128),
    String,
}

/// Arguments for creating a new data request.
#[derive(Clone, PartialEq, Debug)]
pub struct NewDataRequestArgs {
    pub sources: Option<Vec<Source>>,
    pub tags: Vec<String>,
    pub description: Option<String>,
    pub outcomes: Option<Vec<String>>,
    pub challenge_period: u64,
    pub data_type: DataRequestDataType,
    pub provider: Option<String>,
}

/// Arguments for staking on an existing data request.
#[derive(Clone, PartialEq, Debug)]
pub struct StakeDataRequestArgs {
    pub id: u64,
    pub outcome: Outcome,
}

/// The discriminated payload carried by an inbound deposit notification.
#[derive(Clone, PartialEq, Debug)]
pub enum Payload {
    NewDataRequest(NewDataRequestArgs),
    StakeDataRequest(StakeDataRequestArgs),
}

/// A persisted data request: created once, finalized at most once.
#[derive(Clone, PartialEq, Debug)]
pub struct DataRequest {
    pub amount: u128,
    pub payload: NewDataRequestArgs,
    pub tags: Vec<String>,
    pub status: RequestStatus,
    pub creator: String,
    pub bond_withdrawn: bool,
}

/// A monotonically increasing counter assigning unique request ids.
pub struct Nonce(pub u64);

impl Nonce {
    /// A fresh counter starting at zero.
    pub fn new() -> (r: Self)
        ensures
            r.0 == 0,
    {
        Self(0)
    }

    /// Returns the current value and advances the counter by one.
    pub fn get_and_incr(&mut self) -> (r: u64)
        requires
            old(self).0 < u64::MAX,
        ensures
            r == old(self).0,
            final(self).0 == old(self).0 + 1,
    {
        let val = self.0;
        self.0 = self.0 + 1;
        val
    }
}

} // verus!
