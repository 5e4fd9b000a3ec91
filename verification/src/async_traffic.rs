//! The traffic writer's queue: the commands it carries and how the
//! processor gathers them into rounds.
use vstd::prelude::*;

verus! {

/// Records a round takes at most.
pub const MAX_BATCH_RECORDS: usize = 64;
/// Updates a round takes at most.
pub const MAX_BATCH_UPDATES: usize = 32;

/// A command on the traffic queue: store a new exchange, or change the
/// stored exchange with identifier `id` by `updater`.
pub enum TrafficCommand<R, U> {
    Record(R),
    Update { id: String, updater: U },
}

/// The commands of one processing round, records and updates each in the
/// order they arrived.
pub struct TrafficBatch<R, U> {
    pub records: Vec<R>,
    pub updates: Vec<(String, U)>,
}

impl<R, U> TrafficBatch<R, U> {
    /// An empty round.
    pub fn new() -> (b: TrafficBatch<R, U>)
        ensures
            b.records@.len() == 0,
            b.updates@.len() == 0,
    {
        TrafficBatch { records: Vec::new(), updates: Vec::new() }
    }

    /// Whether the round takes another queued command: fewer than 64 records
    /// and fewer than 32 updates so far.
    pub fn has_room(&self) -> (b: bool)
        ensures
            b == (self.records@.len() < MAX_BATCH_RECORDS && self.updates@.len() < MAX_BATCH_UPDATES),
    {
        self.records.len() < MAX_BATCH_RECORDS && self.updates.len() < MAX_BATCH_UPDATES
    }

    /// Adds a command to the round: a record after the records, an update
    /// after the updates.
    pub fn take(&mut self, command: TrafficCommand<R, U>)
        ensures
            match command {
                TrafficCommand::Record(r) => {
                    &&& final(self).records@ == old(self).records@.push(r)
                    &&& final(self).updates@ == old(self).updates@
                },
                TrafficCommand::Update { id, updater } => {
                    &&& final(self).records@ == old(self).records@
                    &&& final(self).updates@ == old(self).updates@.push((id, updater))
                },
            },
    {
        match command {
            TrafficCommand::Record(r) => self.records.push(r),
            TrafficCommand::Update { id, updater } => self.updates.push((id, updater)),
        }
    }
}

/// A round that takes its first command unconditionally and further ones
/// only while it has room never holds more than 64 records or 32 updates.
pub proof fn lemma_round_bounded(records: nat, updates: nat, first: bool, record: bool)
    requires
        first ==> records == 0 && updates == 0,
        !first ==> records < MAX_BATCH_RECORDS && updates < MAX_BATCH_UPDATES,
    ensures
        (if record { records + 1 } else { records }) <= MAX_BATCH_RECORDS,
        (if record { updates } else { updates + 1 }) <= MAX_BATCH_UPDATES,
{
}

} // verus!
