use crate::batch::NodeId;
use crate::seq_no::SeqNo;
use vstd::prelude::*;

verus! {

/// The key that identifies a client session: the client id in the high 32 bits, the
/// session number in the low 32 bits.
pub fn operation_key_raw(from: NodeId, session: SeqNo) -> (key: u64)
    ensures
        key == from.id as int * 0x1_0000_0000 + session.value as int,
{
    let client_id: u64 = from.id as u64;
    let session_id: u64 = session.value as u64;
    let key = (client_id << 32u64) | session_id;
    assert(key == client_id * 0x1_0000_0000 + session_id) by (bit_vector)
        requires
            client_id < 0x1_0000_0000,
            session_id < 0x1_0000_0000,
            key == (client_id << 32u64) | session_id,
    ;
    key
}

/// Divides client requests among workers round-robin by session: every request of one
/// client session goes to the same worker.
pub struct WDRoundRobin;

impl WDRoundRobin {
    /// The worker, out of `worker_count`, that handles requests of `from`'s `session`.
    pub fn get_worker_for(from: NodeId, session: SeqNo, worker_count: usize) -> (w: usize)
        requires
            worker_count > 0,
        ensures
            w < worker_count,
            w == (from.id as int * 0x1_0000_0000 + session.value as int) % (worker_count as int),
    {
        let op_key = operation_key_raw(from, session);
        (op_key % (worker_count as u64)) as usize
    }

    /// The worker for an already processed request, identified by sender and session.
    pub fn get_worker_for_processed(sender: NodeId, session: SeqNo, worker_count: usize) -> (w: usize)
        requires
            worker_count > 0,
        ensures
            w < worker_count,
            w == (sender.id as int * 0x1_0000_0000 + session.value as int) % (worker_count as int),
    {
        Self::get_worker_for(sender, session, worker_count)
    }
}

} // verus!
