use crate::seq_no::SeqNo;
use vstd::prelude::*;

verus! {

/// Something placed at a sequence number.
pub trait Orderable {
    /// Its sequence number.
    fn sequence_number(&self) -> SeqNo;
}

/// A proof, produced by an ordering protocol, that a decision was taken.
pub trait OrderProtocolProof: Orderable {

}

/// The protocol of a node that runs none (a client, for instance).
#[derive(Debug)]
pub struct NoProtocol;

/// The view of a node that takes part in no view.
#[derive(Clone, Debug)]
pub struct NoView;

} // verus!
