//! Write-buffer plumbing reduced to its decisions: which role a database's
//! buffer connection asks for, and how a broker's partition/offset pair
//! becomes a sequence stamp.

use vstd::prelude::*;

verus! {

/// A database's write-buffer connection string, by direction.
#[derive(Clone, Debug)]
pub enum WriteBufferConnection {
    Writing { conn: String },
    Reading { conn: String },
}

/// The role the service has to construct for a connection.
#[derive(Clone, Copy, Debug, PartialEq, Eq, Structural)]
pub enum WriteBufferRole {
    Producer,
    Consumer,
}

/// Which buffer to build for a database's rules: a producer for a writing
/// connection, a consumer for a reading one, nothing when no buffer is
/// configured.
pub fn write_buffer_role(connection: &Option<WriteBufferConnection>) -> (r: Option<
    WriteBufferRole,
>)
    ensures
        match connection {
            Option::None => r is None,
            Option::Some(WriteBufferConnection::Writing { .. }) => r == Some(
                WriteBufferRole::Producer,
            ),
            Option::Some(WriteBufferConnection::Reading { .. }) => r == Some(
                WriteBufferRole::Consumer,
            ),
        },
{
    match connection {
        None => None,
        Some(WriteBufferConnection::Writing { .. }) => Some(WriteBufferRole::Producer),
        Some(WriteBufferConnection::Reading { .. }) => Some(WriteBufferRole::Consumer),
    }
}

/// Position of one stored entry: the broker partition it went to and its
/// offset there.
#[derive(Clone, Copy, Debug, PartialEq, Eq, Structural)]
pub struct Sequence {
    pub id: u32,
    pub number: u64,
}

/// Why a broker's reply could not be turned into a sequence stamp.
#[derive(Clone, Copy, Debug, PartialEq, Eq, Structural)]
pub enum SequenceError {
    NegativePartition,
    NegativeOffset,
}

/// Turns the broker's signed partition/offset pair into a sequence stamp,
/// rejecting exactly the negative values.
pub fn sequence_from_parts(partition: i32, offset: i64) -> (r: Result<Sequence, SequenceError>)
    ensures
        match r {
            Ok(s) => partition >= 0 && offset >= 0 && s.id == partition && s.number == offset,
            Err(SequenceError::NegativePartition) => partition < 0,
            Err(SequenceError::NegativeOffset) => partition >= 0 && offset < 0,
        },
{
    if partition < 0 {
        Err(SequenceError::NegativePartition)
    } else if offset < 0 {
        Err(SequenceError::NegativeOffset)
    } else {
        Ok(Sequence { id: partition as u32, number: offset as u64 })
    }
}

} // verus!
