//! The relay's error taxonomy and how a submission's outcome maps onto it.
use vstd::prelude::*;

verus! {

/// Why a relayed transaction did not make it.
#[derive(Clone, Debug)]
pub enum Error {
    /// The request body could not be read.
    Deserialize { msg: String },
    /// The transaction does not form a valid block.
    BadBlock { msg: String },
    /// Building or sending the block failed before it was finalized.
    Submission { msg: String },
    /// The chain finalized the block without accepting it.
    Rejected,
    /// Anything else.
    Internal { msg: String },
}

impl Error {
    pub fn catch_all(msg: String) -> (r: Error)
        ensures
            r == (Error::Internal { msg }),
    {
        Error::Internal { msg }
    }

    /// The HTTP status of the error: the client's fault for a body or block
    /// that is not valid, the server's otherwise.
    pub fn status(&self) -> (r: u16)
        ensures
            r == match self {
                Error::Deserialize { .. } | Error::BadBlock { .. } => 400u16,
                _ => 500u16,
            },
    {
        match self {
            Error::Deserialize { .. } | Error::BadBlock { .. } => 400,
            Error::Submission { .. } | Error::Rejected | Error::Internal { .. } => 500,
        }
    }
}

/// The relay's answer from what the chain gave back for the submitted block:
/// a receipt is success; a finalization without a receipt is a rejection; a
/// failure before finalization is a submission error.
pub fn relay_result<R>(submitted: Result<Option<R>, String>) -> (r: Result<R, Error>)
    ensures
        match submitted {
            Ok(Some(x)) => r == Ok::<R, Error>(x),
            Ok(None) => r == Err::<R, Error>(Error::Rejected),
            Err(m) => r == Err::<R, Error>(Error::Submission { msg: m }),
        },
{
    match submitted {
        Ok(Some(x)) => Ok(x),
        Ok(None) => Err(Error::Rejected),
        Err(msg) => Err(Error::Submission { msg }),
    }
}

/// The error for a transaction that does not form a block.
pub fn bad_block(msg: String) -> (r: Error)
    ensures
        r == (Error::BadBlock { msg }),
{
    Error::BadBlock { msg }
}

} // verus!
