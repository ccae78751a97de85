//! The decisions of the serving side. Reading requests and reaching the
//! stored documents is the caller's part; what is answered to a request,
//! and what becomes of one document's history, is decided here.

use crate::error::Error;
use crate::network_protocol::NetworkResponse;
use crate::repository::{spec_append_range, spec_read_range, Repository};
use vstd::prelude::*;

verus! {

/// What the store of documents answered to the operation that a request
/// asked for. A failure carries its message.
#[derive(Debug, PartialEq, Eq)]
pub enum StoreReply {
    ListFiles(Result<Vec<String>, String>),
    CreateFile(Result<(), String>),
    GetFileData(Result<(u64, u64, Vec<u8>), String>),
    AppendFile(Result<(), String>),
}

/// What the serving side does next on a connection.
#[derive(Debug, PartialEq, Eq)]
pub enum ServerStep {
    /// Send the response and wait for the next request.
    Respond(NetworkResponse),
    /// Send nothing and wait for the next request.
    Skip,
    /// End the connection in good order.
    Close,
    /// End the connection and report the failure.
    Fail(String),
}

/// The step that follows a request, given what the store answered to it. A
/// request that asks nothing of the store is the notice that the client
/// leaves, and closes the connection. The outcome of creating a file or of
/// appending to one travels inside the response, so that the connection
/// stays usable. A listing that fails ends the connection. A range that
/// cannot be had is passed over in silence.
pub open spec fn spec_next_step(reply: Option<StoreReply>) -> ServerStep {
    match reply {
        None => ServerStep::Close,
        Some(StoreReply::ListFiles(Ok(files))) => ServerStep::Respond(
            NetworkResponse::ListFiles { files },
        ),
        Some(StoreReply::ListFiles(Err(message))) => ServerStep::Fail(message),
        Some(StoreReply::CreateFile(result)) => ServerStep::Respond(
            NetworkResponse::CreateFile { result },
        ),
        Some(StoreReply::GetFileData(Ok((from, to, data)))) => ServerStep::Respond(
            NetworkResponse::GetFileData { from, to, data },
        ),
        Some(StoreReply::GetFileData(Err(_))) => ServerStep::Skip,
        Some(StoreReply::AppendFile(result)) => ServerStep::Respond(
            NetworkResponse::AppendFile { result },
        ),
    }
}

/// Decides what follows a request, given what the store answered to it.
pub fn next_step(reply: Option<StoreReply>) -> (step: ServerStep)
    ensures
        step == spec_next_step(reply),
{
    match reply {
        None => ServerStep::Close,
        Some(StoreReply::ListFiles(Ok(files))) => ServerStep::Respond(
            NetworkResponse::ListFiles { files },
        ),
        Some(StoreReply::ListFiles(Err(message))) => ServerStep::Fail(message),
        Some(StoreReply::CreateFile(result)) => ServerStep::Respond(
            NetworkResponse::CreateFile { result },
        ),
        Some(StoreReply::GetFileData(Ok((from, to, data)))) => ServerStep::Respond(
            NetworkResponse::GetFileData { from, to, data },
        ),
        Some(StoreReply::GetFileData(Err(_))) => ServerStep::Skip,
        Some(StoreReply::AppendFile(result)) => ServerStep::Respond(
            NetworkResponse::AppendFile { result },
        ),
    }
}

/// The range of `repository` that a reader lacks who holds its first `from`
/// revisions, or the message of the failure.
pub fn get_file_data(repository: &Repository, from: u64) -> (reply: Result<
    (u64, u64, Vec<u8>),
    String,
>)
    ensures
        match spec_read_range(repository@, from) {
            Ok((start, end, data)) => reply matches Ok((a, b, d)) && a == start && b == end && d@
                == data,
            Err(e) => reply matches Err(message) && message@ == e.spec_message(),
        },
{
    match repository.read_range(from) {
        Ok(range) => Ok(range),
        Err(e) => Err(e.message()),
    }
}

/// Appends the range `from..to` to `repository` if the fence holds: the
/// history has exactly `from` revisions. A failure leaves the history as it
/// was and is told by its message; a broken fence is told as a conflict.
pub fn append_file(repository: &mut Repository, from: u64, to: u64, data: &[u8]) -> (reply: Result<
    (),
    String,
>)
    ensures
        match spec_append_range(old(repository)@, from, to, data@) {
            Ok(revisions) => reply is Ok && final(repository)@ == revisions,
            Err(e) => reply matches Err(message) && message@ == e.spec_message()
                && final(repository)@ == old(repository)@,
        },
        from != old(repository)@.len() ==> (reply matches Err(message) && message@
            == Error::Conflict.spec_message() && final(repository)@ == old(repository)@),
{
    match repository.append_range(from, to, data) {
        Ok(()) => Ok(()),
        Err(e) => Err(e.message()),
    }
}

} // verus!
