//! The wire protocol of a store of documents: requests and responses, each
//! a one-byte message id followed by the fields of the message, written
//! with the same primitive encoders as the file format.

use crate::error::Error;
use crate::readwrite::{
    encode_array, encode_bytes, encode_string, encode_varint, lemma_bytes_roundtrip,
    lemma_string_array_roundtrip, lemma_string_roundtrip, lemma_varint_roundtrip, read_bytes,
    read_string, read_string_array, read_u8, read_varint, spec_read_array, spec_read_bytes,
    spec_read_string, spec_read_u8, spec_read_varint, string_reader, string_writer, write_bytes,
    write_string, write_string_array, write_u8, write_varint, yields, Decoded,
};
use crate::repository::{spec_append, Journal, Repository};
use crate::revision::RevisionView;
use vstd::prelude::*;
use vstd::utf8::encode_utf8;

verus! {

pub const DISCONNECT: u8 = 0;

pub const LIST_FILES: u8 = 1;

pub const GET_FILE_DATA: u8 = 2;

pub const CREATE_FILE: u8 = 3;

pub const APPEND_FILE: u8 = 4;

/// What a client asks of the store.
#[derive(Debug, Clone, PartialEq, Eq)]
pub enum NetworkRequest {
    /// The client is about to close the connection.
    Disconnect,
    ListFiles { path: String },
    CreateFile { path: String },
    /// Asks for the revisions of `path` from number `from` on.
    GetFileData { from: u64, path: String },
    /// Sends the revisions `from..to` of `path`, to be appended if the
    /// store holds exactly `from` revisions of it.
    AppendFile { from: u64, to: u64, path: String, data: Vec<u8> },
}

/// What the store answers.
#[derive(Debug, PartialEq, Eq)]
pub enum NetworkResponse {
    ListFiles { files: Vec<String> },
    CreateFile { result: Result<(), String> },
    /// The revisions `from..to`, as a container.
    GetFileData { from: u64, to: u64, data: Vec<u8> },
    AppendFile { result: Result<(), String> },
}

/// What a request is.
pub enum RequestView {
    Disconnect,
    ListFiles { path: Seq<char> },
    CreateFile { path: Seq<char> },
    GetFileData { from: u64, path: Seq<char> },
    AppendFile { from: u64, to: u64, path: Seq<char>, data: Seq<u8> },
}

/// What a response is.
pub enum ResponseView {
    ListFiles { files: Seq<Seq<char>> },
    CreateFile { result: Result<(), Seq<char>> },
    GetFileData { from: u64, to: u64, data: Seq<u8> },
    AppendFile { result: Result<(), Seq<char>> },
}

/// The outcome of an operation of the store, as it is carried in a
/// response.
pub open spec fn outcome_view(result: Result<(), String>) -> Result<(), Seq<char>> {
    match result {
        Ok(()) => Ok(()),
        Err(message) => Err(message@),
    }
}

impl View for NetworkRequest {
    type V = RequestView;

    open spec fn view(&self) -> RequestView {
        match self {
            NetworkRequest::Disconnect => RequestView::Disconnect,
            NetworkRequest::ListFiles { path } => RequestView::ListFiles { path: path@ },
            NetworkRequest::CreateFile { path } => RequestView::CreateFile { path: path@ },
            NetworkRequest::GetFileData { from, path } => RequestView::GetFileData {
                from: *from,
                path: path@,
            },
            NetworkRequest::AppendFile { from, to, path, data } => RequestView::AppendFile {
                from: *from,
                to: *to,
                path: path@,
                data: data@,
            },
        }
    }
}

impl DeepView for NetworkRequest {
    type V = RequestView;

    open spec fn deep_view(&self) -> RequestView {
        self@
    }
}

impl View for NetworkResponse {
    type V = ResponseView;

    open spec fn view(&self) -> ResponseView {
        match self {
            NetworkResponse::ListFiles { files } => ResponseView::ListFiles {
                files: files.deep_view(),
            },
            NetworkResponse::CreateFile { result } => ResponseView::CreateFile {
                result: outcome_view(*result),
            },
            NetworkResponse::GetFileData { from, to, data } => ResponseView::GetFileData {
                from: *from,
                to: *to,
                data: data@,
            },
            NetworkResponse::AppendFile { result } => ResponseView::AppendFile {
                result: outcome_view(*result),
            },
        }
    }
}

impl DeepView for NetworkResponse {
    type V = ResponseView;

    open spec fn deep_view(&self) -> ResponseView {
        self@
    }
}

/// The outcome of an operation on the wire: a zero byte for success, or a
/// one byte and the message of the failure.
pub open spec fn encode_outcome(result: Result<(), Seq<char>>) -> Seq<u8> {
    match result {
        Ok(()) => seq![0u8],
        Err(message) => seq![1u8] + encode_string(message),
    }
}

/// An outcome at the front of `s`. Any byte but zero announces a failure.
pub open spec fn spec_read_outcome(s: Seq<u8>) -> Decoded<Result<(), Seq<char>>> {
    match spec_read_u8(s) {
        Err(e) => Err(e),
        Ok((flag, rest)) => if flag == 0 {
            Ok((Ok(()), rest))
        } else {
            match spec_read_string(rest) {
                Err(e) => Err(e),
                Ok((message, after)) => Ok((Err(message), after)),
            }
        },
    }
}

impl RequestView {
    pub open spec fn message_id(self) -> u8 {
        match self {
            RequestView::Disconnect => DISCONNECT,
            RequestView::ListFiles { .. } => LIST_FILES,
            RequestView::GetFileData { .. } => GET_FILE_DATA,
            RequestView::CreateFile { .. } => CREATE_FILE,
            RequestView::AppendFile { .. } => APPEND_FILE,
        }
    }

    /// The request on the wire: the message id, then the fields.
    pub open spec fn encode(self) -> Seq<u8> {
        seq![self.message_id()] + match self {
            RequestView::Disconnect => Seq::empty(),
            RequestView::ListFiles { path } => encode_string(path),
            RequestView::CreateFile { path } => encode_string(path),
            RequestView::GetFileData { from, path } => encode_varint(from as nat) + encode_string(
                path,
            ),
            RequestView::AppendFile { from, to, path, data } => encode_varint(from as nat)
                + encode_varint(to as nat) + encode_string(path) + encode_bytes(data),
        }
    }

    /// True when every length fits the 64 bits that the format gives it.
    pub open spec fn encodable(self) -> bool {
        match self {
            RequestView::Disconnect => true,
            RequestView::ListFiles { path } => encode_utf8(path).len() <= u64::MAX,
            RequestView::CreateFile { path } => encode_utf8(path).len() <= u64::MAX,
            RequestView::GetFileData { path, .. } => encode_utf8(path).len() <= u64::MAX,
            RequestView::AppendFile { path, data, .. } => encode_utf8(path).len() <= u64::MAX
                && data.len() <= u64::MAX,
        }
    }
}

impl ResponseView {
    pub open spec fn message_id(self) -> u8 {
        match self {
            ResponseView::ListFiles { .. } => LIST_FILES,
            ResponseView::GetFileData { .. } => GET_FILE_DATA,
            ResponseView::CreateFile { .. } => CREATE_FILE,
            ResponseView::AppendFile { .. } => APPEND_FILE,
        }
    }

    /// The response on the wire: the message id, then the fields.
    pub open spec fn encode(self) -> Seq<u8> {
        seq![self.message_id()] + match self {
            ResponseView::ListFiles { files } => encode_array(string_writer(), files),
            ResponseView::GetFileData { from, to, data } => encode_varint(from as nat)
                + encode_varint(to as nat) + encode_bytes(data),
            ResponseView::CreateFile { result } => encode_outcome(result),
            ResponseView::AppendFile { result } => encode_outcome(result),
        }
    }

    /// True when every length fits the 64 bits that the format gives it.
    pub open spec fn encodable(self) -> bool {
        match self {
            ResponseView::ListFiles { files } => files.len() <= u64::MAX && forall|i: int|
                0 <= i < files.len() ==> encode_utf8(#[trigger] files[i]).len() <= u64::MAX,
            ResponseView::GetFileData { data, .. } => data.len() <= u64::MAX,
            ResponseView::CreateFile { result } => result matches Err(message) ==> encode_utf8(
                message,
            ).len() <= u64::MAX,
            ResponseView::AppendFile { result } => result matches Err(message) ==> encode_utf8(
                message,
            ).len() <= u64::MAX,
        }
    }

    /// The history that a client holds after it has taken this response in
    /// as a journal: the revisions of the container that a `GetFileData`
    /// response carries. Any other response is `InvalidData`.
    pub open spec fn as_journal(self) -> Result<Seq<RevisionView>, Error> {
        match self {
            ResponseView::GetFileData { data, .. } => spec_append(Seq::empty(), data),
            _ => Err(Error::InvalidData),
        }
    }
}

/// The request at the front of `s`. A message id that names no request is
/// `InvalidData`.
pub open spec fn spec_read_request(s: Seq<u8>) -> Decoded<RequestView> {
    match spec_read_u8(s) {
        Err(e) => Err(e),
        Ok((id, s0)) => if id == DISCONNECT {
            Ok((RequestView::Disconnect, s0))
        } else if id == LIST_FILES {
            match spec_read_string(s0) {
                Err(e) => Err(e),
                Ok((path, rest)) => Ok((RequestView::ListFiles { path }, rest)),
            }
        } else if id == GET_FILE_DATA {
            match spec_read_varint(s0) {
                Err(e) => Err(e),
                Ok((from, s1)) => match spec_read_string(s1) {
                    Err(e) => Err(e),
                    Ok((path, rest)) => Ok((RequestView::GetFileData { from, path }, rest)),
                },
            }
        } else if id == CREATE_FILE {
            match spec_read_string(s0) {
                Err(e) => Err(e),
                Ok((path, rest)) => Ok((RequestView::CreateFile { path }, rest)),
            }
        } else if id == APPEND_FILE {
            match spec_read_varint(s0) {
                Err(e) => Err(e),
                Ok((from, s1)) => match spec_read_varint(s1) {
                    Err(e) => Err(e),
                    Ok((to, s2)) => match spec_read_string(s2) {
                        Err(e) => Err(e),
                        Ok((path, s3)) => match spec_read_bytes(s3) {
                            Err(e) => Err(e),
                            Ok((data, rest)) => Ok(
                                (RequestView::AppendFile { from, to, path, data }, rest),
                            ),
                        },
                    },
                },
            }
        } else {
            Err(Error::InvalidData)
        },
    }
}

/// The response at the front of `s`. A message id that names no response
/// is `InvalidData`.
pub open spec fn spec_read_response(s: Seq<u8>) -> Decoded<ResponseView> {
    match spec_read_u8(s) {
        Err(e) => Err(e),
        Ok((id, s0)) => if id == LIST_FILES {
            match spec_read_array(string_reader(), s0) {
                Err(e) => Err(e),
                Ok((files, rest)) => Ok((ResponseView::ListFiles { files }, rest)),
            }
        } else if id == GET_FILE_DATA {
            match spec_read_varint(s0) {
                Err(e) => Err(e),
                Ok((from, s1)) => match spec_read_varint(s1) {
                    Err(e) => Err(e),
                    Ok((to, s2)) => match spec_read_bytes(s2) {
                        Err(e) => Err(e),
                        Ok((data, rest)) => Ok((ResponseView::GetFileData { from, to, data }, rest)),
                    },
                },
            }
        } else if id == CREATE_FILE {
            match spec_read_outcome(s0) {
                Err(e) => Err(e),
                Ok((result, rest)) => Ok((ResponseView::CreateFile { result }, rest)),
            }
        } else if id == APPEND_FILE {
            match spec_read_outcome(s0) {
                Err(e) => Err(e),
                Ok((result, rest)) => Ok((ResponseView::AppendFile { result }, rest)),
            }
        } else {
            Err(Error::InvalidData)
        },
    }
}

proof fn lemma_outcome_roundtrip(result: Result<(), Seq<char>>, tail: Seq<u8>)
    requires
        result matches Err(message) ==> encode_utf8(message).len() <= u64::MAX,
    ensures
        spec_read_outcome(encode_outcome(result) + tail) == Ok::<_, Error>((result, tail)),
{
    let s = encode_outcome(result) + tail;
    match result {
        Ok(unit) => {
            assert(s[0] == 0u8);
            assert(s.skip(1) =~= tail);
            assert(unit == ());
        },
        Err(message) => {
            assert(s[0] == 1u8);
            assert(s.skip(1) =~= encode_string(message) + tail);
            lemma_string_roundtrip(message, tail);
        },
    }
}

/// A request that is read back from what was written is the request that
/// was written.
pub proof fn lemma_request_roundtrip(request: RequestView, tail: Seq<u8>)
    requires
        request.encodable(),
    ensures
        spec_read_request(request.encode() + tail) == Ok::<_, Error>((request, tail)),
{
    let s = request.encode() + tail;
    let s0 = s.skip(1);
    assert(s[0] == request.message_id());
    match request {
        RequestView::Disconnect => {
            assert(s0 =~= tail);
        },
        RequestView::ListFiles { path } => {
            assert(s0 =~= encode_string(path) + tail);
            lemma_string_roundtrip(path, tail);
        },
        RequestView::CreateFile { path } => {
            assert(s0 =~= encode_string(path) + tail);
            lemma_string_roundtrip(path, tail);
        },
        RequestView::GetFileData { from, path } => {
            let s1 = encode_string(path) + tail;
            assert(s0 =~= encode_varint(from as nat) + s1);
            lemma_varint_roundtrip(from, s1);
            lemma_string_roundtrip(path, tail);
        },
        RequestView::AppendFile { from, to, path, data } => {
            let s3 = encode_bytes(data) + tail;
            let s2 = encode_string(path) + s3;
            let s1 = encode_varint(to as nat) + s2;
            assert(s0 =~= encode_varint(from as nat) + s1);
            lemma_varint_roundtrip(from, s1);
            lemma_varint_roundtrip(to, s2);
            lemma_string_roundtrip(path, s3);
            lemma_bytes_roundtrip(data, tail);
        },
    }
}

/// A response that is read back from what was written is the response that
/// was written.
pub proof fn lemma_response_roundtrip(response: ResponseView, tail: Seq<u8>)
    requires
        response.encodable(),
    ensures
        spec_read_response(response.encode() + tail) == Ok::<_, Error>((response, tail)),
{
    let s = response.encode() + tail;
    let s0 = s.skip(1);
    assert(s[0] == response.message_id());
    match response {
        ResponseView::ListFiles { files } => {
            assert(s0 =~= encode_array(string_writer(), files) + tail);
            lemma_string_array_roundtrip(files, tail);
        },
        ResponseView::GetFileData { from, to, data } => {
            let s2 = encode_bytes(data) + tail;
            let s1 = encode_varint(to as nat) + s2;
            assert(s0 =~= encode_varint(from as nat) + s1);
            lemma_varint_roundtrip(from, s1);
            lemma_varint_roundtrip(to, s2);
            lemma_bytes_roundtrip(data, tail);
        },
        ResponseView::CreateFile { result } => {
            assert(s0 =~= encode_outcome(result) + tail);
            lemma_outcome_roundtrip(result, tail);
        },
        ResponseView::AppendFile { result } => {
            assert(s0 =~= encode_outcome(result) + tail);
            lemma_outcome_roundtrip(result, tail);
        },
    }
}

/// What a decoder of outcomes returned, against what the format prescribes.
pub open spec fn yields_outcome(
    res: Result<(Result<(), String>, &[u8]), Error>,
    expected: Decoded<Result<(), Seq<char>>>,
) -> bool {
    match res {
        Ok((result, rest)) => expected == Ok::<_, Error>((outcome_view(result), rest@)),
        Err(e) => expected == Err::<(Result<(), Seq<char>>, Seq<u8>), Error>(e),
    }
}

fn read_outcome<'a>(bytes: &'a [u8]) -> (res: Result<(Result<(), String>, &'a [u8]), Error>)
    ensures
        yields_outcome(res, spec_read_outcome(bytes@)),
{
    let (flag, rest) = read_u8(bytes)?;
    if flag == 0 {
        Ok((Ok(()), rest))
    } else {
        let (message, rest) = read_string(rest)?;
        Ok((Err(message), rest))
    }
}

fn write_outcome(w: &mut Vec<u8>, result: &Result<(), String>)
    ensures
        final(w)@ == old(w)@ + encode_outcome(outcome_view(*result)),
{
    match result {
        Err(message) => {
            write_u8(w, 1);
            write_string(w, message.as_str());
        },
        Ok(_) => {
            write_u8(w, 0);
        },
    }
    proof {
        assert(w@ =~= old(w)@ + encode_outcome(outcome_view(*result)));
    }
}

impl NetworkRequest {
    /// The byte that announces the request on the wire.
    pub fn message_id(&self) -> (id: u8)
        ensures
            id == self@.message_id(),
    {
        match self {
            NetworkRequest::Disconnect => DISCONNECT,
            NetworkRequest::ListFiles { .. } => LIST_FILES,
            NetworkRequest::GetFileData { .. } => GET_FILE_DATA,
            NetworkRequest::CreateFile { .. } => CREATE_FILE,
            NetworkRequest::AppendFile { .. } => APPEND_FILE,
        }
    }

    /// Reads one request from the front of `bytes`.
    pub fn read<'a>(bytes: &'a [u8]) -> (res: Result<(NetworkRequest, &'a [u8]), Error>)
        ensures
            yields(res, spec_read_request(bytes@)),
    {
        let (message_id, rest) = read_u8(bytes)?;
        if message_id == DISCONNECT {
            Ok((NetworkRequest::Disconnect, rest))
        } else if message_id == LIST_FILES {
            let (path, rest) = read_string(rest)?;
            Ok((NetworkRequest::ListFiles { path }, rest))
        } else if message_id == GET_FILE_DATA {
            let (from, rest) = read_varint(rest)?;
            let (path, rest) = read_string(rest)?;
            Ok((NetworkRequest::GetFileData { from, path }, rest))
        } else if message_id == CREATE_FILE {
            let (path, rest) = read_string(rest)?;
            Ok((NetworkRequest::CreateFile { path }, rest))
        } else if message_id == APPEND_FILE {
            let (from, rest) = read_varint(rest)?;
            let (to, rest) = read_varint(rest)?;
            let (path, rest) = read_string(rest)?;
            let (data, rest) = read_bytes(rest)?;
            proof {
                assert(data.deep_view() =~= data@);
            }
            Ok((NetworkRequest::AppendFile { from, to, path, data }, rest))
        } else {
            Err(Error::InvalidData)
        }
    }

    /// Appends the request as it goes over the wire.
    pub fn write(&self, w: &mut Vec<u8>)
        ensures
            final(w)@ == old(w)@ + self@.encode(),
    {
        write_u8(w, self.message_id());
        match self {
            NetworkRequest::Disconnect => {},
            NetworkRequest::ListFiles { path } => {
                write_string(w, path.as_str());
            },
            NetworkRequest::GetFileData { from, path } => {
                write_varint(w, *from);
                write_string(w, path.as_str());
            },
            NetworkRequest::CreateFile { path } => {
                write_string(w, path.as_str());
            },
            NetworkRequest::AppendFile { from, to, path, data } => {
                write_varint(w, *from);
                write_varint(w, *to);
                write_string(w, path.as_str());
                write_bytes(w, data.as_slice());
            },
        }
        proof {
            assert(w@ =~= old(w)@ + self@.encode());
        }
    }
}

impl NetworkResponse {
    /// The byte that announces the response on the wire.
    pub fn message_id(&self) -> (id: u8)
        ensures
            id == self@.message_id(),
    {
        match self {
            NetworkResponse::ListFiles { .. } => LIST_FILES,
            NetworkResponse::GetFileData { .. } => GET_FILE_DATA,
            NetworkResponse::CreateFile { .. } => CREATE_FILE,
            NetworkResponse::AppendFile { .. } => APPEND_FILE,
        }
    }

    /// Reads one response from the front of `bytes`.
    pub fn read<'a>(bytes: &'a [u8]) -> (res: Result<(NetworkResponse, &'a [u8]), Error>)
        ensures
            yields(res, spec_read_response(bytes@)),
    {
        let (message_id, rest) = read_u8(bytes)?;
        if message_id == LIST_FILES {
            let (files, rest) = read_string_array(rest)?;
            Ok((NetworkResponse::ListFiles { files }, rest))
        } else if message_id == GET_FILE_DATA {
            let (from, rest) = read_varint(rest)?;
            let (to, rest) = read_varint(rest)?;
            let (data, rest) = read_bytes(rest)?;
            proof {
                assert(data.deep_view() =~= data@);
            }
            Ok((NetworkResponse::GetFileData { from, to, data }, rest))
        } else if message_id == CREATE_FILE {
            let (result, rest) = read_outcome(rest)?;
            Ok((NetworkResponse::CreateFile { result }, rest))
        } else if message_id == APPEND_FILE {
            let (result, rest) = read_outcome(rest)?;
            Ok((NetworkResponse::AppendFile { result }, rest))
        } else {
            Err(Error::InvalidData)
        }
    }

    /// Appends the response as it goes over the wire.
    pub fn write(&self, w: &mut Vec<u8>)
        ensures
            final(w)@ == old(w)@ + self@.encode(),
    {
        write_u8(w, self.message_id());
        match self {
            NetworkResponse::ListFiles { files } => {
                write_string_array(w, files);
            },
            NetworkResponse::GetFileData { from, to, data } => {
                write_varint(w, *from);
                write_varint(w, *to);
                write_bytes(w, data.as_slice());
            },
            NetworkResponse::CreateFile { result } => {
                write_outcome(w, result);
            },
            NetworkResponse::AppendFile { result } => {
                write_outcome(w, result);
            },
        }
        proof {
            assert(w@ =~= old(w)@ + self@.encode());
        }
    }

    /// Turns the slice of history that a `GetFileData` response carries
    /// into a journal.
    pub fn as_journal(&self) -> (res: Result<Journal, Error>)
        ensures
            match self@.as_journal() {
                Ok(revisions) => res matches Ok(journal) && journal@ == revisions,
                Err(e) => res matches Err(f) && f == e,
            },
    {
        match self {
            NetworkResponse::GetFileData { data, .. } => {
                let mut repo = Repository::new();
                repo.append(data.as_slice())?;
                Ok(repo)
            },
            _ => Err(Error::InvalidData),
        }
    }
}

} // verus!
