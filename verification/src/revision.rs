//! Revisions: an ordered batch of changes with its provenance.

use crate::change::{lemma_change_roundtrip, spec_read_change, Change, ChangeView};
use crate::error::Error;
use crate::readwrite::{
    encode_array, encode_many, encode_string, encode_u32, encode_uuid, inverts,
    lemma_array_roundtrip, lemma_read_many_error, lemma_string_array_roundtrip,
    lemma_string_roundtrip, lemma_u32_roundtrip, lemma_uuid_array_roundtrip, lemma_uuid_roundtrip,
    read_string, read_string_array, read_u32, read_uuid, read_uuid_array, read_varint,
    spec_read_array, spec_read_many, spec_read_string, spec_read_u32, spec_read_uuid,
    spec_read_varint, string_reader, string_writer, uuid_reader, uuid_writer, write_string,
    write_string_array, write_u32, write_uuid, write_uuid_array, write_varint, yields, Decoded,
    UUID_LEN,
};
use vstd::prelude::*;
use vstd::utf8::encode_utf8;

verus! {

/// A committed or pending batch of changes.
#[derive(Debug, Clone, PartialEq, Eq)]
pub struct Revision {
    pub changes: Vec<Change>,
    /// The identity of the revision: 128 random bits.
    pub id: [u8; 16],
    /// The revisions that this one follows. Reserved for histories with
    /// more than one line; a linear history leaves it empty.
    pub uuid_of_parents: Vec<[u8; 16]>,
    /// When the revision was begun, as an ISO 8601 date and time.
    pub date: String,
    pub user_name: String,
    pub message: String,
    pub tags: Vec<String>,
}

/// What a revision is.
pub struct RevisionView {
    pub changes: Seq<ChangeView>,
    pub id: Seq<u8>,
    pub uuid_of_parents: Seq<Seq<u8>>,
    pub date: Seq<char>,
    pub user_name: Seq<char>,
    pub message: Seq<char>,
    pub tags: Seq<Seq<char>>,
}

impl View for Revision {
    type V = RevisionView;

    open spec fn view(&self) -> RevisionView {
        RevisionView {
            changes: self.changes.deep_view(),
            id: self.id@,
            uuid_of_parents: self.uuid_of_parents.deep_view(),
            date: self.date@,
            user_name: self.user_name@,
            message: self.message@,
            tags: self.tags.deep_view(),
        }
    }
}

impl DeepView for Revision {
    type V = RevisionView;

    open spec fn deep_view(&self) -> RevisionView {
        self@
    }
}

/// The decoder of one framed change, as a value.
pub open spec fn change_reader() -> spec_fn(Seq<u8>) -> Decoded<ChangeView> {
    |s: Seq<u8>| spec_read_change(s)
}

/// The encoder of one framed change, as a value.
pub open spec fn change_writer() -> spec_fn(ChangeView) -> Seq<u8> {
    |c: ChangeView| c.encode()
}

impl RevisionView {
    /// A revision without changes, parents, message and tags.
    pub open spec fn blank(id: Seq<u8>, date: Seq<char>, user_name: Seq<char>) -> RevisionView {
        RevisionView {
            changes: Seq::empty(),
            id,
            uuid_of_parents: Seq::empty(),
            date,
            user_name,
            message: Seq::empty(),
            tags: Seq::empty(),
        }
    }

    /// The revision with its list of changes replaced.
    pub open spec fn with_changes(self, changes: Seq<ChangeView>) -> RevisionView {
        RevisionView { changes, ..self }
    }

    /// The record: the magic tag, the identity, the parents, date, author,
    /// message and tags, then the counted list of framed changes.
    pub open spec fn encode(self) -> Seq<u8> {
        encode_u32(Revision::CHANGE_LIST_ID) + encode_uuid(self.id) + encode_array(
            uuid_writer(),
            self.uuid_of_parents,
        ) + encode_string(self.date) + encode_string(self.user_name) + encode_string(self.message)
            + encode_array(string_writer(), self.tags) + encode_array(
            change_writer(),
            self.changes,
        )
    }

    /// True when the record can be written and read back: identifiers have
    /// sixteen bytes, every change can be written, and every length fits the
    /// 64 bits that the format gives it.
    pub open spec fn encodable(self) -> bool {
        &&& self.id.len() == UUID_LEN
        &&& self.uuid_of_parents.len() <= u64::MAX
        &&& forall|i: int|
            0 <= i < self.uuid_of_parents.len() ==> (#[trigger] self.uuid_of_parents[i]).len()
                == UUID_LEN
        &&& encode_utf8(self.date).len() <= u64::MAX
        &&& encode_utf8(self.user_name).len() <= u64::MAX
        &&& encode_utf8(self.message).len() <= u64::MAX
        &&& self.tags.len() <= u64::MAX
        &&& forall|i: int|
            0 <= i < self.tags.len() ==> encode_utf8(#[trigger] self.tags[i]).len() <= u64::MAX
        &&& self.changes.len() <= u64::MAX
        &&& forall|i: int| 0 <= i < self.changes.len() ==> (#[trigger] self.changes[i]).encodable()
    }
}

/// The revision at the front of `s`. A record that does not begin with the
/// magic tag is `InvalidData`.
pub open spec fn spec_read_revision(s: Seq<u8>) -> Decoded<RevisionView> {
    match spec_read_u32(s) {
        Err(e) => Err(e),
        Ok((magic, s0)) => if magic != Revision::CHANGE_LIST_ID {
            Err(Error::InvalidData)
        } else {
            match spec_read_uuid(s0) {
                Err(e) => Err(e),
                Ok((id, s1)) => match spec_read_array(uuid_reader(), s1) {
                    Err(e) => Err(e),
                    Ok((uuid_of_parents, s2)) => match spec_read_string(s2) {
                        Err(e) => Err(e),
                        Ok((date, s3)) => match spec_read_string(s3) {
                            Err(e) => Err(e),
                            Ok((user_name, s4)) => match spec_read_string(s4) {
                                Err(e) => Err(e),
                                Ok((message, s5)) => match spec_read_array(string_reader(), s5) {
                                    Err(e) => Err(e),
                                    Ok((tags, s6)) => match spec_read_array(change_reader(), s6) {
                                        Err(e) => Err(e),
                                        Ok((changes, rest)) => Ok(
                                            (
                                                RevisionView {
                                                    changes,
                                                    id,
                                                    uuid_of_parents,
                                                    date,
                                                    user_name,
                                                    message,
                                                    tags,
                                                },
                                                rest,
                                            ),
                                        ),
                                    },
                                },
                            },
                        },
                    },
                },
            }
        },
    }
}

/// A counted list of framed changes survives writing and reading.
pub proof fn lemma_change_array_roundtrip(changes: Seq<ChangeView>, tail: Seq<u8>)
    requires
        changes.len() <= u64::MAX,
        forall|i: int| 0 <= i < changes.len() ==> (#[trigger] changes[i]).encodable(),
    ensures
        spec_read_array(change_reader(), encode_array(change_writer(), changes) + tail) == Ok::<
            _,
            Error,
        >((changes, tail)),
{
    assert forall|i: int| 0 <= i < changes.len() implies inverts(
        change_reader(),
        change_writer(),
        #[trigger] changes[i],
    ) by {
        assert forall|t: Seq<u8>| #[trigger]
            change_reader()(change_writer()(changes[i]) + t) == Ok::<_, Error>((changes[i], t)) by {
            lemma_change_roundtrip(changes[i], t);
        }
    }
    lemma_array_roundtrip(change_reader(), change_writer(), changes, tail);
}

/// Concatenation does not care how it is bracketed.
proof fn lemma_concat_assoc(a: Seq<u8>, b: Seq<u8>, c: Seq<u8>)
    ensures
        (a + b) + c == a + (b + c),
{
    assert((a + b) + c =~= a + (b + c));
}

/// The record of a revision followed by `tail`, field by field.
proof fn lemma_revision_fields(revision: RevisionView, tail: Seq<u8>)
    ensures
        revision.encode() + tail == encode_u32(Revision::CHANGE_LIST_ID) + (encode_uuid(
            revision.id,
        ) + (encode_array(uuid_writer(), revision.uuid_of_parents) + (encode_string(revision.date)
            + (encode_string(revision.user_name) + (encode_string(revision.message) + (
        encode_array(string_writer(), revision.tags) + (encode_array(
            change_writer(),
            revision.changes,
        ) + tail))))))),
{
    let e0 = encode_u32(Revision::CHANGE_LIST_ID);
    let e1 = encode_uuid(revision.id);
    let e2 = encode_array(uuid_writer(), revision.uuid_of_parents);
    let e3 = encode_string(revision.date);
    let e4 = encode_string(revision.user_name);
    let e5 = encode_string(revision.message);
    let e6 = encode_array(string_writer(), revision.tags);
    let e7 = encode_array(change_writer(), revision.changes);
    let t6 = e7 + tail;
    let t5 = e6 + t6;
    let t4 = e5 + t5;
    let t3 = e4 + t4;
    let t2 = e3 + t3;
    let t1 = e2 + t2;
    let p1 = e0 + e1;
    let p2 = p1 + e2;
    let p3 = p2 + e3;
    let p4 = p3 + e4;
    let p5 = p4 + e5;
    let p6 = p5 + e6;
    lemma_concat_assoc(p6, e7, tail);
    lemma_concat_assoc(p5, e6, t6);
    lemma_concat_assoc(p4, e5, t5);
    lemma_concat_assoc(p3, e4, t4);
    lemma_concat_assoc(p2, e3, t3);
    lemma_concat_assoc(p1, e2, t2);
    lemma_concat_assoc(e0, e1, t1);
}

/// Reading a revision that was written gives the revision back and leaves
/// what followed it.
pub proof fn lemma_revision_roundtrip(revision: RevisionView, tail: Seq<u8>)
    requires
        revision.encodable(),
    ensures
        spec_read_revision(revision.encode() + tail) == Ok::<_, Error>((revision, tail)),
{
    let t6 = encode_array(change_writer(), revision.changes) + tail;
    let t5 = encode_array(string_writer(), revision.tags) + t6;
    let t4 = encode_string(revision.message) + t5;
    let t3 = encode_string(revision.user_name) + t4;
    let t2 = encode_string(revision.date) + t3;
    let t1 = encode_array(uuid_writer(), revision.uuid_of_parents) + t2;
    let t0 = encode_uuid(revision.id) + t1;
    let all = encode_u32(Revision::CHANGE_LIST_ID) + t0;
    assert(revision.encode() + tail == all) by {
        lemma_revision_fields(revision, tail);
    }
    assert(spec_read_u32(all) == Ok::<_, Error>((Revision::CHANGE_LIST_ID, t0))) by {
        lemma_u32_roundtrip(Revision::CHANGE_LIST_ID, t0);
    }
    assert(spec_read_uuid(t0) == Ok::<_, Error>((revision.id, t1))) by {
        lemma_uuid_roundtrip(revision.id, t1);
    }
    assert(spec_read_array(uuid_reader(), t1) == Ok::<_, Error>((revision.uuid_of_parents, t2)))
        by {
        lemma_uuid_array_roundtrip(revision.uuid_of_parents, t2);
    }
    assert(spec_read_string(t2) == Ok::<_, Error>((revision.date, t3))) by {
        lemma_string_roundtrip(revision.date, t3);
    }
    assert(spec_read_string(t3) == Ok::<_, Error>((revision.user_name, t4))) by {
        lemma_string_roundtrip(revision.user_name, t4);
    }
    assert(spec_read_string(t4) == Ok::<_, Error>((revision.message, t5))) by {
        lemma_string_roundtrip(revision.message, t5);
    }
    assert(spec_read_array(string_reader(), t5) == Ok::<_, Error>((revision.tags, t6))) by {
        lemma_string_array_roundtrip(revision.tags, t6);
    }
    assert(spec_read_array(change_reader(), t6) == Ok::<_, Error>((revision.changes, tail))) by {
        lemma_change_array_roundtrip(revision.changes, tail);
    }
}

/// Appends a counted list of framed changes.
pub fn write_changes(w: &mut Vec<u8>, changes: &Vec<Change>)
    ensures
        final(w)@ == old(w)@ + encode_array(change_writer(), changes.deep_view()),
{
    write_varint(w, changes.len() as u64);
    let ghost start = w@;
    let mut i: usize = 0;
    while i < changes.len()
        invariant
            i <= changes@.len(),
            w@ == start + encode_many(change_writer(), changes.deep_view().take(i as int)),
        decreases changes@.len() - i,
    {
        changes[i].encode(w);
        proof {
            let done = changes.deep_view().take(i + 1);
            assert(done.drop_last() =~= changes.deep_view().take(i as int));
            assert(done.last() == changes[i as int]@);
            assert(w@ =~= start + encode_many(change_writer(), done));
        }
        i = i + 1;
    }
    proof {
        assert(changes.deep_view().take(i as int) =~= changes.deep_view());
        assert(w@ =~= old(w)@ + encode_array(change_writer(), changes.deep_view()));
    }
}

/// Reads a counted list of framed changes.
pub fn read_changes<'a>(bytes: &'a [u8]) -> (res: Result<(Vec<Change>, &'a [u8]), Error>)
    ensures
        yields(res, spec_read_array(change_reader(), bytes@)),
{
    let (count, start) = read_varint(bytes)?;
    let mut rest = start;
    let mut changes: Vec<Change> = Vec::new();
    let mut i: u64 = 0;
    proof {
        assert(changes.deep_view() =~= Seq::<ChangeView>::empty());
    }
    while i < count
        invariant
            i <= count,
            spec_read_varint(bytes@) == Ok::<_, Error>((count, start@)),
            spec_read_many(change_reader(), start@, i as nat) == Ok::<_, Error>(
                (changes.deep_view(), rest@),
            ),
        decreases count - i,
    {
        let ghost before = changes.deep_view();
        match Change::read(rest) {
            Ok((change, after)) => {
                changes.push(change);
                rest = after;
                proof {
                    assert(changes.deep_view() =~= before.push(change.deep_view()));
                }
            },
            Err(e) => {
                proof {
                    lemma_read_many_error(change_reader(), start@, (i + 1) as nat, count as nat);
                }
                return Err(e);
            },
        }
        i = i + 1;
    }
    Ok((changes, rest))
}

/// `uuid::Uuid::new_v4` followed by `Uuid::into_bytes`: sixteen bytes from
/// the random source of the system, with the version set to four and the
/// variant to that of RFC 9562. Which bytes come is not determined. The call
/// does not return when the system has no random bytes to give.
#[verifier::external_body]
fn fresh_id() -> (id: [u8; 16])
    ensures
        id@[6] / 16 == 4,
        id@[8] / 64 == 2,
{
    uuid::Uuid::new_v4().into_bytes()
}

/// `chrono::Utc::now` followed by `DateTime::to_rfc3339`: the time of the
/// call as text. Nothing is claimed of the text. The call does not return
/// when the clock of the system stands before 1970.
#[verifier::external_body]
fn current_date() -> (date: String) {
    chrono::Utc::now().to_rfc3339()
}

/// `whoami::username`: the name of the user who runs the process, or a
/// stand-in where the system does not tell. Nothing is claimed of the text.
#[verifier::external_body]
fn current_user() -> (user_name: String) {
    whoami::username()
}

impl Default for Revision {
    /// The blank revision under the nil identifier, without date and author.
    fn default() -> (revision: Revision)
        ensures
            revision@ == RevisionView::blank(
                Seq::new(UUID_LEN as nat, |i: int| 0u8),
                Seq::empty(),
                Seq::empty(),
            ),
    {
        let id = [0u8;16];
        proof {
            assert(id@ =~= Seq::new(UUID_LEN as nat, |i: int| 0u8));
        }
        Revision::with_provenance(id, String::new(), String::new())
    }
}

impl Revision {
    /// The magic tag that opens every revision record: the letters `Chng`.
    pub const CHANGE_LIST_ID: u32 = 0x43686E67;

    /// True for identifiers of the form that `new` draws: random bits under
    /// version four.
    pub open spec fn is_random_id(id: Seq<u8>) -> bool {
        &&& id.len() == UUID_LEN
        &&& id[6] / 16 == 4
        &&& id[8] / 64 == 2
    }

    /// A revision without changes, with a new random identity, the current
    /// time and the current user.
    pub fn new() -> (revision: Revision)
        ensures
            revision@ == RevisionView::blank(
                revision@.id,
                revision@.date,
                revision@.user_name,
            ),
            Self::is_random_id(revision@.id),
    {
        Revision::with_provenance(fresh_id(), current_date(), current_user())
    }

    /// A revision without changes, with the identity, date and author given.
    pub fn with_provenance(id: [u8; 16], date: String, user_name: String) -> (revision: Revision)
        ensures
            revision@ == RevisionView::blank(id@, date@, user_name@),
    {
        let revision = Revision {
            changes: Vec::new(),
            id,
            uuid_of_parents: Vec::new(),
            date,
            user_name,
            message: String::new(),
            tags: Vec::new(),
        };
        proof {
            assert(revision@.changes =~= Seq::<ChangeView>::empty());
            assert(revision@.uuid_of_parents =~= Seq::<Seq<u8>>::empty());
            assert(revision@.tags =~= Seq::<Seq<char>>::empty());
        }
        revision
    }

    /// Appends `change` to the revision.
    pub fn add_change(&mut self, change: Change)
        ensures
            final(self)@ == old(self)@.with_changes(old(self)@.changes.push(change@)),
    {
        self.changes.push(change);
        proof {
            assert(self@.changes =~= old(self)@.changes.push(change@));
        }
    }

    /// Appends the record of the revision.
    pub fn write(&self, w: &mut Vec<u8>)
        ensures
            final(w)@ == old(w)@ + self@.encode(),
    {
        write_u32(w, Self::CHANGE_LIST_ID);
        write_uuid(w, &self.id);
        write_uuid_array(w, &self.uuid_of_parents);
        write_string(w, self.date.as_str());
        write_string(w, self.user_name.as_str());
        write_string(w, self.message.as_str());
        write_string_array(w, &self.tags);
        write_changes(w, &self.changes);
        proof {
            assert(w@ =~= old(w)@ + self@.encode());
        }
    }

    /// Reads one revision from the front of `bytes`.
    pub fn read<'a>(bytes: &'a [u8]) -> (res: Result<(Revision, &'a [u8]), Error>)
        ensures
            yields(res, spec_read_revision(bytes@)),
    {
        let (magic, rest) = read_u32(bytes)?;
        if magic != Self::CHANGE_LIST_ID {
            return Err(Error::InvalidData);
        }
        let (id, rest) = read_uuid(rest)?;
        let (uuid_of_parents, rest) = read_uuid_array(rest)?;
        let (date, rest) = read_string(rest)?;
        let (user_name, rest) = read_string(rest)?;
        let (message, rest) = read_string(rest)?;
        let (tags, rest) = read_string_array(rest)?;
        let (changes, rest) = read_changes(rest)?;
        let revision = Revision { changes, id, uuid_of_parents, date, user_name, message, tags };
        proof {
            assert(id.deep_view() =~= id@);
        }
        Ok((revision, rest))
    }
}

} // verus!
