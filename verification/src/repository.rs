//! The repository: the ordered, append-only sequence of committed
//! revisions, and its binary container. A journal is the same structure,
//! used to hold a slice of a history on its way between two repositories.

use crate::error::Error;
use crate::readwrite::{
    encode_array, encode_many, inverts, lemma_array_roundtrip, lemma_read_many_error,
    read_varint, spec_read_array, spec_read_many, spec_read_varint, write_varint, yields, Decoded,
};
use crate::revision::{lemma_revision_roundtrip, spec_read_revision, Revision, RevisionView};
use vstd::prelude::*;

verus! {

/// The committed history of a document.
#[derive(Debug, Clone, PartialEq, Eq)]
pub struct Repository {
    pub revisions: Vec<Revision>,
}

/// A slice of a history.
pub type Journal = Repository;

impl View for Repository {
    type V = Seq<RevisionView>;

    open spec fn view(&self) -> Seq<RevisionView> {
        self.revisions.deep_view()
    }
}

impl DeepView for Repository {
    type V = Seq<RevisionView>;

    open spec fn deep_view(&self) -> Seq<RevisionView> {
        self@
    }
}

/// The decoder of one revision, as a value.
pub open spec fn revision_reader() -> spec_fn(Seq<u8>) -> Decoded<RevisionView> {
    |s: Seq<u8>| spec_read_revision(s)
}

/// The encoder of one revision, as a value.
pub open spec fn revision_writer() -> spec_fn(RevisionView) -> Seq<u8> {
    |r: RevisionView| r.encode()
}

/// The container: the number of revisions, then the revisions.
pub open spec fn encode_revisions(revisions: Seq<RevisionView>) -> Seq<u8> {
    encode_array(revision_writer(), revisions)
}

/// The sequence of revisions at the front of `s`.
pub open spec fn spec_read_revisions(s: Seq<u8>) -> Decoded<Seq<RevisionView>> {
    spec_read_array(revision_reader(), s)
}

/// True when the sequence can be written and read back.
pub open spec fn revisions_encodable(revisions: Seq<RevisionView>) -> bool {
    &&& revisions.len() <= u64::MAX
    &&& forall|i: int| 0 <= i < revisions.len() ==> (#[trigger] revisions[i]).encodable()
}

/// The history after the bytes of a container have been appended to it: the
/// revisions that the bytes hold follow those that were there.
pub open spec fn spec_append(revisions: Seq<RevisionView>, data: Seq<u8>) -> Result<
    Seq<RevisionView>,
    Error,
> {
    match spec_read_revisions(data) {
        Err(e) => Err(e),
        Ok((more, _)) => Ok(revisions + more),
    }
}

/// The answer to a reader that holds the first `from` revisions: the two
/// ends of the range that it lacks and the container of that range. A
/// reader that claims more than there is gets `NotFound`.
pub open spec fn spec_read_range(revisions: Seq<RevisionView>, from: u64) -> Result<
    (u64, u64, Seq<u8>),
    Error,
> {
    if from > revisions.len() {
        Err(Error::NotFound)
    } else {
        Ok(
            (
                from,
                revisions.len() as u64,
                encode_revisions(revisions.subrange(from as int, revisions.len() as int)),
            ),
        )
    }
}

/// The history after a writer that holds the first `from` revisions has
/// sent the range up to `to`. The append is fenced: unless the history has
/// exactly `from` revisions, it is a `Conflict`. Bytes that are no container
/// are refused with the decoder's error, and a container that does not hold
/// `to - from` revisions is `InvalidData`.
pub open spec fn spec_append_range(
    revisions: Seq<RevisionView>,
    from: u64,
    to: u64,
    data: Seq<u8>,
) -> Result<Seq<RevisionView>, Error> {
    if from != revisions.len() {
        Err(Error::Conflict)
    } else {
        match spec_read_revisions(data) {
            Err(e) => Err(e),
            Ok((more, _)) => if from + more.len() == to {
                Ok(revisions + more)
            } else {
                Err(Error::InvalidData)
            },
        }
    }
}

/// Reading a container that was written gives the revisions back and leaves
/// what followed it.
pub proof fn lemma_revisions_roundtrip(revisions: Seq<RevisionView>, tail: Seq<u8>)
    requires
        revisions_encodable(revisions),
    ensures
        spec_read_revisions(encode_revisions(revisions) + tail) == Ok::<_, Error>(
            (revisions, tail),
        ),
{
    assert forall|i: int| 0 <= i < revisions.len() implies inverts(
        revision_reader(),
        revision_writer(),
        #[trigger] revisions[i],
    ) by {
        assert forall|t: Seq<u8>| #[trigger]
            revision_reader()(revision_writer()(revisions[i]) + t) == Ok::<_, Error>(
                (revisions[i], t),
            ) by {
            lemma_revision_roundtrip(revisions[i], t);
        }
    }
    lemma_array_roundtrip(revision_reader(), revision_writer(), revisions, tail);
}

/// The fence: an append that starts anywhere but at the end of the history
/// is a conflict, whatever it carries.
pub proof fn lemma_append_fence(revisions: Seq<RevisionView>, from: u64, to: u64, data: Seq<u8>)
    requires
        from != revisions.len(),
    ensures
        spec_append_range(revisions, from, to, data) == Err::<Seq<RevisionView>, Error>(
            Error::Conflict,
        ),
{
}

/// A reader that asks from where it stands gets exactly what it lacks:
/// appending the answer to what it holds gives the whole history.
pub proof fn lemma_range_completes(revisions: Seq<RevisionView>, from: u64)
    requires
        revisions_encodable(revisions),
        from <= revisions.len(),
    ensures
        spec_read_range(revisions, from) matches Ok((start, end, data)) && start == from && end
            == revisions.len() && spec_append_range(
            revisions.subrange(0, from as int),
            start,
            end,
            data,
        ) == Ok::<_, Error>(revisions),
{
    let held = revisions.subrange(0, from as int);
    let missing = revisions.subrange(from as int, revisions.len() as int);
    assert(revisions_encodable(missing)) by {
        assert forall|i: int| 0 <= i < missing.len() implies (#[trigger] missing[i]).encodable() by {
            assert(missing[i] == revisions[from + i]);
        }
    }
    lemma_revisions_roundtrip(missing, Seq::empty());
    assert(encode_revisions(missing) + Seq::<u8>::empty() =~= encode_revisions(missing));
    assert(held + missing =~= revisions);
}

/// The revisions of `revisions` from index `start` on; none where `start`
/// lies past the end.
pub open spec fn revisions_from(revisions: Seq<RevisionView>, start: int) -> Seq<RevisionView> {
    if 0 <= start <= revisions.len() {
        revisions.subrange(start, revisions.len() as int)
    } else {
        Seq::empty()
    }
}

/// Appends the container of the revisions of `revisions` from index `start`
/// on.
pub fn write_revisions(w: &mut Vec<u8>, revisions: &Vec<Revision>, start: usize)
    ensures
        final(w)@ == old(w)@ + encode_revisions(
            revisions_from(revisions.deep_view(), start as int),
        ),
{
    let start = if start > revisions.len() {
        revisions.len()
    } else {
        start
    };
    proof {
        assert(revisions.deep_view().subrange(revisions@.len() as int, revisions@.len() as int)
            =~= Seq::<RevisionView>::empty());
    }
    write_varint(w, (revisions.len() - start) as u64);
    let ghost base = w@;
    let ghost all = revisions.deep_view();
    let mut i: usize = start;
    while i < revisions.len()
        invariant
            start <= i <= revisions@.len(),
            all == revisions.deep_view(),
            w@ == base + encode_many(revision_writer(), all.subrange(start as int, i as int)),
        decreases revisions@.len() - i,
    {
        revisions[i].write(w);
        proof {
            let done = all.subrange(start as int, i + 1);
            assert(done.drop_last() =~= all.subrange(start as int, i as int));
            assert(done.last() == revisions[i as int]@);
            assert(w@ =~= base + encode_many(revision_writer(), done));
        }
        i = i + 1;
    }
    proof {
        assert(w@ =~= old(w)@ + encode_revisions(
            all.subrange(start as int, revisions@.len() as int),
        ));
    }
}

/// Reads a container from the front of `bytes`.
pub fn read_revisions<'a>(bytes: &'a [u8]) -> (res: Result<(Vec<Revision>, &'a [u8]), Error>)
    ensures
        yields(res, spec_read_revisions(bytes@)),
{
    let (count, start) = read_varint(bytes)?;
    let mut rest = start;
    let mut revisions: Vec<Revision> = Vec::new();
    let mut i: u64 = 0;
    proof {
        assert(revisions.deep_view() =~= Seq::<RevisionView>::empty());
    }
    while i < count
        invariant
            i <= count,
            spec_read_varint(bytes@) == Ok::<_, Error>((count, start@)),
            spec_read_many(revision_reader(), start@, i as nat) == Ok::<_, Error>(
                (revisions.deep_view(), rest@),
            ),
        decreases count - i,
    {
        let ghost before = revisions.deep_view();
        match Revision::read(rest) {
            Ok((revision, after)) => {
                revisions.push(revision);
                rest = after;
                proof {
                    assert(revisions.deep_view() =~= before.push(revision.deep_view()));
                }
            },
            Err(e) => {
                proof {
                    lemma_read_many_error(revision_reader(), start@, (i + 1) as nat, count as nat);
                }
                return Err(e);
            },
        }
        i = i + 1;
    }
    Ok((revisions, rest))
}

impl Repository {
    /// The empty history.
    pub fn new() -> (repository: Repository)
        ensures
            repository@ == Seq::<RevisionView>::empty(),
    {
        let repository = Repository { revisions: Vec::new() };
        proof {
            assert(repository@ =~= Seq::<RevisionView>::empty());
        }
        repository
    }

    /// The number of revisions.
    pub fn len(&self) -> (n: usize)
        ensures
            n == self@.len(),
    {
        self.revisions.len()
    }

    /// Appends `revision` to the history.
    pub fn add_revision(&mut self, revision: Revision)
        ensures
            final(self)@ == old(self)@.push(revision@),
    {
        self.revisions.push(revision);
        proof {
            assert(self@ =~= old(self)@.push(revision@));
        }
    }

    /// Appends the container of the whole history.
    pub fn write(&self, w: &mut Vec<u8>)
        ensures
            final(w)@ == old(w)@ + encode_revisions(self@),
    {
        write_revisions(w, &self.revisions, 0);
        proof {
            assert(self@.subrange(0, self@.len() as int) =~= self@);
        }
    }

    /// Reads a container from the front of `bytes`.
    pub fn read<'a>(bytes: &'a [u8]) -> (res: Result<(Repository, &'a [u8]), Error>)
        ensures
            yields(res, spec_read_revisions(bytes@)),
    {
        let (revisions, rest) = read_revisions(bytes)?;
        Ok((Repository { revisions }, rest))
    }

    /// Appends the revisions that the container in `data` holds. On an
    /// error the history is as it was.
    pub fn append(&mut self, data: &[u8]) -> (outcome: Result<(), Error>)
        ensures
            match spec_append(old(self)@, data@) {
                Ok(revisions) => outcome is Ok && final(self)@ == revisions,
                Err(e) => outcome == Err::<(), Error>(e) && final(self)@ == old(self)@,
            },
    {
        let (mut more, _) = read_revisions(data)?;
        self.extend(&mut more);
        Ok(())
    }

    /// Moves the revisions of `more` to the end of the history.
    fn extend(&mut self, more: &mut Vec<Revision>)
        ensures
            final(self)@ == old(self)@ + old(more).deep_view(),
    {
        self.revisions.append(more);
        proof {
            assert(self@ =~= old(self)@ + old(more).deep_view());
        }
    }

    /// Answers a reader that holds the first `from` revisions with the range
    /// that it lacks.
    pub fn read_range(&self, from: u64) -> (res: Result<(u64, u64, Vec<u8>), Error>)
        ensures
            match spec_read_range(self@, from) {
                Ok((start, end, data)) => res matches Ok((a, b, d)) && a == start && b == end
                    && d@ == data,
                Err(e) => res == Err::<(u64, u64, Vec<u8>), Error>(e),
            },
    {
        let len = self.revisions.len();
        if from > len as u64 {
            return Err(Error::NotFound);
        }
        let mut data: Vec<u8> = Vec::new();
        write_revisions(&mut data, &self.revisions, from as usize);
        proof {
            assert(data@ =~= encode_revisions(self@.subrange(from as int, self@.len() as int)));
        }
        Ok((from, len as u64, data))
    }

    /// Takes the range `from..to` that a writer sends. The append is fenced
    /// by `from`: unless the history has exactly that many revisions the
    /// result is `Conflict`. On any error the history is as it was.
    pub fn append_range(&mut self, from: u64, to: u64, data: &[u8]) -> (outcome: Result<(), Error>)
        ensures
            match spec_append_range(old(self)@, from, to, data@) {
                Ok(revisions) => outcome is Ok && final(self)@ == revisions,
                Err(e) => outcome == Err::<(), Error>(e) && final(self)@ == old(self)@,
            },
    {
        if from != self.revisions.len() as u64 {
            return Err(Error::Conflict);
        }
        let (mut more, _) = read_revisions(data)?;
        if to < from || to - from != more.len() as u64 {
            return Err(Error::InvalidData);
        }
        self.extend(&mut more);
        Ok(())
    }
}

} // verus!
