use binc::change::Change;
use binc::error::Error;
use binc::node_id::NodeId;
use binc::repository::{read_revisions, write_revisions, Journal, Repository};
use binc::revision::{read_changes, write_changes, Revision};

fn id(index: u64) -> NodeId {
    NodeId { index }
}

fn revision(tag: u8, changes: Vec<Change>) -> Revision {
    let mut r = Revision::with_provenance([tag; 16], "2024-01-02T03:04:05+00:00".to_string(), "ann".to_string());
    r.message = format!("revision {}", tag);
    r.tags = vec!["t".to_string()];
    r.uuid_of_parents = vec![[tag.wrapping_add(1); 16]];
    r.changes = changes;
    r
}

fn sample(n: u8) -> Vec<Revision> {
    (0..n)
        .map(|i| {
            revision(
                i,
                vec![
                    Change::AddNode { id: id(10 + i as u64) },
                    Change::UnknownChange { change_type: 0x6E, data: vec![i; 3] },
                ],
            )
        })
        .collect()
}

fn encoded(r: &Revision) -> Vec<u8> {
    let mut w = Vec::new();
    r.write(&mut w);
    w
}

#[test]
fn new_revision_is_blank_with_a_random_identity() {
    let a = Revision::new();
    let b = Revision::new();
    assert!(a.changes.is_empty());
    assert!(a.uuid_of_parents.is_empty());
    assert!(a.message.is_empty());
    assert!(a.tags.is_empty());
    assert_eq!(a.id[6] >> 4, 4);
    assert_eq!(a.id[8] >> 6, 2);
    assert_ne!(a.id, b.id);
    assert!(!a.date.is_empty());
    assert!(a.date.contains('T'));
    assert!(!a.user_name.is_empty());
}

#[test]
fn with_provenance_keeps_what_it_is_given() {
    let r = Revision::with_provenance([7; 16], "d".to_string(), "u".to_string());
    assert_eq!(r.id, [7; 16]);
    assert_eq!(r.date, "d");
    assert_eq!(r.user_name, "u");
    assert!(r.changes.is_empty() && r.tags.is_empty() && r.message.is_empty());
}

#[test]
fn add_change_appends() {
    let mut r = Revision::with_provenance([7; 16], String::new(), String::new());
    r.add_change(Change::AddNode { id: id(2) });
    r.add_change(Change::RemoveNode { id: id(2) });
    assert_eq!(r.changes, vec![Change::AddNode { id: id(2) }, Change::RemoveNode { id: id(2) }]);
}

#[test]
fn revision_record_starts_with_the_magic_tag() {
    let r = Revision::with_provenance([9; 16], "d".to_string(), "u".to_string());
    let bytes = encoded(&r);
    let mut expected = vec![b'C', b'h', b'n', b'g'];
    expected.extend_from_slice(&[9; 16]);
    expected.extend_from_slice(&[0, 1, b'd', 1, b'u', 0, 0, 0]);
    assert_eq!(bytes, expected);
    assert_eq!(Revision::CHANGE_LIST_ID, 0x43686E67);
}

#[test]
fn revision_roundtrip() {
    let r = revision(
        3,
        vec![
            Change::AddNode { id: id(2) },
            Change::SetString { node: id(2), attribute: "name".to_string(), value: "First".to_string() },
            Change::UnknownChange { change_type: 0x62, data: vec![1, 2, 3, 4] },
            Change::AddChild { parent: id(1), child: id(2), insertion_index: 0 },
        ],
    );
    let mut bytes = encoded(&r);
    bytes.push(0x77);
    let (got, rest) = Revision::read(&bytes).unwrap();
    assert_eq!(got, r);
    assert_eq!(rest, &[0x77u8][..]);
}

#[test]
fn revision_with_wrong_magic_is_invalid_data() {
    let mut bytes = encoded(&revision(1, vec![]));
    bytes[3] = b'G';
    assert_eq!(Revision::read(&bytes).unwrap_err(), Error::InvalidData);
}

#[test]
fn truncated_revision_is_unexpected_eof() {
    let bytes = encoded(&revision(1, vec![Change::AddNode { id: id(2) }]));
    for cut in 0..bytes.len() {
        assert_eq!(Revision::read(&bytes[..cut]).unwrap_err(), Error::UnexpectedEof);
    }
}

#[test]
fn change_list_is_counted() {
    let changes = vec![Change::AddNode { id: id(2) }, Change::RemoveNode { id: id(2) }];
    let mut w = Vec::new();
    write_changes(&mut w, &changes);
    assert_eq!(w, vec![2, 0x01, 1, 2, 0x08, 1, 2]);
    let (got, rest) = read_changes(&w).unwrap();
    assert_eq!(got, changes);
    assert!(rest.is_empty());
    assert_eq!(read_changes(&[3, 0x01, 1, 2]).unwrap_err(), Error::UnexpectedEof);
}

#[test]
fn repository_roundtrip() {
    let repo = Repository { revisions: sample(3) };
    let mut bytes = Vec::new();
    repo.write(&mut bytes);
    assert_eq!(bytes[0], 3);
    let (got, rest) = Repository::read(&bytes).unwrap();
    assert_eq!(got, repo);
    assert!(rest.is_empty());
    let mut empty = Vec::new();
    Repository::new().write(&mut empty);
    assert_eq!(empty, vec![0]);
    assert_eq!(Repository::read(&empty).unwrap().0.len(), 0);
}

#[test]
fn repository_add_revision_appends() {
    let mut repo = Repository::new();
    for r in sample(2) {
        repo.add_revision(r);
    }
    assert_eq!(repo.len(), 2);
    assert_eq!(repo.revisions, sample(2));
}

#[test]
fn write_revisions_from_an_index() {
    let all = sample(4);
    let mut w = Vec::new();
    write_revisions(&mut w, &all, 3);
    let (got, _) = read_revisions(&w).unwrap();
    assert_eq!(got, all[3..].to_vec());
    let mut w = Vec::new();
    write_revisions(&mut w, &all, 4);
    assert_eq!(w, vec![0]);
}

#[test]
fn journal_append_adds_what_the_container_holds() {
    let all = sample(3);
    let mut bytes = Vec::new();
    write_revisions(&mut bytes, &all, 1);
    let mut journal = Journal { revisions: all[..1].to_vec() };
    journal.append(&bytes).unwrap();
    assert_eq!(journal.revisions, all);
    let before = journal.clone();
    assert_eq!(journal.append(&bytes[..bytes.len() - 1]), Err(Error::UnexpectedEof));
    assert_eq!(journal, before);
}

#[test]
fn get_file_data_from_2_of_5_returns_revisions_2_3_4() {
    let repo = Repository { revisions: sample(5) };
    let (from, to, data) = repo.read_range(2).unwrap();
    assert_eq!((from, to), (2, 5));
    let (got, rest) = read_revisions(&data).unwrap();
    assert!(rest.is_empty());
    assert_eq!(got, sample(5)[2..5].to_vec());
}

#[test]
fn read_range_at_and_past_the_end() {
    let repo = Repository { revisions: sample(2) };
    let (from, to, data) = repo.read_range(2).unwrap();
    assert_eq!((from, to, data), (2, 2, vec![0]));
    assert_eq!(repo.read_range(3), Err(Error::NotFound));
    let (from, to, _) = repo.read_range(0).unwrap();
    assert_eq!((from, to), (0, 2));
}

#[test]
fn append_range_is_fenced_by_from() {
    let all = sample(5);
    let mut bytes = Vec::new();
    write_revisions(&mut bytes, &all, 3);
    for held in [0usize, 1, 2, 4, 5] {
        let mut repo = Repository { revisions: all[..held].to_vec() };
        let before = repo.clone();
        assert_eq!(repo.append_range(3, 5, &bytes), Err(Error::Conflict));
        assert_eq!(repo, before);
    }
    let mut repo = Repository { revisions: all[..3].to_vec() };
    assert_eq!(repo.append_range(3, 5, &bytes), Ok(()));
    assert_eq!(repo.revisions, all);
    assert_eq!(repo.append_range(3, 5, &bytes), Err(Error::Conflict));
    assert_eq!(repo.revisions, all);
}

#[test]
fn append_range_checks_the_count_and_the_bytes() {
    let all = sample(5);
    let mut bytes = Vec::new();
    write_revisions(&mut bytes, &all, 3);
    let mut repo = Repository { revisions: all[..3].to_vec() };
    let before = repo.clone();
    assert_eq!(repo.append_range(3, 4, &bytes), Err(Error::InvalidData));
    assert_eq!(repo.append_range(3, 6, &bytes), Err(Error::InvalidData));
    assert_eq!(repo.append_range(3, 2, &bytes), Err(Error::InvalidData));
    assert_eq!(repo.append_range(3, 5, &bytes[..10]), Err(Error::UnexpectedEof));
    let mut broken = bytes.clone();
    broken[1] = b'X';
    assert_eq!(repo.append_range(3, 5, &broken), Err(Error::InvalidData));
    assert_eq!(repo, before);
}

#[test]
fn fetched_range_completes_the_reader() {
    let server = Repository { revisions: sample(5) };
    for held in 0..=5usize {
        let mut client = Repository { revisions: sample(5)[..held].to_vec() };
        let (from, to, data) = server.read_range(held as u64).unwrap();
        client.append_range(from, to, &data).unwrap();
        assert_eq!(client, server);
    }
}

#[test]
fn default_revision_is_blank_under_the_nil_identifier() {
    let r = Revision::default();
    assert_eq!(r, Revision::with_provenance([0; 16], String::new(), String::new()));
}

#[test]
fn write_revisions_past_the_end_writes_an_empty_container() {
    let all = sample(2);
    let mut w = Vec::new();
    write_revisions(&mut w, &all, 7);
    assert_eq!(w, vec![0]);
}
