use snarkvm::program::{Identifier, Literal};
use snarkvm::records::{find_unspent_credits_records, is_credits_record, EntryMode, Record, RecordEntry};
use snarkvm::types::{Address, Field};

fn name(n: u64) -> Identifier {
    Identifier(Field(n, 0, 0, 0))
}

const MICROCREDITS: u64 = 77;

fn record(entries: Vec<(u64, EntryMode, Option<Literal>)>) -> Record {
    Record {
        owner: Address(1, 0, 0, 0),
        data: entries.into_iter().map(|(n, mode, literal)| RecordEntry { name: name(n), mode, literal }).collect(),
    }
}

#[test]
fn credits_records_hold_private_nonzero_microcredits() {
    let m = name(MICROCREDITS);
    assert!(is_credits_record(&record(vec![(MICROCREDITS, EntryMode::Private, Some(Literal::U64(5)))]), &m));
    assert!(!is_credits_record(&record(vec![(MICROCREDITS, EntryMode::Private, Some(Literal::U64(0)))]), &m));
    assert!(!is_credits_record(&record(vec![(MICROCREDITS, EntryMode::Public, Some(Literal::U64(5)))]), &m));
    assert!(!is_credits_record(&record(vec![(MICROCREDITS, EntryMode::Private, Some(Literal::U32(5)))]), &m));
    assert!(!is_credits_record(&record(vec![(MICROCREDITS, EntryMode::Private, None)]), &m));
    assert!(!is_credits_record(&record(vec![(1, EntryMode::Private, Some(Literal::U64(5)))]), &m));
    assert!(is_credits_record(
        &record(vec![(1, EntryMode::Constant, None), (MICROCREDITS, EntryMode::Private, Some(Literal::U64(9)))]),
        &m
    ));
}

#[test]
fn unspent_credits_records_keep_their_order() {
    let m = name(MICROCREDITS);
    let records = vec![
        (Field(1, 0, 0, 0), record(vec![(MICROCREDITS, EntryMode::Private, Some(Literal::U64(5)))])),
        (Field(2, 0, 0, 0), record(vec![(MICROCREDITS, EntryMode::Private, Some(Literal::U64(0)))])),
        (Field(3, 0, 0, 0), record(vec![(MICROCREDITS, EntryMode::Private, Some(Literal::U64(8)))])),
        (Field(4, 0, 0, 0), record(vec![])),
    ];
    let found = find_unspent_credits_records(records, &m);
    let ids: Vec<Field> = found.iter().map(|(id, _)| *id).collect();
    assert_eq!(ids, vec![Field(1, 0, 0, 0), Field(3, 0, 0, 0)]);
    assert!(find_unspent_credits_records(vec![], &m).is_empty());
}
