use savefile::database::BackupTable;
use savefile::error::{BackupError, Error};
use savefile::{Backup, Timestamp};

fn at(secs: i64) -> Timestamp {
    Timestamp::new(secs, 0)
}

#[test]
fn a_new_ledger_is_empty() {
    let table = BackupTable::open("game");
    assert_eq!(table.profile(), "game");
    assert_eq!(table.last_id(), 0);
    assert_eq!(table.select_all(), Vec::<Backup>::new());
    assert_eq!(table.latest(), None);
    assert_eq!(table.select_id(1), None);
}

#[test]
fn insert_hands_out_rising_ids_from_one() {
    let mut table = BackupTable::open("game");
    let a = table.insert("unused", &at(10)).unwrap();
    let b = table.insert("unused", &at(20)).unwrap();
    assert_eq!(a, Backup::new(1, "unused".to_string(), at(10)));
    assert_eq!(b, Backup::new(2, "unused".to_string(), at(20)));
    assert_eq!(table.last_id(), 2);
    assert_eq!(table.select_all(), vec![a, b]);
}

#[test]
fn create_then_get_returns_the_same_backup() {
    let mut table = BackupTable::open("game");
    table.insert("unused", &at(5)).unwrap();
    let made = table.insert("label", &Timestamp::new(77, 123_456_789)).unwrap();
    let got = table.select_id(made.id()).unwrap();
    assert_eq!(got.id(), 2);
    assert_eq!(got.tag(), "label");
    assert_eq!(got.timestamp(), Timestamp::new(77, 123_456_789));
    assert_eq!(got, made);
}

#[test]
fn delete_one_then_get_returns_absent() {
    let mut table = BackupTable::open("game");
    table.insert("unused", &at(1)).unwrap();
    table.insert("unused", &at(2)).unwrap();
    table.insert("unused", &at(3)).unwrap();
    assert_eq!(table.remove(2), Ok(()));
    assert_eq!(table.select_id(2), None);
    assert_eq!(table.select_id(1).unwrap().timestamp(), at(1));
    assert_eq!(table.select_id(3).unwrap().timestamp(), at(3));
    assert_eq!(table.select_all().len(), 2);
}

#[test]
fn removing_an_absent_id_is_not_found() {
    let mut table = BackupTable::open("game");
    table.insert("unused", &at(1)).unwrap();
    assert_eq!(table.remove(9), Err(Error::BackupError(BackupError::NotFound(9))));
    assert_eq!(table.select_all().len(), 1);
    assert_eq!(table.remove(1), Ok(()));
    assert_eq!(table.remove(1), Err(Error::BackupError(BackupError::NotFound(1))));
}

#[test]
fn ids_are_never_reused_after_deletion() {
    let mut table = BackupTable::open("game");
    table.insert("unused", &at(1)).unwrap();
    table.insert("unused", &at(2)).unwrap();
    table.remove(2).unwrap();
    let next = table.insert("unused", &at(3)).unwrap();
    assert_eq!(next.id(), 3);
    table.remove(1).unwrap();
    table.remove(3).unwrap();
    assert_eq!(table.insert("unused", &at(4)).unwrap().id(), 4);
}

#[test]
fn latest_is_the_row_with_the_maximum_timestamp() {
    let mut table = BackupTable::open("game");
    table.insert("unused", &at(30)).unwrap();
    table.insert("unused", &at(50)).unwrap();
    table.insert("unused", &at(40)).unwrap();
    assert_eq!(table.latest().unwrap().id(), 2);
    table.remove(2).unwrap();
    assert_eq!(table.latest().unwrap().id(), 3);
}

#[test]
fn latest_counts_nanoseconds_and_breaks_ties_by_higher_id() {
    let mut table = BackupTable::open("game");
    table.insert("unused", &Timestamp::new(7, 5)).unwrap();
    table.insert("unused", &Timestamp::new(7, 9)).unwrap();
    table.insert("unused", &Timestamp::new(7, 9)).unwrap();
    table.insert("unused", &Timestamp::new(6, 999_999_999)).unwrap();
    assert_eq!(table.latest().unwrap().id(), 3);
}

#[test]
fn drop_leaves_an_empty_ledger_that_starts_anew() {
    let mut table = BackupTable::open("game");
    table.insert("unused", &at(1)).unwrap();
    table.insert("unused", &at(2)).unwrap();
    table.drop();
    assert_eq!(table.select_all(), Vec::<Backup>::new());
    assert_eq!(table.latest(), None);
    assert_eq!(table.profile(), "game");
    assert_eq!(table.insert("unused", &at(3)).unwrap().id(), 1);
}

#[test]
fn insert_fails_when_every_id_has_been_handed_out() {
    let rows = vec![Backup::new(7, "unused".to_string(), at(1))];
    let mut table = BackupTable::from_rows("game", rows.clone(), u32::MAX).unwrap();
    assert_eq!(
        table.insert("unused", &at(2)),
        Err(Error::BackupError(BackupError::IdsExhausted))
    );
    assert_eq!(table.select_all(), rows);
    assert_eq!(table.last_id(), u32::MAX);
}

#[test]
fn from_rows_takes_up_a_stored_ledger() {
    let rows = vec![
        Backup::new(2, "unused".to_string(), at(20)),
        Backup::new(5, "unused".to_string(), at(10)),
    ];
    let mut table = BackupTable::from_rows("game", rows.clone(), 8).unwrap();
    assert_eq!(table.profile(), "game");
    assert_eq!(table.select_all(), rows);
    assert_eq!(table.latest().unwrap().id(), 2);
    assert_eq!(table.insert("unused", &at(30)).unwrap().id(), 9);
}

#[test]
fn from_rows_refuses_what_is_no_ledger() {
    let b = |id: u32| Backup::new(id, "unused".to_string(), at(1));
    assert!(BackupTable::from_rows("game", vec![b(2), b(1)], 5).is_none());
    assert!(BackupTable::from_rows("game", vec![b(1), b(1)], 5).is_none());
    assert!(BackupTable::from_rows("game", vec![b(0), b(1)], 5).is_none());
    assert!(BackupTable::from_rows("game", vec![b(1), b(6)], 5).is_none());
    assert!(BackupTable::from_rows("game", vec![b(1), b(5)], 5).is_some());
    assert!(BackupTable::from_rows("game", vec![], 0).is_some());
}

#[test]
fn timestamps_are_ordered_by_seconds_then_nanoseconds() {
    assert!(Timestamp::new(1, 999).is_before(&Timestamp::new(2, 0)));
    assert!(Timestamp::new(2, 0).is_before(&Timestamp::new(2, 1)));
    assert!(!Timestamp::new(2, 1).is_before(&Timestamp::new(2, 1)));
    assert!(!Timestamp::new(3, 0).is_before(&Timestamp::new(2, 5)));
    assert!(Timestamp::new(-5, 0).is_before(&Timestamp::new(-4, 0)));
}

#[test]
fn a_backup_hands_out_what_it_was_made_with() {
    let b = Backup::new(4, "unused".to_string(), Timestamp::new(9, 1));
    assert_eq!(b.id(), 4);
    assert_eq!(b.tag(), "unused");
    assert_eq!(b.timestamp(), Timestamp::new(9, 1));
    assert_eq!(b.duplicate(), b);
    let older = Backup::new(5, "unused".to_string(), Timestamp::new(9, 0));
    assert!(b.is_newer_than(&older));
    assert!(!older.is_newer_than(&b));
    assert!(!b.is_newer_than(&b));
}
