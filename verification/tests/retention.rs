use savefile::database::BackupTable;
use savefile::retention::{retain_backups, retention_candidates, sort_by_recency, Retention};
use savefile::{Backup, Id, Timestamp};

fn row(id: Id, secs: i64) -> Backup {
    Backup::new(id, "unused".to_string(), Timestamp::new(secs, 0))
}

fn ledger(times: &[i64]) -> BackupTable {
    let mut table = BackupTable::open("game");
    for t in times {
        table.insert("unused", &Timestamp::new(*t, 0)).unwrap();
    }
    table
}

fn ids(table: &BackupTable) -> Vec<Id> {
    table.select_all().iter().map(|b| b.id()).collect()
}

#[test]
fn retain_two_of_four_deletes_the_two_oldest() {
    let mut table = ledger(&[100, 200, 300, 400]);
    let outcome = retain_backups(&mut table, 2);
    assert_eq!(outcome, Retention::Deleted(vec![2, 1]));
    assert_eq!(ids(&table), vec![3, 4]);
}

#[test]
fn retain_keeps_the_most_recent_by_timestamp_not_by_id() {
    let mut table = ledger(&[500, 100, 400, 200, 300]);
    let outcome = retain_backups(&mut table, 2);
    assert_eq!(outcome, Retention::Deleted(vec![5, 4, 2]));
    assert_eq!(ids(&table), vec![1, 3]);
}

#[test]
fn retain_for_every_count_below_the_number_of_backups() {
    for k in 0..5usize {
        let mut table = ledger(&[30, 10, 50, 20, 40]);
        retain_backups(&mut table, k);
        let left = table.select_all();
        assert_eq!(left.len(), k);
        let mut kept: Vec<i64> = left.iter().map(|b| b.timestamp().secs).collect();
        kept.sort();
        let expected: Vec<i64> = vec![10, 20, 30, 40, 50][5 - k..].to_vec();
        assert_eq!(kept, expected);
    }
}

#[test]
fn retain_again_deletes_nothing_more() {
    let mut table = ledger(&[30, 10, 50, 20, 40]);
    assert_eq!(retain_backups(&mut table, 3), Retention::Deleted(vec![4, 2]));
    let after_first = table.select_all();
    assert_eq!(retain_backups(&mut table, 3), Retention::NothingToDelete);
    assert_eq!(table.select_all(), after_first);
}

#[test]
fn retain_zero_deletes_everything() {
    let mut table = ledger(&[1, 2, 3]);
    assert_eq!(retain_backups(&mut table, 0), Retention::Deleted(vec![3, 2, 1]));
    assert_eq!(ids(&table), Vec::<Id>::new());
    assert_eq!(table.last_id(), 3);
}

#[test]
fn retain_tells_nothing_to_delete_from_no_backups() {
    let mut empty = BackupTable::open("game");
    assert_eq!(retain_backups(&mut empty, 2), Retention::NoBackups);
    assert_eq!(retain_backups(&mut empty, 0), Retention::NoBackups);
    let mut two = ledger(&[1, 2]);
    assert_eq!(retain_backups(&mut two, 2), Retention::NothingToDelete);
    assert_eq!(retain_backups(&mut two, 7), Retention::NothingToDelete);
    assert_eq!(ids(&two), vec![1, 2]);
}

#[test]
fn candidates_do_not_depend_on_the_order_of_the_rows() {
    let a = vec![row(1, 10), row(2, 30), row(3, 20), row(4, 40)];
    let b = vec![row(4, 40), row(3, 20), row(1, 10), row(2, 30)];
    assert_eq!(retention_candidates(&a, 1), vec![2, 3, 1]);
    assert_eq!(retention_candidates(&b, 1), vec![2, 3, 1]);
}

#[test]
fn ties_in_timestamp_keep_the_higher_id() {
    let rows = vec![row(1, 10), row(2, 10), row(3, 10)];
    assert_eq!(retention_candidates(&rows, 1), vec![2, 1]);
    assert_eq!(retention_candidates(&rows, 2), vec![1]);
}

#[test]
fn candidates_are_empty_when_the_count_covers_all() {
    let rows = vec![row(1, 10), row(2, 20)];
    assert_eq!(retention_candidates(&rows, 2), Vec::<Id>::new());
    assert_eq!(retention_candidates(&rows, usize::MAX), Vec::<Id>::new());
    assert_eq!(retention_candidates(&Vec::new(), 0), Vec::<Id>::new());
}

#[test]
fn sort_by_recency_puts_the_most_recent_first() {
    let rows = vec![
        Backup::new(1, "a".to_string(), Timestamp::new(5, 100)),
        Backup::new(2, "b".to_string(), Timestamp::new(5, 200)),
        Backup::new(3, "c".to_string(), Timestamp::new(4, 900)),
        Backup::new(4, "d".to_string(), Timestamp::new(5, 200)),
    ];
    let sorted = sort_by_recency(&rows);
    let order: Vec<Id> = sorted.iter().map(|b| b.id()).collect();
    assert_eq!(order, vec![4, 2, 1, 3]);
    assert_eq!(sorted[0].tag(), "d");
    assert_eq!(sorted[3].tag(), "c");
}
