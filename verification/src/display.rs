//! Lists of profiles and of backups, drawn as tables.

use vstd::prelude::*;
use crate::backup::{backup_dir_of, Backup, Timestamp};
use crate::filesystem::{backup_dir, file_stem, file_stem_of, path_str, slashed, Layout};
use crate::text::{decimal, decimal_text, texts};

verus! {

/// The text that `tabled` draws for these records, the first of them being
/// the header, in its style `ascii_rounded`.
pub uninterp spec fn rounded_table(records: Seq<Seq<Seq<char>>>) -> Seq<char>;

/// The text that `chrono` writes for the date and time, in UTC, that lies
/// `secs` seconds and `nanos` nanoseconds after the Unix epoch; `None`
/// where `chrono` has no date for it.
pub uninterp spec fn datetime_text(secs: i64, nanos: u32) -> Option<Seq<char>>;

/// The texts of the cells of each record.
pub open spec fn cells(records: Seq<Vec<String>>) -> Seq<Seq<Seq<char>>> {
    records.map_values(|r: Vec<String>| texts(r@))
}

/// `tabled`'s `Builder::from`, `Builder::build`, `Table::with` and the
/// table's `to_string`: the records, all of one length, drawn as a table in
/// the style `Style::ascii_rounded`. What is drawn depends on the records
/// alone.
#[verifier::external_body]
fn draw_table(records: Vec<Vec<String>>) -> (text: String)
    requires
        records@.len() > 0,
        forall|i: int| 0 <= i < records@.len() ==> (#[trigger] records@[i])@.len() == records@[0]@.len(),
    ensures
        text@ == rounded_table(cells(records@)),
{
    tabled::builder::Builder::from(records).build().with(
        tabled::settings::Style::ascii_rounded(),
    ).to_string()
}

/// `chrono`'s `DateTime::from_timestamp`, `DateTime::naive_utc` and the
/// `to_string` of the `NaiveDateTime`: the timestamp written as date and
/// time, or `None` where `chrono` has no date for it. What is written
/// depends on the timestamp alone.
#[verifier::external_body]
fn timestamp_text(t: &Timestamp) -> (text: Option<String>)
    ensures
        match text {
            Some(s) => datetime_text(t.secs, t.nanos) == Some(s@),
            None => datetime_text(t.secs, t.nanos) is None,
        },
{
    match chrono::DateTime::from_timestamp(t.secs, t.nanos) {
        Some(d) => Some(d.naive_utc().to_string()),
        None => None,
    }
}

/// The record of a profile: its name and the path of its file.
pub open spec fn profile_record(path: Seq<char>) -> Seq<Seq<char>> {
    seq![file_stem(path), slashed(path)]
}

/// The records of a list of profiles, under their header.
pub open spec fn profile_records(paths: Seq<String>) -> Seq<Seq<Seq<char>>> {
    seq![seq!["Name"@, "Path"@]] + paths.map_values(|p: String| profile_record(p@))
}

/// The record of a backup: its id, the time it was made at as `stamp` gives
/// it, and its directory.
pub open spec fn backup_record(id: nat, stamp: Option<Seq<char>>, dir: Seq<char>) -> Seq<
    Seq<char>,
> {
    seq![
        decimal(id),
        match stamp {
            Some(s) => s,
            None => "(invalid)"@,
        },
        slashed(dir),
    ]
}

/// The records of the backups of a profile, under their header.
pub open spec fn backup_records(layout: Layout, profile: Seq<char>, backups: Seq<Backup>) -> Seq<
    Seq<Seq<char>>,
> {
    seq![seq!["ID"@, "Timestamp"@, "Path"@]] + backups.map_values(
        |b: Backup|
            backup_record(
                b.id as nat,
                datetime_text(b.timestamp.secs, b.timestamp.nanos),
                backup_dir_of(layout, profile, b.id),
            ),
    )
}

/// Makes the record of a profile, given the path of its file.
pub fn make_profile_record(path: &str) -> (record: Vec<String>)
    ensures
        texts(record@) == profile_record(path@),
{
    let mut record: Vec<String> = Vec::new();
    record.push(file_stem_of(path));
    record.push(path_str(path));
    assert(texts(record@) =~= profile_record(path@));
    record
}

/// Makes the record of a backup, given its id, its time as text, if it has
/// one, and its directory.
pub fn make_backup_record(id: u32, stamp: Option<String>, dir: &str) -> (record: Vec<String>)
    ensures
        texts(record@) == backup_record(
            id as nat,
            match stamp {
                Some(s) => Some(s@),
                None => None,
            },
            dir@,
        ),
{
    let mut record: Vec<String> = Vec::new();
    record.push(decimal_text(id));
    match stamp {
        Some(s) => record.push(s),
        None => record.push(String::from_str("(invalid)")),
    }
    record.push(path_str(dir));
    assert(texts(record@) =~= backup_record(
        id as nat,
        match stamp {
            Some(s) => Some(s@),
            None => None,
        },
        dir@,
    ));
    record
}

/// A list of profiles, by the paths of their files.
///
/// Primarily used for displaying profiles in a table.
#[derive(Clone, Debug, PartialEq, Eq)]
pub struct ProfileList(pub Vec<String>);

impl ProfileList {
    /// Draws the list as a table of names and paths.
    pub fn to_string(&self) -> (text: String)
        ensures
            text@ == rounded_table(profile_records(self.0@)),
    {
        let mut records: Vec<Vec<String>> = Vec::new();
        let mut header: Vec<String> = Vec::new();
        header.push(String::from_str("Name"));
        header.push(String::from_str("Path"));
        assert(texts(header@) =~= seq!["Name"@, "Path"@]);
        records.push(header);
        assert(cells(records@) =~= seq![seq!["Name"@, "Path"@]]);
        assert(self.0@.take(0).map_values(|p: String| profile_record(p@)) =~= Seq::empty());
        let mut i: usize = 0;
        while i < self.0.len()
            invariant
                i <= self.0.len(),
                records@.len() == i + 1,
                forall|k: int| 0 <= k < records@.len() ==> (#[trigger] records@[k])@.len() == 2,
                cells(records@) == profile_records(self.0@.take(i as int)),
            decreases self.0.len() - i,
        {
            let record = make_profile_record(self.0[i].as_str());
            assert(record@.len() == texts(record@).len());
            let ghost before = cells(records@);
            records.push(record);
            assert(cells(records@) =~= before.push(profile_record(self.0@[i as int]@)));
            assert(profile_records(self.0@.take(i + 1)) =~= profile_records(
                self.0@.take(i as int),
            ).push(profile_record(self.0@[i as int]@)));
            i += 1;
        }
        assert(self.0@.take(i as int) =~= self.0@);
        draw_table(records)
    }
}

/// A list of backups of one profile.
///
/// Primarily used for displaying backups in a table.
#[derive(Clone, Debug, PartialEq, Eq)]
pub struct BackupList {
    /// The name of the profile.
    pub profile_name: String,
    /// The backups to show.
    pub backups: Vec<Backup>,
}

impl BackupList {
    /// The list of these backups of the profile.
    pub fn new(profile_name: &str, backups: Vec<Backup>) -> (list: BackupList)
        ensures
            list.profile_name@ == profile_name@,
            list.backups@ == backups@,
    {
        BackupList { profile_name: profile_name.to_owned(), backups }
    }

    /// The list of the first `count` of the backups, or of all of them where
    /// no count is given.
    pub fn first(profile_name: &str, backups: &Vec<Backup>, count: Option<usize>) -> (list:
        BackupList)
        requires
            count matches Some(n) ==> n <= backups@.len(),
        ensures
            list.profile_name@ == profile_name@,
            list.backups@ == match count {
                Some(n) => backups@.take(n as int),
                None => backups@,
            },
    {
        let n = match count {
            Some(n) => n,
            None => backups.len(),
        };
        let mut shown: Vec<Backup> = Vec::new();
        let mut i: usize = 0;
        while i < n
            invariant
                i <= n <= backups.len(),
                shown@ == backups@.take(i as int),
            decreases n - i,
        {
            shown.push(backups[i].duplicate());
            assert(backups@.take(i + 1) =~= backups@.take(i as int).push(backups@[i as int]));
            i += 1;
        }
        assert(backups@.take(backups@.len() as int) =~= backups@);
        BackupList { profile_name: profile_name.to_owned(), backups: shown }
    }

    /// Draws the list as a table of ids, times and directories.
    pub fn to_string(&self, layout: &Layout) -> (text: String)
        ensures
            text@ == rounded_table(backup_records(*layout, self.profile_name@, self.backups@)),
    {
        let mut records: Vec<Vec<String>> = Vec::new();
        let mut header: Vec<String> = Vec::new();
        header.push(String::from_str("ID"));
        header.push(String::from_str("Timestamp"));
        header.push(String::from_str("Path"));
        assert(texts(header@) =~= seq!["ID"@, "Timestamp"@, "Path"@]);
        records.push(header);
        assert(cells(records@) =~= seq![seq!["ID"@, "Timestamp"@, "Path"@]]);
        assert(backup_records(*layout, self.profile_name@, self.backups@.take(0)) =~= seq![
            seq!["ID"@, "Timestamp"@, "Path"@],
        ]);
        let mut i: usize = 0;
        while i < self.backups.len()
            invariant
                i <= self.backups.len(),
                records@.len() == i + 1,
                forall|k: int| 0 <= k < records@.len() ==> (#[trigger] records@[k])@.len() == 3,
                cells(records@) == backup_records(
                    *layout,
                    self.profile_name@,
                    self.backups@.take(i as int),
                ),
            decreases self.backups.len() - i,
        {
            let b = &self.backups[i];
            let dir = backup_dir(layout, self.profile_name.as_str(), b.id);
            let record = make_backup_record(b.id, timestamp_text(&b.timestamp), dir.as_str());
            assert(record@.len() == texts(record@).len());
            let ghost before = cells(records@);
            let ghost row = backup_record(
                b.id as nat,
                datetime_text(b.timestamp.secs, b.timestamp.nanos),
                backup_dir_of(*layout, self.profile_name@, b.id),
            );
            assert(texts(record@) == row);
            records.push(record);
            assert(cells(records@) =~= before.push(row));
            assert(backup_records(*layout, self.profile_name@, self.backups@.take(i + 1))
                =~= backup_records(*layout, self.profile_name@, self.backups@.take(i as int)).push(
                row,
            ));
            i += 1;
        }
        assert(self.backups@.take(i as int) =~= self.backups@);
        draw_table(records)
    }
}

} // verus!
