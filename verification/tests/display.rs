use savefile::display::{make_backup_record, make_profile_record, BackupList, ProfileList};
use savefile::filesystem::Layout;
use savefile::{Backup, Timestamp};

fn strings(names: &[&str]) -> Vec<String> {
    names.iter().map(|s| s.to_string()).collect()
}

#[test]
fn a_profile_record_holds_the_name_and_the_path() {
    assert_eq!(
        make_profile_record("C:\\data\\profiles\\skyrim.json"),
        strings(&["C:\\data\\profiles\\skyrim", "C:/data/profiles/skyrim.json"])
    );
    assert_eq!(
        make_profile_record("/data/profiles/skyrim.json"),
        strings(&["skyrim", "/data/profiles/skyrim.json"])
    );
}

#[test]
fn a_backup_record_holds_id_time_and_directory() {
    assert_eq!(
        make_backup_record(12, Some("2015-05-15 00:00:00".to_string()), "C:\\saves\\g\\12"),
        strings(&["12", "2015-05-15 00:00:00", "C:/saves/g/12"])
    );
    assert_eq!(make_backup_record(3, None, "/saves/g/3"), strings(&["3", "(invalid)", "/saves/g/3"]));
}

#[test]
fn profiles_are_drawn_as_a_rounded_table() {
    let list = ProfileList(strings(&["/data/profiles/skyrim.json", "/data/profiles/doom.json"]));
    assert_eq!(
        list.to_string(),
        ".-------------------------------------.\n\
         | Name   | Path                       |\n\
         | skyrim | /data/profiles/skyrim.json |\n\
         | doom   | /data/profiles/doom.json   |\n\
         '-------------------------------------'"
    );
}

#[test]
fn backups_are_drawn_with_their_times_in_utc() {
    let backups = vec![
        Backup::new(1, "unused".to_string(), Timestamp::new(1431648000, 0)),
        Backup::new(2, "unused".to_string(), Timestamp::new(1431648061, 500_000_000)),
    ];
    let list = BackupList::new("g", backups);
    assert_eq!(
        list.to_string(&Layout::new("/d")),
        ".---------------------------------------------.\n\
         | ID | Timestamp               | Path         |\n\
         | 1  | 2015-05-15 00:00:00     | /d/saves/g/1 |\n\
         | 2  | 2015-05-15 00:01:01.500 | /d/saves/g/2 |\n\
         '---------------------------------------------'"
    );
}

#[test]
fn a_time_that_has_no_date_is_drawn_as_invalid() {
    let list = BackupList::new("g", vec![Backup::new(1, "unused".to_string(), Timestamp::new(i64::MAX, 0))]);
    let text = list.to_string(&Layout::new("/d"));
    assert!(text.contains("| 1  | (invalid) | /d/saves/g/1 |"));
}

#[test]
fn an_empty_list_is_drawn_as_its_header() {
    assert_eq!(
        ProfileList(Vec::new()).to_string(),
        ".-------------.\n\
         | Name | Path |\n\
         '-------------'"
    );
}

#[test]
fn cells_of_any_content_are_drawn() {
    let list = ProfileList(strings(&[
        "",
        "/p/tab\there.json",
        "/p/two\nlines.json",
        "/p/wide 文字 ünï.json",
        "/p/\u{1b}[31mred.json",
        "C:\\mixed/slashes\\.hidden",
    ]));
    let text = list.to_string();
    assert!(text.starts_with(".-"));
    assert!(text.ends_with("-'"));
    assert!(text.contains("| Name"));
    assert!(text.contains("文字"));
    assert!(text.contains("C:/mixed/slashes/.hidden"));
}
