use std::collections::BTreeMap;

use savefile::backup::{backup_at, copy, copy_dir_contents, restore_backup, CopyAction, DirEntry};
use savefile::database::BackupTable;
use savefile::display::BackupList;
use savefile::filesystem::{match_glob, Layout};
use savefile::profile::Profile;
use savefile::watcher::replay;
use savefile::{Backup, Timestamp};

type Disk = BTreeMap<String, Vec<u8>>;

fn strings(names: &[&str]) -> Vec<String> {
    names.iter().map(|s| s.to_string()).collect()
}

fn carry_out(disk: &mut Disk, action: &CopyAction) {
    if let CopyAction::CopyFile { src, dest, .. } = action {
        let content = disk.get(src).expect("the source is missing").clone();
        disk.insert(dest.clone(), content);
    }
}

fn tree_below(disk: &Disk, root: &str) -> Vec<DirEntry> {
    let mut entries: Vec<DirEntry> = Vec::new();
    let prefix = format!("{}/", root);
    for path in disk.keys() {
        if let Some(rel) = path.strip_prefix(&prefix) {
            let parts: Vec<&str> = rel.split('/').collect();
            for depth in 1..parts.len() {
                let dir = parts[..depth].join("/");
                if !entries.iter().any(|e| e.path == dir) {
                    entries.push(DirEntry { path: dir, is_dir: true });
                }
            }
            entries.push(DirEntry { path: rel.to_string(), is_dir: false });
        }
    }
    entries
}

#[test]
fn restoring_a_backup_brings_back_the_files_and_touches_nothing_else() {
    let layout = Layout::new("/data/savefile");
    let profile =
        Profile { base: "/games".to_string(), includes: strings(&["**/*.txt"]), delay: 2000 };
    let mut disk = Disk::new();
    disk.insert("/games/a.txt".to_string(), b"first a".to_vec());
    disk.insert("/games/sub/b.txt".to_string(), b"first b".to_vec());
    disk.insert("/games/notes.md".to_string(), b"first notes".to_vec());

    let mut table = BackupTable::open("game");
    let matched = profile.expand_includes(&strings(&["/games/sub/b.txt", "/games/a.txt"]), true);
    let plan =
        backup_at(&mut table, &profile, &layout, &matched, &Timestamp::new(100, 0)).unwrap();
    for step in &plan.copies {
        let exists = disk.contains_key(&step.dest);
        carry_out(&mut disk, &copy(&step.src, &step.dest, false, exists));
    }
    assert_eq!(disk.get("/data/savefile/saves/game/1/a.txt"), Some(&b"first a".to_vec()));
    assert_eq!(disk.get("/data/savefile/saves/game/1/sub/b.txt"), Some(&b"first b".to_vec()));
    assert_eq!(disk.get("/data/savefile/saves/game/1/notes.md"), None);

    disk.insert("/games/a.txt".to_string(), b"second a".to_vec());
    disk.remove("/games/sub/b.txt");
    disk.insert("/games/notes.md".to_string(), b"second notes".to_vec());
    disk.insert("/games/new.txt".to_string(), b"new".to_vec());

    let restore = restore_backup(&table, &profile, &layout, Some(plan.backup.id())).unwrap();
    let entries = tree_below(&disk, &restore.src_dir);
    assert_eq!(
        entries,
        vec![
            DirEntry { path: "a.txt".to_string(), is_dir: false },
            DirEntry { path: "sub".to_string(), is_dir: true },
            DirEntry { path: "sub/b.txt".to_string(), is_dir: false },
        ]
    );
    for action in copy_dir_contents(&restore.src_dir, &restore.dest_dir, &entries) {
        carry_out(&mut disk, &action);
    }
    assert_eq!(disk.get("/games/a.txt"), Some(&b"first a".to_vec()));
    assert_eq!(disk.get("/games/sub/b.txt"), Some(&b"first b".to_vec()));
    assert_eq!(disk.get("/games/notes.md"), Some(&b"second notes".to_vec()));
    assert_eq!(disk.get("/games/new.txt"), Some(&b"new".to_vec()));
}

#[test]
fn three_changes_to_a_save_file_make_one_backup() {
    let layout = Layout::new("/data/savefile");
    let profile = Profile { base: "/games".to_string(), includes: strings(&["*.sav"]), delay: 2000 };
    let mut table = BackupTable::open("game");
    let triggers = replay(&vec![0, 500, 1000], profile.delay()).unwrap();
    assert_eq!(triggers, vec![3000]);
    for t in triggers {
        let matched = profile.expand_includes(&strings(&["/games/game.sav"]), true);
        let now = Timestamp::new((t / 1000) as i64, 0);
        backup_at(&mut table, &profile, &layout, &matched, &now).unwrap();
    }
    assert_eq!(table.select_all(), vec![Backup::new(1, "unused".to_string(), Timestamp::new(3, 0))]);
}

#[test]
fn match_glob_sorts_and_keeps_every_match() {
    assert_eq!(
        match_glob(&strings(&["/g/b.sav", "/g/a.sav", "/g/sub/c.sav", "/g/a.sav", "/g/B.sav"])),
        strings(&["/g/B.sav", "/g/a.sav", "/g/a.sav", "/g/b.sav", "/g/sub/c.sav"])
    );
    assert_eq!(match_glob(&Vec::new()), Vec::<String>::new());
    assert_eq!(match_glob(&strings(&["z", "y", "x"])), strings(&["x", "y", "z"]));
}

#[test]
fn the_first_backups_of_a_list_are_shown() {
    let backups: Vec<Backup> =
        (1..=4).map(|i| Backup::new(i, "unused".to_string(), Timestamp::new(i as i64, 0))).collect();
    assert_eq!(
        BackupList::first("game", &backups, Some(2)),
        BackupList::new("game", backups[..2].to_vec())
    );
    assert_eq!(
        BackupList::first("game", &backups, Some(0)),
        BackupList::new("game", Vec::new())
    );
    assert_eq!(BackupList::first("game", &backups, Some(4)).backups, backups);
    assert_eq!(BackupList::first("game", &backups, None).backups, backups);
    assert_eq!(BackupList::first("game", &backups, None).profile_name, "game");
}
