use savefile::filesystem::{
    backup_dir, create_required_dirs, database_path, file_stem_of, install_dir, join_path,
    parent_dir, path_str, profile_path, profile_save_dir, profiles_dir, save_dir, Layout,
};
use savefile::text::{chars_less, chars_of, chars_start_with, decimal_text};

fn str_less(a: &str, b: &str) -> bool {
    chars_less(&chars_of(a), &chars_of(b))
}

fn str_starts_with(s: &str, prefix: &str) -> bool {
    chars_start_with(&chars_of(s), &chars_of(prefix))
}

#[test]
fn the_layout_puts_profiles_and_saves_below_the_install_root() {
    let layout = Layout::new("/data/savefile");
    assert_eq!(layout.install_root, "/data/savefile");
    assert_eq!(layout.profiles_subpath, "profiles");
    assert_eq!(layout.saves_subpath, "saves");
    assert_eq!(install_dir(&layout), "/data/savefile");
    assert_eq!(database_path(&layout), "/data/savefile/database.db");
    assert_eq!(profiles_dir(&layout), "/data/savefile/profiles");
    assert_eq!(save_dir(&layout), "/data/savefile/saves");
}

#[test]
fn a_profile_is_a_json_file_named_after_it() {
    let layout = Layout::new("/data/savefile");
    assert_eq!(profile_path(&layout, "skyrim"), "/data/savefile/profiles/skyrim.json");
}

#[test]
fn a_backup_lives_below_its_profile_under_its_id() {
    let layout = Layout::new("/data/savefile");
    assert_eq!(profile_save_dir(&layout, "skyrim"), "/data/savefile/saves/skyrim");
    assert_eq!(backup_dir(&layout, "skyrim", 1), "/data/savefile/saves/skyrim/1");
    assert_eq!(backup_dir(&layout, "skyrim", 42), "/data/savefile/saves/skyrim/42");
    assert_eq!(
        backup_dir(&layout, "skyrim", u32::MAX),
        "/data/savefile/saves/skyrim/4294967295"
    );
}

#[test]
fn the_subpaths_of_a_layout_can_be_chosen() {
    let layout = Layout {
        install_root: "/tmp/root".to_string(),
        profiles_subpath: "p".to_string(),
        saves_subpath: "s/deep".to_string(),
    };
    assert_eq!(profile_path(&layout, "a"), "/tmp/root/p/a.json");
    assert_eq!(backup_dir(&layout, "a", 7), "/tmp/root/s/deep/a/7");
    assert_eq!(database_path(&layout), "/tmp/root/database.db");
}

#[test]
fn the_required_directories_come_root_first() {
    let layout = Layout::new("/data/savefile");
    assert_eq!(
        create_required_dirs(&layout),
        vec![
            "/data/savefile".to_string(),
            "/data/savefile/profiles".to_string(),
            "/data/savefile/saves".to_string(),
        ]
    );
}

#[test]
fn join_path_puts_one_slash_between() {
    assert_eq!(join_path("a", "b"), "a/b");
    assert_eq!(join_path("", "b"), "/b");
    assert_eq!(join_path("a/", "b"), "a//b");
    assert_eq!(join_path("a", ""), "a/");
}

#[test]
fn path_str_turns_backslashes_into_slashes() {
    assert_eq!(path_str("C:\\Users\\me\\saves"), "C:/Users/me/saves");
    assert_eq!(path_str("\\\\"), "//");
    assert_eq!(path_str("no/backslash"), "no/backslash");
    assert_eq!(path_str(""), "");
    assert_eq!(path_str("tr\\ail\\"), "tr/ail/");
    assert_eq!(path_str("ünï\\cødé"), "ünï/cødé");
}

#[test]
fn parent_dir_is_what_stands_before_the_last_slash() {
    assert_eq!(parent_dir("a/b/c.txt"), "a/b");
    assert_eq!(parent_dir("/c.txt"), "");
    assert_eq!(parent_dir("c.txt"), "");
    assert_eq!(parent_dir("a/b/"), "a/b");
    assert_eq!(parent_dir(""), "");
}

#[test]
fn file_stem_of_drops_directories_and_the_extension() {
    assert_eq!(file_stem_of("/data/profiles/skyrim.json"), "skyrim");
    assert_eq!(file_stem_of("skyrim.json"), "skyrim");
    assert_eq!(file_stem_of("a.b/skyrim"), "skyrim");
    assert_eq!(file_stem_of("dir/archive.tar.gz"), "archive.tar");
    assert_eq!(file_stem_of("dir/.hidden"), ".hidden");
    assert_eq!(file_stem_of("dir/.hidden.json"), ".hidden");
    assert_eq!(file_stem_of("dir/"), "");
    assert_eq!(file_stem_of("dir/name."), "name");
}

#[test]
fn decimal_text_writes_numbers_without_leading_zeros() {
    assert_eq!(decimal_text(0), "0");
    assert_eq!(decimal_text(7), "7");
    assert_eq!(decimal_text(10), "10");
    assert_eq!(decimal_text(1234567890), "1234567890");
    assert_eq!(decimal_text(u32::MAX), "4294967295");
    for n in [9u32, 99, 100, 101, 1000, 65535, 4000000000] {
        assert_eq!(decimal_text(n), n.to_string());
    }
}

#[test]
fn chars_of_lists_the_characters() {
    assert_eq!(chars_of("aé/"), vec!['a', 'é', '/']);
    assert_eq!(chars_of(""), Vec::<char>::new());
}

#[test]
fn str_less_is_dictionary_order_by_code_point() {
    assert!(str_less("a", "b"));
    assert!(!str_less("b", "a"));
    assert!(!str_less("a", "a"));
    assert!(str_less("", "a"));
    assert!(!str_less("a", ""));
    assert!(!str_less("", ""));
    assert!(str_less("ab", "abc"));
    assert!(str_less("abc", "abd"));
    assert!(str_less("Z", "a"));
    assert!(str_less("a-b", "a/b"));
    assert!(str_less("z", "é"));
    for (a, b) in [("save1", "save10"), ("x/y", "x/z"), ("é", "ê"), ("a", "a ")] {
        assert_eq!(str_less(a, b), a < b);
        assert_eq!(str_less(b, a), b < a);
    }
}

#[test]
fn str_starts_with_tests_a_prefix() {
    assert!(str_starts_with("skyrim", "sky"));
    assert!(str_starts_with("skyrim", ""));
    assert!(str_starts_with("skyrim", "skyrim"));
    assert!(!str_starts_with("sky", "skyrim"));
    assert!(!str_starts_with("skyrim", "kyr"));
}
