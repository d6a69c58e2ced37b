use savefile::profile::{find_profile, Profile};

fn strings(names: &[&str]) -> Vec<String> {
    names.iter().map(|s| s.to_string()).collect()
}

fn profile(base: &str, includes: &[&str]) -> Profile {
    Profile { base: base.to_string(), includes: strings(includes), delay: 2000 }
}

#[test]
fn a_new_profile_has_no_patterns_and_waits_five_seconds() {
    let p = Profile::new("/games/skyrim");
    assert_eq!(p.base(), "/games/skyrim");
    assert_eq!(p.includes(), &Vec::<String>::new());
    assert_eq!(p.delay(), 5000);
}

#[test]
fn a_profile_hands_out_its_fields() {
    let p = profile("/games", &["*.sav", "slots/**"]);
    assert_eq!(p.base(), "/games");
    assert_eq!(p.includes(), &strings(&["*.sav", "slots/**"]));
    assert_eq!(p.delay(), 2000);
}

#[test]
fn glob_patterns_stand_below_the_base() {
    let p = profile("/games", &["*.sav", "slots/**/*.dat"]);
    assert_eq!(p.glob_patterns(), strings(&["/games/*.sav", "/games/slots/**/*.dat"]));
    assert_eq!(Profile::new("/games").glob_patterns(), Vec::<String>::new());
}

#[test]
fn owns_tells_what_lies_under_the_base() {
    let p = profile("/games", &[]);
    assert!(p.owns("/games"));
    assert!(p.owns("/games/a.sav"));
    assert!(p.owns("/games/sub/b.sav"));
    assert!(p.owns("/games/"));
    assert!(!p.owns("/gamesx/a.sav"));
    assert!(!p.owns("/game"));
    assert!(!p.owns("games/a.sav"));
    assert!(!p.owns(""));
    let slashed = profile("/games//", &[]);
    assert!(slashed.owns("/games"));
    assert!(slashed.owns("/games/a.sav"));
    assert!(!slashed.owns("/gamesa.sav"));
    let root = profile("/", &[]);
    assert!(root.owns("/a.sav"));
    assert!(root.owns(""));
    assert!(!root.owns("a.sav"));
}

#[test]
fn expand_includes_sorts_and_removes_duplicates() {
    let p = profile("/games", &["*.sav", "game.*"]);
    let matches = strings(&["/games/slot.sav", "/games/game.sav", "/games/game.cfg", "/games/game.sav"]);
    assert_eq!(
        p.expand_includes(&matches, false),
        strings(&["/games/game.cfg", "/games/game.sav", "/games/slot.sav"])
    );
}

#[test]
fn expand_includes_gives_paths_relative_to_the_base() {
    let p = profile("/games", &["*.sav", "sub/*"]);
    let matches = strings(&["/games/sub/b.txt", "/games/a.txt", "/games/sub", "/games/a.txt"]);
    assert_eq!(p.expand_includes(&matches, true), strings(&["a.txt", "sub", "sub/b.txt"]));
}

#[test]
fn expand_includes_takes_the_base_with_slashes_at_its_end() {
    let p = profile("/games/", &["*"]);
    let matches = strings(&["/games/b", "/games", "/games/a"]);
    assert_eq!(p.expand_includes(&matches, true), strings(&["", "a", "b"]));
}

#[test]
fn expand_includes_of_nothing_is_nothing() {
    let p = profile("/games", &["*.sav"]);
    assert_eq!(p.expand_includes(&Vec::new(), true), Vec::<String>::new());
    assert_eq!(p.expand_includes(&Vec::new(), false), Vec::<String>::new());
}

#[test]
fn find_profile_without_a_prefix_returns_all() {
    let all = strings(&["/p/skyrim.json", "/p/doom.json"]);
    assert_eq!(find_profile(None, all.clone()), all);
}

#[test]
fn find_profile_filters_by_the_start_of_the_name() {
    let all = strings(&["/p/skyrim.json", "/p/doom.json", "/p/sky.json", "/sky/other.json", "/p/asky.json"]);
    assert_eq!(find_profile(Some("sky"), all.clone()), strings(&["/p/skyrim.json", "/p/sky.json"]));
    assert_eq!(find_profile(Some(""), all.clone()), all);
    assert_eq!(find_profile(Some("skyrim.json"), all.clone()), Vec::<String>::new());
    assert_eq!(find_profile(Some("x"), all), Vec::<String>::new());
    assert_eq!(find_profile(Some("x"), Vec::new()), Vec::<String>::new());
}

#[test]
fn try_expand_includes_refuses_a_match_outside_the_base() {
    let p = profile("/games", &["*.sav"]);
    let inside = strings(&["/games/b.sav", "/games/a.sav"]);
    let outside = strings(&["/games/b.sav", "/elsewhere/a.sav"]);
    assert_eq!(p.try_expand_includes(&inside, true), Some(strings(&["a.sav", "b.sav"])));
    assert_eq!(p.try_expand_includes(&outside, true), None);
    assert_eq!(
        p.try_expand_includes(&outside, false),
        Some(strings(&["/elsewhere/a.sav", "/games/b.sav"]))
    );
    assert!(p.owns_all(&inside));
    assert!(!p.owns_all(&outside));
    assert!(p.owns_all(&Vec::new()));
}
