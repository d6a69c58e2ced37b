//! Where everything is kept, as paths with `/` between their parts.
//!
//! ```text
//! <install root>
//! ├── database.db
//! ├── profiles
//! │   ├── profile1.json
//! │   └── ...
//! └── saves
//!    ├── profile1
//!    │   ├── 1 (id)
//!    │   │   └── <files>
//!    │   ├── 2 (id)
//!    │   │   └── <files>
//!    │   └── ...
//!    ├── profile2
//!    └── ...
//! ```

use vstd::prelude::*;
use vstd::seq_lib::{to_multiset_build, to_multiset_insert};
use crate::backup::Id;
use crate::text::{
    chars_less, chars_of, decimal, decimal_text, lemma_lex_less_irreflexive,
    lemma_lex_less_transitive, lex_less, sorted, texts,
};

verus! {

/// The directories that the program works in.
#[derive(Clone, Debug, PartialEq, Eq)]
pub struct Layout {
    /// The directory that holds everything else.
    pub install_root: String,
    /// The directory of the profiles, relative to the install root.
    pub profiles_subpath: String,
    /// The directory of the backups, relative to the install root.
    pub saves_subpath: String,
}

/// Path `a` with `b` below it.
pub open spec fn join(a: Seq<char>, b: Seq<char>) -> Seq<char> {
    a + seq!['/'] + b
}

/// The place of the last `c` in `s`, or -1 where `s` holds none.
pub open spec fn last_index(s: Seq<char>, c: char) -> int
    decreases s.len(),
{
    if s.len() == 0 {
        -1
    } else if s.last() == c {
        s.len() - 1
    } else {
        last_index(s.drop_last(), c)
    }
}

/// The path without its last part: what stands before the last `/`, and
/// nothing where there is no `/`.
pub open spec fn parent(path: Seq<char>) -> Seq<char> {
    if last_index(path, '/') < 0 {
        Seq::empty()
    } else {
        path.take(last_index(path, '/'))
    }
}

/// The last part of the path: what stands behind the last `/`.
pub open spec fn file_name(path: Seq<char>) -> Seq<char> {
    path.skip(last_index(path, '/') + 1)
}

/// The file name without its extension: up to its last `.`, or all of it
/// where it holds no `.` or only begins with one.
pub open spec fn file_stem(path: Seq<char>) -> Seq<char> {
    let name = file_name(path);
    if last_index(name, '.') <= 0 {
        name
    } else {
        name.take(last_index(name, '.'))
    }
}

/// The text with every backslash turned into a forward slash.
pub open spec fn slashed(s: Seq<char>) -> Seq<char> {
    s.map_values(|c: char| if c == '\\' { '/' } else { c })
}

/// The place of the last `c` among the characters from `from` up to `len`.
fn find_last(chars: &Vec<char>, from: usize, len: usize, c: char) -> (r: Option<usize>)
    requires
        from <= len <= chars.len(),
    ensures
        match r {
            Some(p) => from <= p < len && last_index(chars@.subrange(from as int, len as int), c)
                == p - from,
            None => last_index(chars@.subrange(from as int, len as int), c) == -1,
        },
{
    let mut i: usize = len;
    let ghost whole = chars@.subrange(from as int, len as int);
    assert(chars@.subrange(from as int, i as int) =~= whole);
    while i > from
        invariant
            from <= i <= len <= chars.len(),
            whole == chars@.subrange(from as int, len as int),
            last_index(whole, c) == last_index(chars@.subrange(from as int, i as int), c),
        decreases i,
    {
        let ghost part = chars@.subrange(from as int, i as int);
        assert(part.last() == chars@[i - 1]);
        assert(part.drop_last() =~= chars@.subrange(from as int, i - 1));
        if chars[i - 1] == c {
            return Some(i - 1);
        }
        i -= 1;
    }
    assert(chars@.subrange(from as int, from as int).len() == 0);
    None
}

impl Layout {
    /// The layout below an install root, with the profiles in `profiles`
    /// and the backups in `saves`.
    pub fn new(install_root: &str) -> (layout: Layout)
        ensures
            layout.install_root@ == install_root@,
            layout.profiles_subpath@ == "profiles"@,
            layout.saves_subpath@ == "saves"@,
    {
        Layout {
            install_root: install_root.to_owned(),
            profiles_subpath: "profiles".to_owned(),
            saves_subpath: "saves".to_owned(),
        }
    }
}

/// Joins two paths with a `/`.
pub fn join_path(a: &str, b: &str) -> (r: String)
    ensures
        r@ == join(a@, b@),
{
    proof {
        reveal_strlit("/");
    }
    let mut r = a.to_owned();
    r.append("/");
    r.append(b);
    assert("/"@ =~= seq!['/']);
    r
}

/// Returns the directory that holds everything else.
pub fn install_dir(layout: &Layout) -> (r: String)
    ensures
        r@ == layout.install_root@,
{
    layout.install_root.clone()
}

/// The directories that have to exist before anything else is done, in the
/// order in which to create them: the install root, the directory of the
/// profiles, the directory of the backups.
pub fn create_required_dirs(layout: &Layout) -> (dirs: Vec<String>)
    ensures
        dirs@.len() == 3,
        dirs@[0]@ == layout.install_root@,
        dirs@[1]@ == join(layout.install_root@, layout.profiles_subpath@),
        dirs@[2]@ == join(layout.install_root@, layout.saves_subpath@),
{
    let mut dirs: Vec<String> = Vec::new();
    dirs.push(install_dir(layout));
    dirs.push(profiles_dir(layout));
    dirs.push(save_dir(layout));
    dirs
}

/// Returns the path to the database.
pub fn database_path(layout: &Layout) -> (r: String)
    ensures
        r@ == join(layout.install_root@, "database.db"@),
{
    join_path(layout.install_root.as_str(), "database.db")
}

/// Returns the directory where profiles are stored.
pub fn profiles_dir(layout: &Layout) -> (r: String)
    ensures
        r@ == join(layout.install_root@, layout.profiles_subpath@),
{
    join_path(layout.install_root.as_str(), layout.profiles_subpath.as_str())
}

/// Returns the path to the profile with the given name.
pub fn profile_path(layout: &Layout, name: &str) -> (r: String)
    ensures
        r@ == join(join(layout.install_root@, layout.profiles_subpath@), name@ + ".json"@),
{
    let mut file = name.to_owned();
    file.append(".json");
    let dir = profiles_dir(layout);
    join_path(dir.as_str(), file.as_str())
}

/// Returns the directory where backups are stored.
pub fn save_dir(layout: &Layout) -> (r: String)
    ensures
        r@ == join(layout.install_root@, layout.saves_subpath@),
{
    join_path(layout.install_root.as_str(), layout.saves_subpath.as_str())
}

/// Returns the directory where the backups of one profile are stored.
pub fn profile_save_dir(layout: &Layout, profile: &str) -> (r: String)
    ensures
        r@ == join(join(layout.install_root@, layout.saves_subpath@), profile@),
{
    let saves = save_dir(layout);
    join_path(saves.as_str(), profile)
}

/// Returns the path to the backup directory for the given profile and id.
pub fn backup_dir(layout: &Layout, profile: &str, id: Id) -> (r: String)
    ensures
        r@ == join(
            join(join(layout.install_root@, layout.saves_subpath@), profile@),
            decimal(id as nat),
        ),
{
    let dir = profile_save_dir(layout, profile);
    let number = decimal_text(id);
    join_path(dir.as_str(), number.as_str())
}

/// Returns the path with backslashes replaced with forward slashes.
pub fn path_str(path: &str) -> (r: String)
    ensures
        r@ == slashed(path@),
{
    proof {
        reveal_strlit("/");
    }
    let chars = chars_of(path);
    let mut r = String::new();
    let mut start: usize = 0;
    let mut i: usize = 0;
    while i < chars.len()
        invariant
            start <= i <= chars.len(),
            chars@ == path@,
            "/"@ == seq!['/'],
            r@ == slashed(path@.take(start as int)),
            forall|k: int| start <= k < i ==> path@[k] != '\\',
        decreases chars.len() - i,
    {
        if chars[i] == '\\' {
            r.append(path.substring_char(start, i));
            r.append("/");
            assert(r@ =~= slashed(path@.take(i + 1)));
            start = i + 1;
        }
        i += 1;
    }
    r.append(path.substring_char(start, i));
    assert(r@ =~= slashed(path@));
    r
}

/// Returns the path without its last part.
pub fn parent_dir(path: &str) -> (r: String)
    ensures
        r@ == parent(path@),
{
    let chars = chars_of(path);
    assert(chars@.subrange(0, chars@.len() as int) =~= path@);
    match find_last(&chars, 0, chars.len(), '/') {
        Some(p) => {
            let r = String::from_str(path.substring_char(0, p));
            assert(r@ =~= path@.take(p as int));
            r
        },
        None => String::new(),
    }
}

/// Returns the file name of the path without its extension.
pub fn file_stem_of(path: &str) -> (r: String)
    ensures
        r@ == file_stem(path@),
{
    let chars = chars_of(path);
    let n = chars.len();
    assert(chars@.subrange(0, n as int) =~= path@);
    let from: usize = match find_last(&chars, 0, n, '/') {
        Some(p) => p + 1,
        None => 0,
    };
    assert(chars@.subrange(from as int, n as int) =~= file_name(path@));
    let to: usize = match find_last(&chars, from, n, '.') {
        Some(d) => if d > from {
            d
        } else {
            n
        },
        None => n,
    };
    let r = String::from_str(path.substring_char(from, to));
    assert(r@ =~= file_stem(path@));
    r
}

/// Brings the matches of one glob pattern into dictionary order. Every
/// match stays, as often as it occurs.
pub fn match_glob(matches: &Vec<String>) -> (paths: Vec<String>)
    ensures
        sorted(texts(paths@)),
        texts(paths@).to_multiset() == texts(matches@).to_multiset(),
{
    let mut paths: Vec<String> = Vec::new();
    let mut i: usize = 0;
    assert(texts(matches@.take(0)) =~= texts(paths@));
    while i < matches.len()
        invariant
            i <= matches.len(),
            sorted(texts(paths@)),
            texts(paths@).to_multiset() == texts(matches@.take(i as int)).to_multiset(),
        decreases matches.len() - i,
    {
        let item = matches[i].clone();
        let item_chars = chars_of(item.as_str());
        let mut p: usize = 0;
        let mut looking = true;
        while looking && p < paths.len()
            invariant
                p <= paths.len(),
                item_chars@ == item@,
                forall|q: int| 0 <= q < p ==> !lex_less(item@, #[trigger] texts(paths@)[q]),
                !looking ==> p < paths.len() && lex_less(item@, texts(paths@)[p as int]),
            decreases paths.len() - p + if looking { 1nat } else { 0nat },
        {
            let here = chars_of(paths[p].as_str());
            assert(texts(paths@)[p as int] == here@);
            if chars_less(&item_chars, &here) {
                looking = false;
            } else {
                p += 1;
            }
        }
        proof {
            let before = texts(paths@);
            let after = before.insert(p as int, item@);
            assert(texts(paths@.insert(p as int, item)) =~= after);
            assert forall|x: int, y: int| 0 <= x < y < after.len() implies !lex_less(
                #[trigger] after[y],
                #[trigger] after[x],
            ) by {
                if y < p {
                    assert(!lex_less(before[y], before[x]));
                } else if y == p {
                } else if x == p {
                    if lex_less(after[y], item@) {
                        lemma_lex_less_transitive(before[y - 1], item@, before[p as int]);
                        if y - 1 > p {
                            assert(!lex_less(before[y - 1], before[p as int]));
                        } else {
                            lemma_lex_less_irreflexive(before[p as int]);
                        }
                    }
                } else if x < p {
                    assert(!lex_less(before[y - 1], before[x]));
                } else {
                    assert(!lex_less(before[y - 1], before[x - 1]));
                }
            }
            let seen = matches@.take(i as int);
            assert(matches@.take(i + 1) =~= seen.push(matches@[i as int]));
            assert(texts(matches@.take(i + 1)) =~= texts(seen).push(item@));
            to_multiset_insert(before, p as int, item@);
            to_multiset_build(texts(seen), item@);
        }
        paths.insert(p, item);
        i += 1;
    }
    assert(matches@.take(i as int) =~= matches@);
    paths
}

} // verus!
