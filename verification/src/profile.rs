//! Profiles: what to back up, and how long to wait before doing so.

use vstd::prelude::*;
use crate::filesystem::{file_stem, file_stem_of, join, join_path};
use crate::text::{
    chars_less, chars_of, chars_start_with, lemma_lex_less_connected, lemma_lex_less_transitive,
    lex_less, strictly_sorted, texts,
};

verus! {

/// A profile is primarily a specification of which files to back up.
///
/// Files to back up are specified as glob patterns relative to the
/// profile's base directory. The delay is the quiet time to wait after a
/// file was modified before backing up everything.
#[derive(Clone, Debug, PartialEq, Eq)]
pub struct Profile {
    /// Root directory which includes are relative to.
    pub base: String,
    /// Glob patterns for files to watch and to include in the backup.
    pub includes: Vec<String>,
    /// The quiet time before a backup, in milliseconds.
    pub delay: u64,
}

/// The base directory without the slashes at its end.
pub open spec fn trimmed(base: Seq<char>) -> Seq<char>
    decreases base.len(),
{
    if base.len() > 0 && base.last() == '/' {
        trimmed(base.drop_last())
    } else {
        base
    }
}

/// The path is the base directory or lies below it.
pub open spec fn lies_under(path: Seq<char>, base: Seq<char>) -> bool {
    path == trimmed(base) || (trimmed(base) + seq!['/']).is_prefix_of(path)
}

/// The path as seen from the base directory, for a path that lies under it.
pub open spec fn relative_to(path: Seq<char>, base: Seq<char>) -> Seq<char> {
    if path == trimmed(base) {
        Seq::empty()
    } else {
        path.skip(trimmed(base).len() as int + 1)
    }
}

/// What one match of the include patterns stands for in the expansion.
pub open spec fn expanded(path: Seq<char>, base: Seq<char>, relative: bool) -> Seq<char> {
    if relative {
        relative_to(path, base)
    } else {
        path
    }
}

/// The file stem of the path begins with the prefix, where one is given.
pub open spec fn stem_has_prefix(prefix: Option<Seq<char>>, path: Seq<char>) -> bool {
    match prefix {
        None => true,
        Some(p) => p.is_prefix_of(file_stem(path)),
    }
}

/// The profile paths whose file stems begin with the prefix, in their
/// order.
pub open spec fn profiles_with_prefix(profiles: Seq<String>, prefix: Option<Seq<char>>) -> Seq<
    String,
> {
    profiles.filter(|p: String| stem_has_prefix(prefix, p@))
}

/// How many characters the base directory has without the slashes at its
/// end.
fn trimmed_len(base: &Vec<char>) -> (n: usize)
    ensures
        n <= base.len(),
        base@.take(n as int) == trimmed(base@),
{
    let mut n: usize = base.len();
    assert(base@.take(n as int) =~= base@);
    while n > 0 && base[n - 1] == '/'
        invariant
            n <= base.len(),
            trimmed(base@.take(n as int)) == trimmed(base@),
        decreases n,
    {
        assert(base@.take(n as int).drop_last() =~= base@.take(n - 1));
        n -= 1;
    }
    n
}

/// Puts `item` in its place among sorted strings, unless it is there
/// already.
fn insert_sorted(out: &mut Vec<String>, item: String)
    requires
        strictly_sorted(texts(old(out)@)),
    ensures
        strictly_sorted(texts(final(out)@)),
        forall|x: Seq<char>|
            texts(final(out)@).contains(x) <==> texts(old(out)@).contains(x) || x == item@,
{
    let item_chars = chars_of(item.as_str());
    let mut p: usize = 0;
    let mut looking = true;
    while looking && p < out.len()
        invariant
            p <= out.len(),
            *out == *old(out),
            item_chars@ == item@,
            forall|q: int| 0 <= q < p ==> lex_less(#[trigger] texts(out@)[q], item@),
            !looking ==> p < out.len() && !lex_less(texts(out@)[p as int], item@),
        decreases out.len() - p + if looking { 1nat } else { 0nat },
    {
        let here = chars_of(out[p].as_str());
        assert(texts(out@)[p as int] == here@);
        if chars_less(&here, &item_chars) {
            p += 1;
        } else {
            looking = false;
        }
    }
    let ghost before = texts(out@);
    if p < out.len() && out[p] == item {
        assert(before[p as int] == item@);
        assert forall|x: Seq<char>| before.contains(x) || x == item@ implies before.contains(
            x,
        ) by {}
        return;
    }
    proof {
        let after = before.insert(p as int, item@);
        assert(texts(out@.insert(p as int, item)) =~= after);
        if p < before.len() {
            lemma_lex_less_connected(item@, before[p as int]);
        }
        assert forall|i: int, j: int| 0 <= i < j < after.len() implies lex_less(
            #[trigger] after[i],
            #[trigger] after[j],
        ) by {
            if j < p {
                assert(lex_less(before[i], before[j]));
            } else if j == p {
            } else if i == p {
                if j - 1 > p {
                    assert(lex_less(before[p as int], before[j - 1]));
                    lemma_lex_less_transitive(item@, before[p as int], before[j - 1]);
                }
            } else if i < p {
                assert(lex_less(before[i], before[j - 1]));
            } else {
                assert(lex_less(before[i - 1], before[j - 1]));
            }
        }
        assert forall|x: Seq<char>| after.contains(x) <==> before.contains(x) || x == item@ by {
            if after.contains(x) {
                let k = choose|k: int| 0 <= k < after.len() && after[k] == x;
                if k < p {
                    assert(before[k] == x);
                } else if k > p {
                    assert(before[k - 1] == x);
                }
            }
            if before.contains(x) {
                let k = choose|k: int| 0 <= k < before.len() && before[k] == x;
                if k < p {
                    assert(after[k] == x);
                } else {
                    assert(after[k + 1] == x);
                }
            }
            if x == item@ {
                assert(after[p as int] == x);
            }
        }
    }
    out.insert(p, item);
}

impl Profile {
    /// Creates a new profile with the given base directory, no include
    /// patterns and a delay of five seconds.
    pub fn new(base: &str) -> (p: Profile)
        ensures
            p.base@ == base@,
            p.includes@.len() == 0,
            p.delay == 5000,
    {
        Profile { base: base.to_owned(), includes: Vec::new(), delay: 5000 }
    }

    /// Returns the path to the target base directory.
    pub fn base(&self) -> (base: &str)
        ensures
            base@ == self.base@,
    {
        self.base.as_str()
    }

    /// Returns the glob patterns for files to watch and to include in the
    /// backup.
    pub fn includes(&self) -> (patterns: &Vec<String>)
        ensures
            patterns == &self.includes,
    {
        &self.includes
    }

    /// Returns the quiet time to wait after a file was modified before
    /// backing up everything, in milliseconds.
    pub fn delay(&self) -> (delay: u64)
        ensures
            delay == self.delay,
    {
        self.delay
    }

    /// The include patterns as they are handed to the glob expansion: each
    /// below the base directory.
    pub fn glob_patterns(&self) -> (patterns: Vec<String>)
        ensures
            patterns@.len() == self.includes@.len(),
            forall|i: int|
                0 <= i < patterns@.len() ==> (#[trigger] patterns@[i])@ == join(
                    self.base@,
                    self.includes@[i]@,
                ),
    {
        let mut patterns: Vec<String> = Vec::new();
        let mut i: usize = 0;
        while i < self.includes.len()
            invariant
                i <= self.includes.len(),
                patterns@.len() == i,
                forall|k: int|
                    0 <= k < i ==> (#[trigger] patterns@[k])@ == join(
                        self.base@,
                        self.includes@[k]@,
                    ),
            decreases self.includes.len() - i,
        {
            patterns.push(join_path(self.base.as_str(), self.includes[i].as_str()));
            i += 1;
        }
        patterns
    }

    /// Whether the path is the base directory or lies below it.
    pub fn owns(&self, path: &str) -> (r: bool)
        ensures
            r == lies_under(path@, self.base@),
    {
        let base = chars_of(self.base.as_str());
        let n = trimmed_len(&base);
        let p = chars_of(path);
        let mut prefix: Vec<char> = Vec::new();
        let mut i: usize = 0;
        while i < n
            invariant
                i <= n <= base.len(),
                prefix@ == base@.take(i as int),
            decreases n - i,
        {
            prefix.push(base[i]);
            assert(base@.take(i + 1) =~= base@.take(i as int).push(base@[i as int]));
            i += 1;
        }
        if p.len() == n && chars_start_with(&p, &prefix) {
            assert(p@.subrange(0, n as int) =~= p@);
            return true;
        }
        if p.len() == n {
            assert(p@.subrange(0, n as int) =~= p@);
        }
        prefix.push('/');
        assert(prefix@ =~= trimmed(self.base@) + seq!['/']);
        chars_start_with(&p, &prefix)
    }

    /// Whether every one of the paths is the base directory or lies below
    /// it.
    pub fn owns_all(&self, paths: &Vec<String>) -> (r: bool)
        ensures
            r == forall|i: int| 0 <= i < paths@.len() ==> lies_under(#[trigger] paths@[i]@, self.base@),
    {
        let mut i: usize = 0;
        while i < paths.len()
            invariant
                i <= paths.len(),
                forall|k: int| 0 <= k < i ==> lies_under(#[trigger] paths@[k]@, self.base@),
            decreases paths.len() - i,
        {
            if !self.owns(paths[i].as_str()) {
                return false;
            }
            i += 1;
        }
        true
    }

    /// As `expand_includes`, for matches of which it is not known where
    /// they lie: `None` where `relative` is set and one of them does not lie
    /// under the base directory.
    pub fn try_expand_includes(&self, matches: &Vec<String>, relative: bool) -> (r: Option<
        Vec<String>,
    >)
        ensures
            r is Some <==> (relative ==> forall|i: int|
                0 <= i < matches@.len() ==> lies_under(#[trigger] matches@[i]@, self.base@)),
            r matches Some(paths) ==> {
                &&& strictly_sorted(texts(paths@))
                &&& forall|x: Seq<char>|
                    texts(paths@).contains(x) <==> exists|i: int|
                        0 <= i < matches@.len() && x == expanded(
                            #[trigger] matches@[i]@,
                            self.base@,
                            relative,
                        )
            },
    {
        if relative && !self.owns_all(matches) {
            None
        } else {
            Some(self.expand_includes(matches, relative))
        }
    }

    /// Brings the matches of the include patterns into the form in which
    /// the engine uses them: in dictionary order, each path once, and, where
    /// `relative` is set, as seen from the base directory.
    pub fn expand_includes(&self, matches: &Vec<String>, relative: bool) -> (paths: Vec<String>)
        requires
            relative ==> forall|i: int|
                0 <= i < matches@.len() ==> lies_under(#[trigger] matches@[i]@, self.base@),
        ensures
            strictly_sorted(texts(paths@)),
            forall|x: Seq<char>|
                texts(paths@).contains(x) <==> exists|i: int|
                    0 <= i < matches@.len() && x == expanded(
                        #[trigger] matches@[i]@,
                        self.base@,
                        relative,
                    ),
    {
        let base = chars_of(self.base.as_str());
        let n = trimmed_len(&base);
        let mut paths: Vec<String> = Vec::new();
        let mut i: usize = 0;
        while i < matches.len()
            invariant
                i <= matches.len(),
                n <= base.len(),
                base@ == self.base@,
                base@.take(n as int) == trimmed(self.base@),
                relative ==> forall|k: int|
                    0 <= k < matches@.len() ==> lies_under(#[trigger] matches@[k]@, self.base@),
                strictly_sorted(texts(paths@)),
                forall|x: Seq<char>|
                    texts(paths@).contains(x) <==> exists|k: int|
                        0 <= k < i && x == expanded(#[trigger] matches@[k]@, self.base@, relative),
            decreases matches.len() - i,
        {
            let m = matches[i].as_str();
            let ghost want = expanded(m@, self.base@, relative);
            let item = if relative {
                let len = m.unicode_len();
                assert(lies_under(matches@[i as int]@, self.base@));
                if len <= n {
                    assert(m@ =~= trimmed(self.base@)) by {
                        if m@ != trimmed(self.base@) {
                            assert((trimmed(self.base@) + seq!['/']).len() == n + 1);
                        }
                    }
                    String::new()
                } else {
                    assert(m@ != trimmed(self.base@));
                    assert((trimmed(self.base@) + seq!['/']).len() == n + 1);
                    String::from_str(m.substring_char(n + 1, len))
                }
            } else {
                m.to_owned()
            };
            assert(item@ =~= want);
            let ghost before = texts(paths@);
            insert_sorted(&mut paths, item);
            proof {
                assert forall|x: Seq<char>| texts(paths@).contains(x) <==> exists|k: int|
                    0 <= k < i + 1 && x == expanded(
                        #[trigger] matches@[k]@,
                        self.base@,
                        relative,
                    ) by {
                    if before.contains(x) {
                        let k = choose|k: int|
                            0 <= k < i && x == expanded(
                                #[trigger] matches@[k]@,
                                self.base@,
                                relative,
                            );
                        assert(0 <= k < i + 1);
                    }
                    if x == want {
                        assert(x == expanded(matches@[i as int]@, self.base@, relative));
                    }
                    if exists|k: int|
                        0 <= k < i + 1 && x == expanded(
                            #[trigger] matches@[k]@,
                            self.base@,
                            relative,
                        ) {
                        let k = choose|k: int|
                            0 <= k < i + 1 && x == expanded(
                                #[trigger] matches@[k]@,
                                self.base@,
                                relative,
                            );
                        if k < i {
                            assert(before.contains(x));
                        }
                    }
                }
            }
            i += 1;
        }
        paths
    }
}

/// Finds the profiles whose names begin with `prefix`, among the paths of
/// all profile files. Without a prefix, all of them are returned.
pub fn find_profile(prefix: Option<&str>, profiles: Vec<String>) -> (found: Vec<String>)
    ensures
        found@ == profiles_with_prefix(
            profiles@,
            match prefix {
                Some(p) => Some(p@),
                None => None,
            },
        ),
{
    let ghost wanted: Option<Seq<char>> = match prefix {
        Some(p) => Some(p@),
        None => None,
    };
    let mut found: Vec<String> = Vec::new();
    let mut i: usize = 0;
    assert(profiles@.take(0) =~= Seq::<String>::empty());
    assert(profiles_with_prefix(Seq::<String>::empty(), wanted) =~= Seq::<String>::empty()) by {
        reveal(Seq::filter);
    }
    while i < profiles.len()
        invariant
            i <= profiles.len(),
            wanted == match prefix {
                Some(p) => Some(p@),
                None => None,
            },
            found@ == profiles_with_prefix(profiles@.take(i as int), wanted),
        decreases profiles.len() - i,
    {
        let keep = match prefix {
            None => true,
            Some(p) => {
                let stem = file_stem_of(profiles[i].as_str());
                let stem_chars = chars_of(stem.as_str());
                let prefix_chars = chars_of(p);
                chars_start_with(&stem_chars, &prefix_chars)
            },
        };
        proof {
            reveal(Seq::filter);
            let next = profiles@.take(i + 1);
            assert(next.drop_last() =~= profiles@.take(i as int));
            assert(next.last() == profiles@[i as int]);
            assert(keep == stem_has_prefix(wanted, profiles@[i as int]@));
        }
        if keep {
            found.push(profiles[i].clone());
        }
        i += 1;
    }
    assert(profiles@.take(i as int) =~= profiles@);
    found
}

} // verus!
