//! Text as sequences of characters: order, prefixes and decimal numbers.

use vstd::prelude::*;

verus! {

/// The characters of a string, in order.
pub fn chars_of(s: &str) -> (v: Vec<char>)
    ensures
        v@ == s@,
{
    broadcast use vstd::string::group_string_axioms;

    let mut v: Vec<char> = Vec::new();
    for c in it: s.chars()
        invariant
            it.seq() == s@,
            v@ == it.seq().take(it.index()),
    {
        v.push(c);
        assert(it.seq().take(it.index() + 1) =~= it.seq().take(it.index()).push(c));
    }
    assert(s@.take(s@.len() as int) =~= s@);
    v
}

/// `x` has the lower code point.
pub open spec fn below(x: char, y: char) -> bool {
    (x as int) < (y as int)
}

/// Whether `x` has the lower code point.
pub fn char_less(x: char, y: char) -> (r: bool)
    ensures
        r == below(x, y),
{
    (x as u32) < (y as u32)
}

/// `a` and `b` agree on their first `k` characters.
pub open spec fn agree_until(a: Seq<char>, b: Seq<char>, k: int) -> bool {
    &&& 0 <= k <= a.len()
    &&& k <= b.len()
    &&& forall|i: int| 0 <= i < k ==> a[i] == b[i]
}

/// `a` comes before `b` in dictionary order, characters ranked by their
/// code points: at the first place where the two differ, `a` has ended or
/// has the lower character.
pub open spec fn lex_less(a: Seq<char>, b: Seq<char>) -> bool {
    exists|k: int|
        #[trigger] agree_until(a, b, k) && k < b.len() && (k == a.len() || below(a[k], b[k]))
}

/// Dictionary order is transitive.
pub proof fn lemma_lex_less_transitive(a: Seq<char>, b: Seq<char>, c: Seq<char>)
    requires
        lex_less(a, b),
        lex_less(b, c),
    ensures
        lex_less(a, c),
{
    let k1 = choose|k: int|
        #[trigger] agree_until(a, b, k) && k < b.len() && (k == a.len() || below(a[k], b[k]));
    let k2 = choose|k: int|
        #[trigger] agree_until(b, c, k) && k < c.len() && (k == b.len() || below(b[k], c[k]));
    let k = if k1 <= k2 {
        k1
    } else {
        k2
    };
    assert(agree_until(a, c, k));
}

/// No text comes before itself.
pub proof fn lemma_lex_less_irreflexive(a: Seq<char>)
    ensures
        !lex_less(a, a),
{
    if lex_less(a, a) {
        let k = choose|k: int|
            #[trigger] agree_until(a, a, k) && k < a.len() && (k == a.len() || below(a[k], a[k]));
        assert(false);
    }
}

/// Of two different texts one comes before the other.
pub proof fn lemma_lex_less_connected(a: Seq<char>, b: Seq<char>)
    requires
        a != b,
    ensures
        lex_less(a, b) || lex_less(b, a),
{
    let k = lemma_first_difference(a, b, 0);
    assert(agree_until(a, b, k));
    assert(agree_until(b, a, k));
    if k < a.len() && k < b.len() {
        assert(below(a[k], b[k]) || below(b[k], a[k]));
    }
}

/// The first place from `from` on at which `a` and `b` differ, or one of
/// them has ended.
proof fn lemma_first_difference(a: Seq<char>, b: Seq<char>, from: int) -> (k: int)
    requires
        a != b,
        agree_until(a, b, from),
    ensures
        agree_until(a, b, k),
        k == a.len() || k == b.len() || a[k] != b[k],
        !(k == a.len() && k == b.len()),
    decreases a.len() - from,
{
    if from == a.len() || from == b.len() {
        if from == a.len() && from == b.len() {
            assert(a =~= b);
        }
        from
    } else if a[from] != b[from] {
        from
    } else {
        lemma_first_difference(a, b, from + 1)
    }
}

/// The text of each string, in the strings' order.
pub open spec fn texts(v: Seq<String>) -> Seq<Seq<char>> {
    v.map_values(|s: String| s@)
}

/// Each text comes before the next in dictionary order: the texts are in
/// order and none occurs twice.
pub open spec fn strictly_sorted(v: Seq<Seq<char>>) -> bool {
    forall|i: int, j: int| 0 <= i < j < v.len() ==> lex_less(#[trigger] v[i], #[trigger] v[j])
}

/// No text comes before the one in front of it: the texts are in
/// dictionary order, and a text may occur more than once.
pub open spec fn sorted(v: Seq<Seq<char>>) -> bool {
    forall|i: int, j: int| 0 <= i < j < v.len() ==> !lex_less(#[trigger] v[j], #[trigger] v[i])
}

/// Whether `a` comes before `b` in dictionary order.
pub fn chars_less(a: &Vec<char>, b: &Vec<char>) -> (r: bool)
    ensures
        r == lex_less(a@, b@),
{
    let mut k: usize = 0;
    while k < a.len() && k < b.len() && a[k] == b[k]
        invariant
            agree_until(a@, b@, k as int),
        decreases a.len() - k,
    {
        k += 1;
    }
    let r = k < b.len() && (k == a.len() || char_less(a[k], b[k]));
    proof {
        if !r && lex_less(a@, b@) {
            let w = choose|w: int|
                #[trigger] agree_until(a@, b@, w) && w < b@.len() && (w == a@.len() || below(a@[w], b@[w]));
            if w < k {
                assert(a@[w] == b@[w]);
            } else if w > k {
                assert(a@[k as int] == b@[k as int]);
            }
        }
    }
    r
}

/// Whether `s` begins with `prefix`.
pub fn chars_start_with(s: &Vec<char>, prefix: &Vec<char>) -> (r: bool)
    ensures
        r == prefix@.is_prefix_of(s@),
{
    if prefix.len() > s.len() {
        return false;
    }
    let mut k: usize = 0;
    while k < prefix.len()
        invariant
            k <= prefix.len() <= s.len(),
            forall|i: int| 0 <= i < k ==> s@[i] == prefix@[i],
        decreases prefix.len() - k,
    {
        if s[k] != prefix[k] {
            assert(s@.subrange(0, prefix@.len() as int)[k as int] == s@[k as int]);
            return false;
        }
        k += 1;
    }
    assert(s@.subrange(0, prefix@.len() as int) =~= prefix@);
    true
}

/// The decimal digit for a number below ten.
pub open spec fn digit(d: nat) -> char {
    if d == 0 {
        '0'
    } else if d == 1 {
        '1'
    } else if d == 2 {
        '2'
    } else if d == 3 {
        '3'
    } else if d == 4 {
        '4'
    } else if d == 5 {
        '5'
    } else if d == 6 {
        '6'
    } else if d == 7 {
        '7'
    } else if d == 8 {
        '8'
    } else {
        '9'
    }
}

/// A number written in decimal, without leading zeros.
pub open spec fn decimal(n: nat) -> Seq<char>
    decreases n,
{
    if n < 10 {
        seq![digit(n)]
    } else {
        decimal(n / 10).push(digit(n % 10))
    }
}

fn digit_text(d: u32) -> (s: &'static str)
    requires
        d < 10,
    ensures
        s@ == seq![digit(d as nat)],
{
    proof {
        reveal_strlit("0");
        reveal_strlit("1");
        reveal_strlit("2");
        reveal_strlit("3");
        reveal_strlit("4");
        reveal_strlit("5");
        reveal_strlit("6");
        reveal_strlit("7");
        reveal_strlit("8");
        reveal_strlit("9");
    }
    let s = if d == 0 {
        "0"
    } else if d == 1 {
        "1"
    } else if d == 2 {
        "2"
    } else if d == 3 {
        "3"
    } else if d == 4 {
        "4"
    } else if d == 5 {
        "5"
    } else if d == 6 {
        "6"
    } else if d == 7 {
        "7"
    } else if d == 8 {
        "8"
    } else {
        "9"
    };
    assert(s@ =~= seq![digit(d as nat)]);
    s
}

/// Writes a number in decimal, without leading zeros.
pub fn decimal_text(n: u32) -> (s: String)
    ensures
        s@ == decimal(n as nat),
    decreases n,
{
    if n < 10 {
        String::from_str(digit_text(n))
    } else {
        let mut s = decimal_text(n / 10);
        s.append(digit_text(n % 10));
        s
    }
}

} // verus!
