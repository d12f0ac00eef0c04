//! The ordered schema-migration chain. The chain is data: a list of version
//! markers, oldest first; starting from any stored version the path to the
//! head is the suffix after it. Each step's SQL transform runs in the
//! runtime shell; what is verified here is which steps run, and in which
//! order, for every stored version.

use vstd::prelude::*;

use crate::records::str_eq;

verus! {

/// The version markers, oldest first; the last entry is current.
pub open spec fn spec_chain() -> Seq<Seq<char>> {
    seq!["1"@, "2"@, "3"@, "4"@, "5"@, "6"@, "7"@, "8"@]
}

/// The version chain as data, oldest first.
pub fn version_chain() -> (r: Vec<&'static str>)
    ensures
        r.deep_view() == spec_chain(),
{
    let mut v: Vec<&'static str> = Vec::new();
    v.push("1");
    v.push("2");
    v.push("3");
    v.push("4");
    v.push("5");
    v.push("6");
    v.push("7");
    v.push("8");
    proof {
        assert(v.deep_view() =~= spec_chain());
    }
    v
}

/// The marker a fresh store is created at.
pub fn current_version() -> (r: &'static str)
    ensures
        r@ == spec_chain().last(),
{
    proof {
        assert(spec_chain().last() == "8"@);
    }
    "8"
}

/// No two markers of the chain read the same.
pub proof fn lemma_chain_distinct()
    ensures
        forall|i: int, j: int|
            0 <= i < j < spec_chain().len() ==> spec_chain()[i] != spec_chain()[j],
{
    reveal_strlit("1");
    reveal_strlit("2");
    reveal_strlit("3");
    reveal_strlit("4");
    reveal_strlit("5");
    reveal_strlit("6");
    reveal_strlit("7");
    reveal_strlit("8");
    assert forall|i: int, j: int| 0 <= i < j < spec_chain().len() implies spec_chain()[i]
        != spec_chain()[j] by {
        assert(spec_chain()[i][0] != spec_chain()[j][0]);
    }
}

/// The migrations still to run from a stored version: the chain suffix
/// after it, ending at the head. An unknown marker has no path: the store
/// was written by something newer and must not be touched.
pub fn migration_path(stored: &str) -> (r: Option<Vec<&'static str>>)
    ensures
        match r {
            Some(p) => exists|k: int|
                0 <= k < spec_chain().len() && spec_chain()[k] == stored@ && p.deep_view()
                    == spec_chain().skip(k + 1),
            None => !spec_chain().contains(stored@),
        },
{
    let chain = version_chain();
    let mut k: usize = 0;
    while k < chain.len()
        invariant
            chain.deep_view() == spec_chain(),
            k <= chain@.len(),
            forall|j: int| 0 <= j < k ==> spec_chain()[j] != stored@,
        decreases chain.len() - k,
    {
        if str_eq(chain[k], stored) {
            proof {
                assert(spec_chain()[k as int] == stored@);
            }
            let mut path: Vec<&'static str> = Vec::new();
            let mut j: usize = k + 1;
            while j < chain.len()
                invariant
                    chain.deep_view() == spec_chain(),
                    k < j <= chain@.len(),
                    path.deep_view() =~= spec_chain().subrange(k + 1, j as int),
                decreases chain.len() - j,
            {
                let step = chain[j];
                let ghost p0 = path.deep_view();
                path.push(step);
                proof {
                    assert(path.deep_view() =~~= p0.push(spec_chain()[j as int]));
                    assert(path.deep_view() =~= spec_chain().subrange(k + 1, j + 1));
                }
                j += 1;
            }
            proof {
                assert(path.deep_view() =~= spec_chain().skip(k + 1));
            }
            return Some(path);
        }
        k += 1;
    }
    proof {
        assert(!spec_chain().contains(stored@));
    }
    None
}

/// The stored integer class of a duration word from the oldest mission
/// schema (anything unrecognised reads as unknown).
pub open spec fn spec_duration_class(s: Seq<char>) -> i64 {
    if s == "epic"@ {
        2
    } else if s == "long"@ {
        1
    } else if s == "short"@ {
        0
    } else if s == "tutorial"@ {
        3
    } else {
        4
    }
}

/// Map a lower-cased duration word from the oldest mission schema to its
/// stored integer class.
pub fn convert_duration(s: &str) -> (r: i64)
    ensures
        r == spec_duration_class(s@),
{
    if str_eq(s, "epic") {
        2
    } else if str_eq(s, "long") {
        1
    } else if str_eq(s, "short") {
        0
    } else if str_eq(s, "tutorial") {
        3
    } else {
        4
    }
}

/// ASCII lowercase of one character.
pub open spec fn lower_char(c: char) -> char {
    if c == 'A' {
        'a'
    } else if c == 'B' {
        'b'
    } else if c == 'C' {
        'c'
    } else if c == 'D' {
        'd'
    } else if c == 'E' {
        'e'
    } else if c == 'F' {
        'f'
    } else if c == 'G' {
        'g'
    } else if c == 'H' {
        'h'
    } else if c == 'I' {
        'i'
    } else if c == 'J' {
        'j'
    } else if c == 'K' {
        'k'
    } else if c == 'L' {
        'l'
    } else if c == 'M' {
        'm'
    } else if c == 'N' {
        'n'
    } else if c == 'O' {
        'o'
    } else if c == 'P' {
        'p'
    } else if c == 'Q' {
        'q'
    } else if c == 'R' {
        'r'
    } else if c == 'S' {
        's'
    } else if c == 'T' {
        't'
    } else if c == 'U' {
        'u'
    } else if c == 'V' {
        'v'
    } else if c == 'W' {
        'w'
    } else if c == 'X' {
        'x'
    } else if c == 'Y' {
        'y'
    } else if c == 'Z' {
        'z'
    } else {
        c
    }
}

/// ASCII lowercase of a word.
pub open spec fn lower_word(s: Seq<char>) -> Seq<char> {
    s.map_values(|c: char| lower_char(c))
}

/// ASCII lowercase of one character.
fn to_lower(c: char) -> (r: char)
    ensures
        r == lower_char(c),
{
    match c {
        'A' => 'a',
        'B' => 'b',
        'C' => 'c',
        'D' => 'd',
        'E' => 'e',
        'F' => 'f',
        'G' => 'g',
        'H' => 'h',
        'I' => 'i',
        'J' => 'j',
        'K' => 'k',
        'L' => 'l',
        'M' => 'm',
        'N' => 'n',
        'O' => 'o',
        'P' => 'p',
        'Q' => 'q',
        'R' => 'r',
        'S' => 's',
        'T' => 't',
        'U' => 'u',
        'V' => 'v',
        'W' => 'w',
        'X' => 'x',
        'Y' => 'y',
        'Z' => 'z',
        _ => c,
    }
}

/// Whether `word` reads as `target` once lower-cased.
fn word_matches(word: &str, target: &str) -> (r: bool)
    ensures
        r == (lower_word(word@) == target@),
{
    let n = word.unicode_len();
    if n != target.unicode_len() {
        proof {
            assert(lower_word(word@).len() == word@.len());
        }
        return false;
    }
    let mut i: usize = 0;
    while i < n
        invariant
            n == word@.len(),
            n == target@.len(),
            i <= n,
            forall|j: int| 0 <= j < i ==> lower_word(word@)[j] == target@[j],
        decreases n - i,
    {
        let c = to_lower(word.get_char(i));
        if c != target.get_char(i) {
            proof {
                assert(lower_word(word@)[i as int] != target@[i as int]);
            }
            return false;
        }
        proof {
            assert(lower_word(word@)[i as int] == target@[i as int]);
        }
        i += 1;
    }
    proof {
        assert(lower_word(word@) =~= target@);
    }
    true
}

/// The stored class of a duration word, read case-insensitively.
fn duration_class_of_word(word: &str) -> (r: i64)
    ensures
        r == spec_duration_class(lower_word(word@)),
{
    if word_matches(word, "epic") {
        2
    } else if word_matches(word, "long") {
        1
    } else if word_matches(word, "short") {
        0
    } else if word_matches(word, "tutorial") {
        3
    } else {
        4
    }
}

/// The oldest mission schema glued the duration word onto the ship name.
/// Split such a row: the word before the first space becomes the stored
/// duration class (read case-insensitively), the rest is the name. A row
/// with no space in it cannot be split.
pub fn split_ship_row(name: &str) -> (r: Option<(i64, String)>)
    ensures
        match r {
            Some(p) => exists|sp: int|
                {
                    &&& 0 <= sp < name@.len()
                    &&& name@[sp] == ' '
                    &&& (forall|j: int| 0 <= j < sp ==> name@[j] != ' ')
                    &&& p.0 == spec_duration_class(lower_word(name@.take(sp)))
                    &&& p.1@ == name@.skip(sp + 1)
                },
            None => !name@.contains(' '),
        },
{
    let n = name.unicode_len();
    let mut sp: usize = 0;
    while sp < n && name.get_char(sp) != ' '
        invariant
            n == name@.len(),
            sp <= n,
            forall|j: int| 0 <= j < sp ==> name@[j] != ' ',
        decreases n - sp,
    {
        sp += 1;
    }
    if sp == n {
        proof {
            assert(!name@.contains(' ')) by {
                if name@.contains(' ') {
                    let w = choose|w: int| 0 <= w < name@.len() && name@[w] == ' ';
                    assert(false);
                }
            }
        }
        return None;
    }
    let word = name.substring_char(0, sp);
    let rest = name.substring_char(sp + 1, n);
    let class = duration_class_of_word(word);
    proof {
        assert(word@ =~= name@.take(sp as int));
        assert(rest@ =~= name@.skip(sp + 1));
    }
    Some((class, rest.to_owned()))
}

/// From every known version the path ends at the current head, and a store
/// already at the head has nothing to run.
pub proof fn lemma_migration_reaches_head(k: int)
    requires
        0 <= k < spec_chain().len(),
    ensures
        k < spec_chain().len() - 1 ==> spec_chain().skip(k + 1).last() == spec_chain().last(),
        k == spec_chain().len() - 1 ==> spec_chain().skip(k + 1).len() == 0,
{
    if k < spec_chain().len() - 1 {
        assert(spec_chain().skip(k + 1).last() == spec_chain().last());
    }
}

} // verus!
