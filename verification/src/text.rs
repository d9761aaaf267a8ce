//! Character-level string helpers: equality, prefix/suffix tests,
//! substrings, concatenation and locating the first `/` of a path fragment.
use vstd::prelude::*;

verus! {

/// Index of the first occurrence of `c` in `s`, if any.
pub open spec fn first_occ(s: Seq<char>, c: char) -> Option<int> {
    if exists|j: int|
        0 <= j < s.len() && s[j] == c && (forall|k: int| 0 <= k < j ==> s[k] != c) {
        Some(
            choose|j: int|
                0 <= j < s.len() && s[j] == c && (forall|k: int| 0 <= k < j ==> s[k] != c),
        )
    } else {
        None
    }
}

/// The defining facts of `first_occ`: it is the least index holding `c`,
/// and it is `None` exactly when no index holds `c`.
pub proof fn lemma_first_occ(s: Seq<char>, c: char)
    ensures
        match first_occ(s, c) {
            Some(i) => 0 <= i < s.len() && s[i] == c && (forall|k: int|
                0 <= k < i ==> s[k] != c),
            None => forall|k: int| 0 <= k < s.len() ==> s[k] != c,
        },
{
    if exists|j: int| 0 <= j < s.len() && s[j] == c {
        let j = choose|j: int| 0 <= j < s.len() && s[j] == c;
        lemma_least_occ(s, c, j);
    } else {
        assert(forall|k: int| 0 <= k < s.len() ==> s[k] != c);
    }
}

proof fn lemma_least_occ(s: Seq<char>, c: char, j: int)
    requires
        0 <= j < s.len(),
        s[j] == c,
    ensures
        exists|i: int|
            0 <= i < s.len() && s[i] == c && (forall|k: int| 0 <= k < i ==> s[k] != c),
    decreases j,
{
    if forall|k: int| 0 <= k < j ==> s[k] != c {
        assert(0 <= j < s.len() && s[j] == c && (forall|k: int| 0 <= k < j ==> s[k] != c));
    } else {
        let k = choose|k: int| 0 <= k < j && s[k] == c;
        lemma_least_occ(s, c, k);
    }
}

/// Index of the first `/` in `s`, if any.
pub open spec fn first_slash(s: Seq<char>) -> Option<int> {
    first_occ(s, '/')
}

/// Finds the first occurrence of `c` in `s`.
pub fn find_char(s: &str, c: char) -> (r: Option<usize>)
    ensures
        match r {
            Some(i) => first_occ(s@, c) == Some(i as int),
            None => first_occ(s@, c) is None,
        },
{
    let n = s.unicode_len();
    let mut i: usize = 0;
    while i < n
        invariant
            0 <= i <= n,
            n == s@.len(),
            forall|k: int| 0 <= k < i ==> s@[k] != c,
        decreases n - i,
    {
        if s.get_char(i) == c {
            proof {
                lemma_first_occ(s@, c);
                assert(first_occ(s@, c) is Some);
                let j = first_occ(s@, c)->Some_0;
                assert(j <= i) by {
                    if j > i {
                        assert(s@[i as int] != c);
                    }
                }
                assert(j >= i);
            }
            return Some(i);
        }
        i += 1;
    }
    proof {
        lemma_first_occ(s@, c);
        if first_occ(s@, c) is Some {
            let j = first_occ(s@, c)->Some_0;
            assert(s@[j] == c);
        }
    }
    None
}

/// Finds the first `/` in `s`.
pub fn find_slash(s: &str) -> (r: Option<usize>)
    ensures
        match r {
            Some(i) => first_slash(s@) == Some(i as int),
            None => first_slash(s@) is None,
        },
{
    find_char(s, '/')
}

/// Character-wise string equality.
pub fn str_eq(a: &str, b: &str) -> (r: bool)
    ensures
        r == (a@ == b@),
{
    let na = a.unicode_len();
    let nb = b.unicode_len();
    if na != nb {
        return false;
    }
    let mut i: usize = 0;
    while i < na
        invariant
            0 <= i <= na,
            na == a@.len(),
            na == b@.len(),
            forall|k: int| 0 <= k < i ==> a@[k] == b@[k],
        decreases na - i,
    {
        if a.get_char(i) != b.get_char(i) {
            return false;
        }
        i += 1;
    }
    proof {
        assert(a@ =~= b@);
    }
    true
}

/// Whether `p` is a prefix of `s`.
pub fn has_prefix(s: &str, p: &str) -> (r: bool)
    ensures
        r == p@.is_prefix_of(s@),
{
    let ns = s.unicode_len();
    let np = p.unicode_len();
    if np > ns {
        return false;
    }
    let mut i: usize = 0;
    while i < np
        invariant
            0 <= i <= np,
            np == p@.len(),
            ns == s@.len(),
            np <= ns,
            forall|k: int| 0 <= k < i ==> s@[k] == p@[k],
        decreases np - i,
    {
        if s.get_char(i) != p.get_char(i) {
            return false;
        }
        i += 1;
    }
    proof {
        assert(s@.subrange(0, p@.len() as int) =~= p@);
    }
    true
}

/// Whether `p` is a suffix of `s`.
pub fn has_suffix(s: &str, p: &str) -> (r: bool)
    ensures
        r == p@.is_suffix_of(s@),
{
    let ns = s.unicode_len();
    let np = p.unicode_len();
    if np > ns {
        return false;
    }
    let off = ns - np;
    let mut i: usize = 0;
    while i < np
        invariant
            0 <= i <= np,
            np == p@.len(),
            ns == s@.len(),
            off == ns - np,
            forall|k: int| 0 <= k < i ==> s@[off + k] == p@[k],
        decreases np - i,
    {
        if s.get_char(off + i) != p.get_char(i) {
            return false;
        }
        i += 1;
    }
    proof {
        assert(s@.subrange(s@.len() - p@.len(), s@.len() as int) =~= p@);
    }
    true
}

/// The characters of `s` from `from` (inclusive) to `to` (exclusive), owned.
pub fn substr(s: &str, from: usize, to: usize) -> (r: String)
    requires
        from <= to <= s@.len(),
    ensures
        r@ == s@.subrange(from as int, to as int),
{
    s.substring_char(from, to).to_owned()
}

/// `a` followed by `b`.
pub fn concat_str(a: &str, b: &str) -> (r: String)
    ensures
        r@ == a@ + b@,
{
    let s = String::from_str(a);
    s.concat(b)
}

} // verus!
