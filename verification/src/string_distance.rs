//! Title normalization and fuzzy similarity scoring.
//!
//! A raw title is canonicalized by keeping only its ASCII letters and digits,
//! lowercased; two titles are then compared by Levenshtein edit distance over
//! the canonical forms.

use vstd::prelude::*;

verus! {

/// A character survives normalization iff it is an ASCII letter or digit.
pub open spec fn is_kept_char(c: char) -> bool {
    (97 <= c as u32 && c as u32 <= 122)  // 'a'..='z'
    || (65 <= c as u32 && c as u32 <= 90)  // 'A'..='Z'
    || (48 <= c as u32 && c as u32 <= 57)  // '0'..='9'
}

/// ASCII uppercase letters map to their lowercase counterpart; everything
/// else is unchanged.
pub open spec fn to_lower_char(c: char) -> char {
    if 65 <= c as u32 && c as u32 <= 90 {
        ((c as u32 + 32) as char)
    } else {
        c
    }
}

/// The canonical form of a title: ASCII letters and digits only, lowercased,
/// in the order they appear. Punctuation, whitespace and non-ASCII characters
/// are dropped.
pub open spec fn normalize_seq(s: Seq<char>) -> Seq<char>
    decreases s.len(),
{
    if s.len() == 0 {
        Seq::empty()
    } else {
        let rest = normalize_seq(s.drop_last());
        if is_kept_char(s.last()) {
            rest.push(to_lower_char(s.last()))
        } else {
            rest
        }
    }
}

/// The least of three naturals.
pub open spec fn min3(a: nat, b: nat, c: nat) -> nat {
    if a <= b && a <= c {
        a
    } else if b <= c {
        b
    } else {
        c
    }
}

/// Levenshtein edit distance between two character sequences: the least
/// number of single-character insertions, deletions and substitutions that
/// turns one into the other (Wagner-Fischer recurrence).
pub open spec fn lev(a: Seq<char>, b: Seq<char>) -> nat
    decreases a.len() + b.len(),
{
    if a.len() == 0 {
        b.len()
    } else if b.len() == 0 {
        a.len()
    } else {
        let sub: nat = if a.last() == b.last() {
            0
        } else {
            1
        };
        min3(
            lev(a.drop_last(), b) + 1,
            lev(a, b.drop_last()) + 1,
            lev(a.drop_last(), b.drop_last()) + sub,
        )
    }
}

/// Edit distance between the length-`i` prefix of `a` and the length-`j`
/// prefix of `b`: the cell of the standard dynamic-programming table.
pub open spec fn dist(a: Seq<char>, b: Seq<char>, i: int, j: int) -> nat {
    lev(a.take(i), b.take(j))
}

/// Against an empty prefix the distance is the other prefix's length.
proof fn lemma_dist_empty(a: Seq<char>, b: Seq<char>, i: int, j: int)
    requires
        0 <= i <= a.len(),
        0 <= j <= b.len(),
    ensures
        dist(a, b, 0, j) == j,
        dist(a, b, i, 0) == i,
{
    assert(a.take(0) =~= Seq::<char>::empty());
    assert(b.take(0) =~= Seq::<char>::empty());
    assert(a.take(i).len() == i);
    assert(b.take(j).len() == j);
    reveal_with_fuel(lev, 2);
}

/// The distance never exceeds the longer of the two sequences: substituting
/// along the shorter and inserting the rest always suffices.
proof fn lemma_lev_bound(a: Seq<char>, b: Seq<char>)
    ensures
        lev(a, b) <= a.len() + b.len(),
        a.len() <= b.len() ==> lev(a, b) <= b.len(),
        b.len() <= a.len() ==> lev(a, b) <= a.len(),
    decreases a.len() + b.len(),
{
    if a.len() == 0 || b.len() == 0 {
    } else {
        lemma_lev_bound(a.drop_last(), b);
        lemma_lev_bound(a, b.drop_last());
        lemma_lev_bound(a.drop_last(), b.drop_last());
    }
}

/// One step of the dynamic-programming recurrence, stated over table cells.
proof fn lemma_dist_step(a: Seq<char>, b: Seq<char>, i: int, j: int)
    requires
        0 <= i < a.len(),
        0 <= j < b.len(),
    ensures
        dist(a, b, i + 1, j + 1) == min3(
            dist(a, b, i, j + 1) + 1,
            dist(a, b, i + 1, j) + 1,
            dist(a, b, i, j) + (if a[i] == b[j] {
                0nat
            } else {
                1nat
            }),
        ),
{
    let x = a.take(i + 1);
    let y = b.take(j + 1);
    assert(x.len() == i + 1 && y.len() == j + 1);
    assert(x.last() == a[i]);
    assert(y.last() == b[j]);
    assert(x.drop_last() =~= a.take(i));
    assert(y.drop_last() =~= b.take(j));
}

/// Relies on String::push: appends the given char to the end of the string.
#[verifier::external_body]
fn push_char(s: &mut String, c: char)
    ensures
        final(s)@ == old(s)@.push(c),
{
    s.push(c)
}

/// Canonicalize a title for comparison: keep only ASCII letters and digits,
/// lowercased. Total; an all-punctuation input yields the empty string.
pub fn clean_string(s: &str) -> (r: String)
    ensures
        r@ == normalize_seq(s@),
{
    let n = s.unicode_len();
    let mut r = String::new();
    let mut i: usize = 0;
    while i < n
        invariant
            i <= n,
            n == s@.len(),
            r@ == normalize_seq(s@.take(i as int)),
        decreases n - i,
    {
        let c = s.get_char(i);
        let u = c as u32;
        proof {
            assert(s@.take(i as int + 1).drop_last() =~= s@.take(i as int));
            assert(s@.take(i as int + 1).last() == s@[i as int]);
        }
        if (97 <= u && u <= 122) || (48 <= u && u <= 57) {
            push_char(&mut r, c);
        } else if 65 <= u && u <= 90 {
            let lc = ((c as u8) + 32) as char;
            assert(lc == to_lower_char(c));
            push_char(&mut r, lc);
        }
        i += 1;
    }
    proof {
        assert(s@.take(n as int) =~= s@);
    }
    r
}

/// Levenshtein distance between two strings, counted over characters, by the
/// classic single-row dynamic program.
pub fn get_distance(s1: &str, s2: &str) -> (r: usize)
    ensures
        r == lev(s1@, s2@),
{
    let length_1 = s1.unicode_len();
    let length_2 = s2.unicode_len();

    if length_1 == 0 {
        proof {
            assert(s1@ =~= Seq::<char>::empty());
        }
        return length_2;
    }
    if length_2 == 0 {
        proof {
            assert(s2@ =~= Seq::<char>::empty());
        }
        return length_1;
    }

    let mut cache: Vec<usize> = Vec::new();
    let mut k: usize = 0;
    while k < length_1
        invariant
            k <= length_1,
            length_1 == s1@.len(),
            length_1 >= 1,
            cache@.len() == k,
            forall|t: int| 0 <= t < k ==> cache@[t] == t + 1,
        decreases length_1 - k,
    {
        cache.push(k + 1);
        k += 1;
    }

    let mut result: usize = 0;
    let mut j: usize = 0;
    while j < length_2
        invariant
            length_1 == s1@.len(),
            length_2 == s2@.len(),
            1 <= length_1,
            1 <= length_2,
            j <= length_2,
            cache@.len() == length_1,
            forall|t: int|
                0 <= t < length_1 ==> cache@[t] == dist(s1@, s2@, t + 1, j as int),
            j > 0 ==> result == dist(s1@, s2@, length_1 as int, j as int),
        decreases length_2 - j,
    {
        proof {
            lemma_dist_empty(s1@, s2@, 0, j as int);
        }
        let char_2 = s2.get_char(j);
        result = j;
        let mut distance_1: usize = j;
        let mut i: usize = 0;
        while i < length_1
            invariant
                length_1 == s1@.len(),
                length_2 == s2@.len(),
                1 <= length_1,
                j < length_2,
                i <= length_1,
                char_2 == s2@[j as int],
                cache@.len() == length_1,
                distance_1 == dist(s1@, s2@, i as int, j as int),
                i == 0 ==> result == j,
                i > 0 ==> result == dist(s1@, s2@, i as int, j as int + 1),
                forall|t: int|
                    i <= t < length_1 ==> cache@[t] == dist(s1@, s2@, t + 1, j as int),
                forall|t: int|
                    0 <= t < i ==> cache@[t] == dist(s1@, s2@, t + 1, j as int + 1),
            decreases length_1 - i,
        {
            let char_1 = s1.get_char(i);
            let ghost sub: nat = if s1@[i as int] == s2@[j as int] {
                0nat
            } else {
                1nat
            };
            proof {
                lemma_dist_step(s1@, s2@, i as int, j as int);
                lemma_dist_empty(s1@, s2@, 0, j as int + 1);
                lemma_lev_bound(s1@.take(i as int + 1), s2@.take(j as int + 1));
                lemma_lev_bound(s1@.take(i as int), s2@.take(j as int + 1));
            }
            let ghost d_next: nat = dist(s1@, s2@, i as int + 1, j as int + 1);
            let distance_2 = if char_1 == char_2 {
                distance_1
            } else {
                proof {
                    lemma_lev_bound(s1@.take(i as int), s2@.take(j as int));
                }
                distance_1 + 1
            };
            distance_1 = cache[i];
            proof {
                // The row value carried in `result` stands in for the cell
                // above-left of the one being computed; when `i == 0` the
                // substitution term is at most `j + 1`, so starting the row
                // at `j` instead of `j + 1` yields the same minimum.
                assert(distance_2 == dist(s1@, s2@, i as int, j as int) + sub);
                assert(d_next <= s1@.take(i as int + 1).len() + s2@.take(
                    j as int + 1,
                ).len());
            }
            result = if distance_1 > result {
                if distance_2 > result {
                    result + 1
                } else {
                    distance_2
                }
            } else if distance_2 > distance_1 {
                distance_1 + 1
            } else {
                distance_2
            };
            proof {
                assert(result == d_next);
            }
            cache[i] = result;
            i += 1;
        }
        j += 1;
    }
    proof {
        assert(s1@.take(length_1 as int) =~= s1@);
        assert(s2@.take(length_2 as int) =~= s2@);
    }
    result
}

/// Exact, case-sensitive string equality, character by character: the exact
/// matching policy's comparison.
pub fn str_eq(a: &str, b: &str) -> (r: bool)
    ensures
        r == (a@ == b@),
{
    let n = a.unicode_len();
    let m = b.unicode_len();
    if n != m {
        return false;
    }
    let mut i: usize = 0;
    while i < n
        invariant
            i <= n,
            n == a@.len(),
            n == b@.len(),
            forall|t: int| 0 <= t < i ==> a@[t] == b@[t],
        decreases n - i,
    {
        if a.get_char(i) != b.get_char(i) {
            return false;
        }
        i += 1;
    }
    proof {
        assert(a@ =~= b@);
    }
    true
}

/// The two numbers a similarity percentage is built from: the edit distance
/// between the canonical forms, and the longer canonical length. The caller
/// derives the percentage as `100 * (1 - distance / max_len)`, guarding the
/// case where both canonical forms are empty (`max_len == 0`), in which the
/// percentage is undefined and must not be computed.
pub open spec fn similarity_parts(a: Seq<char>, b: Seq<char>) -> (nat, nat) {
    let na = normalize_seq(a);
    let nb = normalize_seq(b);
    (lev(na, nb), if na.len() >= nb.len() {
        na.len()
    } else {
        nb.len()
    })
}

/// Distance and longer length of the canonical forms of two raw titles; the
/// similarity percentage is `100 * (1 - r.0 / r.1)` whenever `r.1 > 0`.
pub fn calc_similarity(s1: &str, s2: &str) -> (r: (usize, usize))
    ensures
        r.0 == similarity_parts(s1@, s2@).0,
        r.1 == similarity_parts(s1@, s2@).1,
        r.0 <= r.1,
{
    let c1 = clean_string(s1);
    let c2 = clean_string(s2);
    let length_1 = c1.as_str().unicode_len();
    let length_2 = c2.as_str().unicode_len();
    let result = get_distance(c1.as_str(), c2.as_str());
    let max_length = if length_1 >= length_2 {
        length_1
    } else {
        length_2
    };
    proof {
        lemma_lev_bound(c1@, c2@);
    }
    (result, max_length)
}

/// A string is at edit distance zero from itself, so a title always has
/// similarity 100 percent with itself whenever the percentage is defined.
pub proof fn lemma_lev_self(s: Seq<char>)
    ensures
        lev(s, s) == 0,
    decreases s.len(),
{
    if s.len() > 0 {
        lemma_lev_self(s.drop_last());
        lemma_lev_bound(s.drop_last(), s);
        lemma_lev_bound(s, s.drop_last());
    }
}

/// Similarity of a title with itself: the distance part is zero and the
/// length part is the canonical length, for every input string.
pub proof fn lemma_similarity_self(s: Seq<char>)
    ensures
        similarity_parts(s, s).0 == 0,
        similarity_parts(s, s).1 == normalize_seq(s).len(),
{
    lemma_lev_self(normalize_seq(s));
}

/// Edit distance is symmetric in its two arguments.
pub proof fn lemma_lev_symmetric(a: Seq<char>, b: Seq<char>)
    ensures
        lev(a, b) == lev(b, a),
    decreases a.len() + b.len(),
{
    if a.len() > 0 && b.len() > 0 {
        lemma_lev_symmetric(a.drop_last(), b);
        lemma_lev_symmetric(a, b.drop_last());
        lemma_lev_symmetric(a.drop_last(), b.drop_last());
    }
}

/// Similarity is symmetric: both the distance and the length part are
/// unchanged when the two titles are swapped.
pub proof fn lemma_similarity_symmetric(a: Seq<char>, b: Seq<char>)
    ensures
        similarity_parts(a, b) == similarity_parts(b, a),
{
    lemma_lev_symmetric(normalize_seq(a), normalize_seq(b));
}

} // verus!
