//! Text normalization and OCR-tolerant comparison of card names and series.
use vstd::prelude::*;

use crate::normalize::norm_text;
use crate::text::chars_of;

verus! {

// ---------------------------------------------------------------------------
// Comparison
// ---------------------------------------------------------------------------

/// `a` equals `b`, or, for a truncated `b`, starts with it.
pub open spec fn equal_spec(a: Seq<char>, b: Seq<char>, truncated: bool) -> bool {
    if truncated {
        b.len() <= a.len() && a.subrange(0, b.len() as int) == b
    } else {
        a == b
    }
}

pub open spec fn is_pair(c1: char, c2: char, x: char, y: char) -> bool {
    (c1 == x && c2 == y) || (c1 == y && c2 == x)
}

/// Two characters that OCR commonly mistakes for one another.
/// A vertical bar or a right single quote stands in for anything.
pub open spec fn confusable(c1: char, c2: char) -> bool {
    ||| c1 == '|' || c2 == '|'
    ||| c1 == '’' || c2 == '’'
    ||| is_pair(c1, c2, 'o', '0')
    ||| is_pair(c1, c2, 'l', 'i')
    ||| is_pair(c1, c2, '1', ']')
    ||| is_pair(c1, c2, 'y', 'v')
    ||| is_pair(c1, c2, '$', 's')
    ||| is_pair(c1, c2, 'i', '!')
    ||| is_pair(c1, c2, 's', '5')
    ||| is_pair(c1, c2, '©', 'o')
    ||| is_pair(c1, c2, '1', 'i')
    ||| is_pair(c1, c2, 'a', 'é')
}

/// Position `k` lies in both strings and holds different characters there.
pub open spec fn differs_at(a: Seq<char>, b: Seq<char>, k: int) -> bool {
    0 <= k < a.len() && k < b.len() && a[k] != b[k]
}

/// `k` is the one position, among those the two strings share, where they differ.
pub open spec fn sole_diff(a: Seq<char>, b: Seq<char>, k: int) -> bool {
    differs_at(a, b, k) && forall|j: int| #[trigger] differs_at(a, b, j) ==> j == k
}

/// Equal (or prefix-equal for a truncated `b`), or equal after dropping the one
/// differing position, where that position holds a confusable pair.
pub open spec fn match_spec(a: Seq<char>, b: Seq<char>, truncated: bool) -> bool {
    ||| equal_spec(a, b, truncated)
    ||| exists|k: int|
        #[trigger] sole_diff(a, b, k) && confusable(a[k], b[k]) && equal_spec(
            a.remove(k),
            b.remove(k),
            truncated,
        )
}

pub fn is_confusable(c1: char, c2: char) -> (r: bool)
    ensures
        r == confusable(c1, c2),
{
    c1 == '|' || c2 == '|' || c1 == '’' || c2 == '’' || pair(c1, c2, 'o', '0') || pair(
        c1,
        c2,
        'l',
        'i',
    ) || pair(c1, c2, '1', ']') || pair(c1, c2, 'y', 'v') || pair(c1, c2, '$', 's') || pair(
        c1,
        c2,
        'i',
        '!',
    ) || pair(c1, c2, 's', '5') || pair(c1, c2, '©', 'o') || pair(c1, c2, '1', 'i') || pair(
        c1,
        c2,
        'a',
        'é',
    )
}

fn pair(c1: char, c2: char, x: char, y: char) -> (r: bool)
    ensures
        r == is_pair(c1, c2, x, y),
{
    (c1 == x && c2 == y) || (c1 == y && c2 == x)
}

pub fn equal_chars(a: &Vec<char>, b: &Vec<char>, truncated: bool) -> (r: bool)
    ensures
        r == equal_spec(a@, b@, truncated),
{
    if truncated {
        if b.len() > a.len() {
            return false;
        }
    } else if a.len() != b.len() {
        return false;
    }
    let mut i: usize = 0;
    while i < b.len()
        invariant
            b.len() <= a.len(),
            !truncated ==> a.len() == b.len(),
            i <= b.len(),
            forall|j: int| 0 <= j < i ==> a@[j] == b@[j],
        decreases b.len() - i,
    {
        if a[i] != b[i] {
            return false;
        }
        i += 1;
    }
    assert(a@.subrange(0, b@.len() as int) =~= b@);
    proof {
        if !truncated {
            assert(a@ =~= b@);
        }
    }
    true
}

/// A copy of `v` without the character at `k`.
fn without(v: &Vec<char>, k: usize) -> (r: Vec<char>)
    requires
        k < v.len(),
    ensures
        r@ == v@.remove(k as int),
{
    let mut r: Vec<char> = Vec::new();
    let mut i: usize = 0;
    while i < v.len()
        invariant
            k < v.len(),
            i <= v.len(),
            i <= k ==> r@ == v@.subrange(0, i as int),
            i > k ==> r@ == v@.subrange(0, k as int) + v@.subrange(k + 1, i as int),
        decreases v.len() - i,
    {
        if i != k {
            r.push(v[i]);
        }
        proof {
            if i < k {
                assert(v@.subrange(0, i + 1) =~= v@.subrange(0, i as int).push(v@[i as int]));
            } else if i == k {
                assert(v@.subrange(k + 1, i + 1) =~= Seq::<char>::empty());
                assert(r@ =~= v@.subrange(0, k as int) + v@.subrange(k + 1, i + 1));
            } else {
                assert(v@.subrange(k + 1, i + 1) =~= v@.subrange(k + 1, i as int).push(
                    v@[i as int],
                ));
                assert(r@ =~= v@.subrange(0, k as int) + v@.subrange(k + 1, i + 1));
            }
        }
        i += 1;
    }
    assert(r@ =~= v@.remove(k as int));
    r
}

pub fn match_chars(a: &Vec<char>, b: &Vec<char>, truncated: bool) -> (r: bool)
    ensures
        r == match_spec(a@, b@, truncated),
{
    if equal_chars(a, b, truncated) {
        return true;
    }
    let m: usize = if a.len() < b.len() {
        a.len()
    } else {
        b.len()
    };
    let mut found: Option<usize> = None;
    let mut i: usize = 0;
    while i < m
        invariant
            i <= m,
            m <= a.len(),
            m <= b.len(),
            m == a.len() || m == b.len(),
            found is None ==> forall|j: int| 0 <= j < i ==> !differs_at(a@, b@, j),
            found matches Some(k) ==> (k < i && differs_at(a@, b@, k as int) && forall|j: int|
                0 <= j < i && j != k ==> !differs_at(a@, b@, j)),
        decreases m - i,
    {
        if a[i] != b[i] {
            match found {
                Some(k) => {
                    proof {
                        assert(differs_at(a@, b@, i as int));
                        assert forall|k2: int| !sole_diff(a@, b@, k2) by {
                            if sole_diff(a@, b@, k2) {
                                assert(differs_at(a@, b@, k as int));
                            }
                        }
                    }
                    return false;
                },
                None => {
                    found = Some(i);
                },
            }
        }
        i += 1;
    }
    match found {
        None => {
            proof {
                assert forall|k2: int| !sole_diff(a@, b@, k2) by {
                    if sole_diff(a@, b@, k2) {
                        assert(differs_at(a@, b@, k2));
                    }
                }
            }
            false
        },
        Some(k) => {
            assert forall|j: int| #[trigger] differs_at(a@, b@, j) implies j == k by {}
            assert(sole_diff(a@, b@, k as int));
            if !is_confusable(a[k], b[k]) {
                return false;
            }
            let a2 = without(a, k);
            let b2 = without(b, k);
            equal_chars(&a2, &b2, truncated)
        },
    }
}

/// Whether `character` equals `card`, or starts with it where `card` was truncated.
pub fn check_equal(character: &String, card: &String, is_dot: &bool) -> (r: bool)
    ensures
        r == equal_spec(character@, card@, *is_dot),
{
    let a = chars_of(character.as_str());
    let b = chars_of(card.as_str());
    equal_chars(&a, &b, *is_dot)
}

/// Whether `character` and `card` agree up to one confusable misread.
pub fn check_match(character: &String, card: &String, is_dot: &bool) -> (r: bool)
    ensures
        r == match_spec(character@, card@, *is_dot),
{
    let a = chars_of(character.as_str());
    let b = chars_of(card.as_str());
    match_chars(&a, &b, *is_dot)
}

/// Every string equals itself, as do the comparable texts that normalization
/// produces, and each also matches itself.
pub proof fn lemma_check_equal_reflexive(s: Seq<char>)
    ensures
        equal_spec(s, s, false),
        match_spec(s, s, false),
        equal_spec(norm_text(s), norm_text(s), false),
        match_spec(norm_text(s), norm_text(s), false),
{
}

/// Two strings that differ at two or more shared positions never match, whatever
/// characters differ there and whether or not the second is truncated.
pub proof fn lemma_match_needs_one_difference(
    a: Seq<char>,
    b: Seq<char>,
    truncated: bool,
    i: int,
    j: int,
)
    requires
        differs_at(a, b, i),
        differs_at(a, b, j),
        i != j,
    ensures
        !match_spec(a, b, truncated),
{
    if truncated && b.len() <= a.len() {
        assert(a.subrange(0, b.len() as int)[i] == a[i]);
    }
    assert forall|k: int| !sole_diff(a, b, k) by {
        if sole_diff(a, b, k) {
            assert(differs_at(a, b, i) && differs_at(a, b, j));
        }
    }
}

} // verus!
