//! Lexicographic order on character sequences (by Unicode scalar value, the
//! corpus's native collation) and a deduplicating sorted insertion, so that
//! the generator's output is strictly ascending and free of duplicates.

use vstd::prelude::*;

verus! {

/// Characters with equal scalar values are equal.
proof fn lemma_char_eq(x: char, y: char)
    requires
        (x as u32) == (y as u32),
    ensures
        x == y,
{
    vstd::utf8::char_u32_cast(x, x as u32);
    vstd::utf8::char_u32_cast(y, y as u32);
}

/// Two non-empty sequences with equal heads and equal tails are equal.
proof fn lemma_cons_eq<T>(a: Seq<T>, b: Seq<T>)
    requires
        a.len() > 0,
        b.len() > 0,
        a[0] == b[0],
        a.drop_first() == b.drop_first(),
    ensures
        a == b,
{
    let at = a.drop_first();
    let bt = b.drop_first();
    assert(at.len() == a.len() - 1);
    assert forall|m: int| 0 <= m < a.len() implies a[m] == b[m] by {
        if m > 0 {
            assert(at[m - 1] == a[m]);
            assert(bt[m - 1] == b[m]);
        }
    }
    assert(a =~= b);
}

/// Strict lexicographic order on character sequences, comparing characters by
/// their Unicode scalar values.
pub open spec fn lex_lt(a: Seq<char>, b: Seq<char>) -> bool
    decreases a.len(),
{
    if b.len() == 0 {
        false
    } else if a.len() == 0 {
        true
    } else if (a[0] as u32) < (b[0] as u32) {
        true
    } else if (b[0] as u32) < (a[0] as u32) {
        false
    } else {
        lex_lt(a.drop_first(), b.drop_first())
    }
}

/// Exactly one of `lex_lt(a, b)`, `a == b`, `lex_lt(b, a)` holds.
pub proof fn lemma_lex_trichotomy(a: Seq<char>, b: Seq<char>)
    ensures
        lex_lt(a, b) ==> a != b && !lex_lt(b, a),
        lex_lt(b, a) ==> a != b && !lex_lt(a, b),
        !lex_lt(a, b) && !lex_lt(b, a) ==> a == b,
    decreases a.len(),
{
    if a.len() == 0 || b.len() == 0 {
        if a.len() == 0 && b.len() == 0 {
            assert(a =~= b);
        } else if a.len() == 0 {
            assert(lex_lt(a, b));
        } else {
            assert(lex_lt(b, a));
        }
    } else if (a[0] as u32) == (b[0] as u32) {
        lemma_char_eq(a[0], b[0]);
        lemma_lex_trichotomy(a.drop_first(), b.drop_first());
        if a.drop_first() == b.drop_first() {
            lemma_cons_eq(a, b);
        }
        if a == b {
            assert(a.drop_first() =~= b.drop_first());
        }
    } else {
        // unequal head scalars: the sequences differ and exactly one of the
        // first two comparisons decides
        if a == b {
        }
    }
}

/// `lex_lt` is transitive.
pub proof fn lemma_lex_trans(a: Seq<char>, b: Seq<char>, c: Seq<char>)
    requires
        lex_lt(a, b),
        lex_lt(b, c),
    ensures
        lex_lt(a, c),
    decreases a.len(),
{
    if a.len() == 0 {
    } else {
        if (a[0] as u32) == (b[0] as u32) && (b[0] as u32) == (c[0] as u32) {
            lemma_lex_trans(a.drop_first(), b.drop_first(), c.drop_first());
        }
    }
}

/// Three-way comparison of two character vectors in lexicographic order:
/// `0` for less, `1` for equal, `2` for greater.
pub fn lex_cmp(a: &Vec<char>, b: &Vec<char>) -> (r: u8)
    ensures
        r == 0 ==> lex_lt(a@, b@),
        r == 1 ==> a@ == b@,
        r == 2 ==> lex_lt(b@, a@),
        r == 0 || r == 1 || r == 2,
{
    let mut i: usize = 0;
    proof {
        assert(a@.skip(0) =~= a@);
        assert(b@.skip(0) =~= b@);
    }
    loop
        invariant
            0 <= i <= a@.len(),
            i <= b@.len(),
            forall|j: int| 0 <= j < i ==> a@[j] == b@[j],
            lex_lt(a@, b@) == lex_lt(a@.skip(i as int), b@.skip(i as int)),
            lex_lt(b@, a@) == lex_lt(b@.skip(i as int), a@.skip(i as int)),
        decreases a@.len() - i,
    {
        proof {
            if i < a@.len() {
                assert(a@.skip(i as int)[0] == a@[i as int]);
                assert(a@.skip(i as int).drop_first() =~= a@.skip(i as int + 1));
            }
            if i < b@.len() {
                assert(b@.skip(i as int)[0] == b@[i as int]);
                assert(b@.skip(i as int).drop_first() =~= b@.skip(i as int + 1));
            }
        }
        if i == a.len() {
            if i == b.len() {
                proof {
                    assert(a@ =~= b@);
                }
                return 1;
            }
            proof {
                assert(a@.skip(i as int) =~= Seq::<char>::empty());
            }
            return 0;
        }
        if i == b.len() {
            proof {
                assert(b@.skip(i as int) =~= Seq::<char>::empty());
            }
            return 2;
        }
        let x = a[i] as u32;
        let y = b[i] as u32;
        if x < y {
            return 0;
        }
        if y < x {
            return 2;
        }
        proof {
            lemma_char_eq(a@[i as int], b@[i as int]);
        }
        i = i + 1;
    }
}

/// A sequence of stems in strictly ascending lexicographic order; strictness
/// also rules out duplicates.
pub open spec fn strictly_sorted(r: Seq<Seq<char>>) -> bool {
    forall|i: int, j: int| 0 <= i < j < r.len() ==> lex_lt(#[trigger] r[i], #[trigger] r[j])
}

/// Inserting a stem between its strict lower and upper neighbours keeps the
/// sequence strictly sorted and adds exactly that stem to the contents.
proof fn lemma_insert_sorted(r0: Seq<Seq<char>>, k: int, stem: Seq<char>)
    requires
        strictly_sorted(r0),
        0 <= k <= r0.len(),
        forall|i: int| 0 <= i < k ==> lex_lt(#[trigger] r0[i], stem),
        k < r0.len() ==> lex_lt(stem, r0[k]),
    ensures
        strictly_sorted(r0.insert(k, stem)),
        r0.insert(k, stem).to_set() == r0.to_set().insert(stem),
{
    let r1 = r0.insert(k, stem);
    assert forall|i: int, j: int| 0 <= i < j < r1.len() implies lex_lt(
        #[trigger] r1[i],
        #[trigger] r1[j],
    ) by {
        if i == k && j > k {
            if j - 1 > k {
                lemma_lex_trans(stem, r0[k], r0[j - 1]);
            }
        }
    }
    assert(r1.to_set() =~= r0.to_set().insert(stem)) by {
        assert forall|s: Seq<char>| r1.to_set().contains(s) implies r0.to_set().insert(
            stem,
        ).contains(s) by {
            let i = choose|i: int| 0 <= i < r1.len() && r1[i] == s;
            if i < k {
                assert(r0[i] == s);
            } else if i > k {
                assert(r0[i - 1] == s);
            }
        }
        assert forall|s: Seq<char>| r0.to_set().insert(stem).contains(s) implies r1.to_set()
            .contains(s) by {
            if s == stem {
                assert(r1[k] == s);
            } else {
                let i = choose|i: int| 0 <= i < r0.len() && r0[i] == s;
                if i < k {
                    assert(r1[i] == s);
                } else {
                    assert(r1[i + 1] == s);
                }
            }
        }
    }
}

/// Insert a stem into a strictly sorted vector, keeping it strictly sorted;
/// a stem already present is dropped, so the contents grow by at most the
/// one element.
pub fn insert_sorted(result: &mut Vec<Vec<char>>, stem: Vec<char>)
    requires
        strictly_sorted(old(result).deep_view()),
    ensures
        strictly_sorted(final(result).deep_view()),
        final(result).deep_view().to_set() == old(result).deep_view().to_set().insert(stem@),
{
    let ghost r0 = old(result).deep_view();
    let mut k: usize = 0;
    loop
        invariant
            0 <= k <= result@.len(),
            *result == *old(result),
            strictly_sorted(r0),
            r0 == old(result).deep_view(),
            forall|i: int| 0 <= i < k ==> lex_lt(#[trigger] r0[i], stem@),
        decreases result@.len() - k,
    {
        if k == result.len() {
            proof {
                lemma_insert_sorted(r0, k as int, stem@);
            }
            result.insert(k, stem);
            proof {
                assert(result.deep_view() =~~= r0.insert(k as int, stem@));
            }
            return ;
        }
        let c = lex_cmp(&result[k], &stem);
        proof {
            assert(result.deep_view()[k as int] == result@[k as int]@);
        }
        if c == 1 {
            // already present: the contents do not change
            proof {
                assert(r0.to_set().contains(stem@));
                assert(r0.to_set() =~= r0.to_set().insert(stem@));
            }
            return ;
        }
        if c == 2 {
            // the stem sorts strictly before the rest: insert it here
            proof {
                lemma_insert_sorted(r0, k as int, stem@);
            }
            result.insert(k, stem);
            proof {
                assert(result.deep_view() =~~= r0.insert(k as int, stem@));
            }
            return ;
        }
        k = k + 1;
    }
}

/// A strictly sorted sequence holds no stem twice.
pub proof fn lemma_sorted_no_duplicates(r: Seq<Seq<char>>)
    requires
        strictly_sorted(r),
    ensures
        forall|i: int, j: int| 0 <= i < j < r.len() ==> r[i] != r[j],
{
    assert forall|i: int, j: int| 0 <= i < j < r.len() implies r[i] != r[j] by {
        lemma_lex_trichotomy(r[i], r[j]);
    }
}

/// Two strictly sorted sequences holding the same set of stems are equal:
/// the sorted, deduplicated output of the generator is determined by its
/// contents alone.
pub proof fn lemma_sorted_set_unique(a: Seq<Seq<char>>, b: Seq<Seq<char>>)
    requires
        strictly_sorted(a),
        strictly_sorted(b),
        a.to_set() == b.to_set(),
    ensures
        a == b,
    decreases a.len(),
{
    if a.len() == 0 {
        if b.len() > 0 {
            assert(b.to_set().contains(b[0]));
            assert(a.to_set().contains(b[0]));
        }
        assert(a =~= b);
    } else if b.len() == 0 {
        assert(a.to_set().contains(a[0]));
        assert(b.to_set().contains(a[0]));
    } else {
        // both heads are the unique minimum of the common contents
        assert(a.to_set().contains(a[0]));
        assert(b.to_set().contains(b[0]));
        assert(b.to_set().contains(a[0]));
        assert(a.to_set().contains(b[0]));
        let i = choose|i: int| 0 <= i < b.len() && b[i] == a[0];
        let j = choose|j: int| 0 <= j < a.len() && a[j] == b[0];
        lemma_lex_trichotomy(a[0], b[0]);
        if lex_lt(a[0], b[0]) {
            // a[0] sits in b at i, so b[0] <= b[i] == a[0]: impossible
            if i > 0 {
                lemma_lex_trichotomy(b[0], b[i]);
                lemma_lex_trans(a[0], b[0], b[i]);
            }
            assert(false);
        } else if lex_lt(b[0], a[0]) {
            if j > 0 {
                lemma_lex_trichotomy(a[0], a[j]);
                lemma_lex_trans(b[0], a[0], a[j]);
            }
            assert(false);
        }
        assert(a[0] == b[0]);
        let at = a.drop_first();
        let bt = b.drop_first();
        assert(at.to_set() =~= bt.to_set()) by {
            assert forall|s: Seq<char>| at.to_set().contains(s) implies bt.to_set().contains(
                s,
            ) by {
                let x = choose|x: int| 0 <= x < at.len() && at[x] == s;
                assert(a[x + 1] == s);
                assert(lex_lt(a[0], s));
                lemma_lex_trichotomy(a[0], s);
                assert(b.to_set().contains(s));
                let y = choose|y: int| 0 <= y < b.len() && b[y] == s;
                assert(y != 0);
                assert(bt[y - 1] == s);
            }
            assert forall|s: Seq<char>| bt.to_set().contains(s) implies at.to_set().contains(
                s,
            ) by {
                let x = choose|x: int| 0 <= x < bt.len() && bt[x] == s;
                assert(b[x + 1] == s);
                assert(lex_lt(b[0], s));
                lemma_lex_trichotomy(b[0], s);
                assert(a.to_set().contains(s));
                let y = choose|y: int| 0 <= y < a.len() && a[y] == s;
                assert(y != 0);
                assert(at[y - 1] == s);
            }
        }
        lemma_sorted_set_unique(at, bt);
        lemma_cons_eq(a, b);
    }
}

} // verus!
