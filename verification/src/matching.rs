//! The match pattern: a stem matches a digit sequence when its letters, read
//! left to right with vowel runs skipped, are exactly one consonant from each
//! digit's class, in order. A corpus line yields a stem when it carries the
//! eligible tag and some suffix of its word part matches; the leftmost such
//! suffix is the stem.

use vstd::prelude::*;

use crate::phonetic::{in_class, in_class_exec, is_vowel, spec_is_vowel, valid_digits};

verus! {

/// Whether the segment `s`, with vowels skipped, consists of exactly one
/// class letter per digit of `digits`, in order.
pub open spec fn proj_matches(s: Seq<char>, digits: Seq<char>) -> bool
    decreases s.len(),
{
    if s.len() == 0 {
        digits.len() == 0
    } else if spec_is_vowel(s[0]) {
        proj_matches(s.drop_first(), digits)
    } else {
        digits.len() > 0 && in_class(s[0], digits[0]) && proj_matches(
            s.drop_first(),
            digits.drop_first(),
        )
    }
}

/// The consonant skeleton of a segment: its letters with all vowels removed.
pub open spec fn project(s: Seq<char>) -> Seq<char>
    decreases s.len(),
{
    if s.len() == 0 {
        Seq::empty()
    } else if spec_is_vowel(s[0]) {
        project(s.drop_first())
    } else {
        seq![s[0]] + project(s.drop_first())
    }
}

/// Matching is exactly: the projection of the segment has one letter per
/// digit, and each letter, positionally, lies in that digit's class.
pub proof fn lemma_match_is_projection(s: Seq<char>, digits: Seq<char>)
    ensures
        proj_matches(s, digits) <==> (project(s).len() == digits.len() && forall|i: int|
            0 <= i < digits.len() ==> in_class(project(s)[i], #[trigger] digits[i])),
    decreases s.len(),
{
    if s.len() == 0 {
    } else if spec_is_vowel(s[0]) {
        lemma_match_is_projection(s.drop_first(), digits);
    } else {
        let t = s.drop_first();
        let dt = digits.drop_first();
        lemma_match_is_projection(t, dt);
        assert(project(s) == seq![s[0]] + project(t));
        if proj_matches(s, digits) {
            assert forall|i: int| 0 <= i < digits.len() implies in_class(
                project(s)[i],
                #[trigger] digits[i],
            ) by {
                if i == 0 {
                    assert(project(s)[0] == s[0]);
                } else {
                    assert(project(s)[i] == project(t)[i - 1]);
                    assert(dt[i - 1] == digits[i]);
                }
            }
        } else if project(s).len() == digits.len() {
            // the projection form must fail as well: find the failing reason
            if digits.len() > 0 && in_class(s[0], digits[0]) {
                assert(!proj_matches(t, dt));
                if project(t).len() == dt.len() {
                    let j = choose|j: int|
                        0 <= j < dt.len() && !in_class(project(t)[j], dt[j]);
                    assert(project(s)[j + 1] == project(t)[j]);
                    assert(digits[j + 1] == dt[j]);
                }
            } else if digits.len() > 0 {
                assert(project(s)[0] == s[0]);
            }
        }
    }
}

/// The first position `q >= p` of `word` at which the suffix-to-end segment
/// `word[q..]` matches `digits`; `None` when no position from `p` on matches.
pub open spec fn first_match_from(word: Seq<char>, digits: Seq<char>, p: int) -> Option<int>
    decreases word.len() - p + 1,
{
    if p < 0 || p > word.len() {
        None
    } else if proj_matches(word.skip(p), digits) {
        Some(p)
    } else {
        first_match_from(word, digits, p + 1)
    }
}

/// What a first match means: it matches, nothing earlier (from `p` on) does,
/// and `None` means nothing from `p` on matches at all.
pub proof fn lemma_first_match_from(word: Seq<char>, digits: Seq<char>, p: int)
    requires
        0 <= p,
    ensures
        match first_match_from(word, digits, p) {
            Some(q) => p <= q <= word.len() && proj_matches(word.skip(q), digits) && forall|r: int|
                p <= r < q ==> !proj_matches(word.skip(r), digits),
            None => forall|r: int| p <= r <= word.len() ==> !proj_matches(word.skip(r), digits),
        },
    decreases word.len() - p + 1,
{
    if p > word.len() {
    } else if proj_matches(word.skip(p), digits) {
    } else {
        lemma_first_match_from(word, digits, p + 1);
    }
}

/// Decide whether the segment `line[p..wl]` matches `digits`.
fn segment_matches(line: &Vec<char>, p: usize, wl: usize, digits: &Vec<char>) -> (b: bool)
    requires
        p <= wl <= line@.len(),
        valid_digits(digits@),
    ensures
        b == proj_matches(line@.subrange(p as int, wl as int), digits@),
{
    let mut j: usize = p;
    let mut k: usize = 0;
    proof {
        assert(digits@.skip(0) =~= digits@);
    }
    loop
        invariant
            p <= j <= wl <= line@.len(),
            0 <= k <= digits@.len(),
            valid_digits(digits@),
            proj_matches(line@.subrange(p as int, wl as int), digits@) == proj_matches(
                line@.subrange(j as int, wl as int),
                digits@.skip(k as int),
            ),
        decreases wl - j,
    {
        if j == wl {
            assert(line@.subrange(j as int, wl as int) =~= Seq::<char>::empty());
            return k == digits.len();
        }
        let c = line[j];
        proof {
            assert(line@.subrange(j as int, wl as int).drop_first() =~= line@.subrange(
                j as int + 1,
                wl as int,
            ));
            assert(line@.subrange(j as int, wl as int)[0] == line@[j as int]);
        }
        if is_vowel(c) {
            j = j + 1;
        } else {
            if k < digits.len() && in_class_exec(c, digits[k]) {
                proof {
                    assert(digits@.skip(k as int).drop_first() =~= digits@.skip(k as int + 1));
                    assert(digits@.skip(k as int)[0] == digits@[k as int]);
                }
                j = j + 1;
                k = k + 1;
            } else {
                proof {
                    if k == digits@.len() {
                        assert(digits@.skip(k as int) =~= Seq::<char>::empty());
                    } else {
                        assert(digits@.skip(k as int)[0] == digits@[k as int]);
                    }
                }
                return false;
            }
        }
    }
}

/// Find the leftmost position of `line[..wl]` from which the rest of the
/// word matches `digits`.
fn find_first_match(line: &Vec<char>, wl: usize, digits: &Vec<char>) -> (r: Option<usize>)
    requires
        wl <= line@.len(),
        valid_digits(digits@),
    ensures
        match r {
            Some(p) => p <= wl && first_match_from(line@.take(wl as int), digits@, 0) == Some(
                p as int,
            ),
            None => first_match_from(line@.take(wl as int), digits@, 0) is None,
        },
{
    let ghost word = line@.take(wl as int);
    let mut p: usize = 0;
    loop
        invariant
            0 <= p <= wl <= line@.len(),
            valid_digits(digits@),
            word == line@.take(wl as int),
            first_match_from(word, digits@, 0) == first_match_from(word, digits@, p as int),
        decreases wl - p + 1,
    {
        let b = segment_matches(line, p, wl, digits);
        proof {
            assert(line@.subrange(p as int, wl as int) =~= word.skip(p as int));
        }
        if b {
            return Some(p);
        }
        if p == wl {
            proof {
                assert(first_match_from(word, digits@, wl as int + 1) is None);
            }
            return None;
        }
        p = p + 1;
    }
}

/// The stem a corpus line yields for `digits`: present when the line carries
/// the eligible tag `":S"` and some suffix of its word part matches, and then
/// equal to the leftmost matching suffix.
pub open spec fn spec_line_stem(line: Seq<char>, digits: Seq<char>) -> Option<Seq<char>> {
    if line.len() >= 2 && line[line.len() - 2] == ':' && line[line.len() - 1] == 'S' {
        let word = line.take(line.len() - 2);
        match first_match_from(word, digits, 0) {
            Some(p) => Some(word.skip(p)),
            None => None,
        }
    } else {
        None
    }
}

/// Extract the stem of one corpus line, if any.
pub fn line_stem(line: &Vec<char>, digits: &Vec<char>) -> (r: Option<Vec<char>>)
    requires
        valid_digits(digits@),
    ensures
        match r {
            Some(v) => spec_line_stem(line@, digits@) == Some(v@),
            None => spec_line_stem(line@, digits@) is None,
        },
{
    let n = line.len();
    if n < 2 {
        return None;
    }
    if !(line[n - 2] == ':' && line[n - 1] == 'S') {
        return None;
    }
    let wl = n - 2;
    match find_first_match(line, wl, digits) {
        Some(p) => {
            let mut stem: Vec<char> = Vec::new();
            let mut j: usize = p;
            while j < wl
                invariant
                    p <= j <= wl <= line@.len(),
                    stem@ == line@.subrange(p as int, j as int),
                decreases wl - j,
            {
                stem.push(line[j]);
                assert(stem@ =~= line@.subrange(p as int, j as int + 1));
                j = j + 1;
            }
            proof {
                assert(line@.take(wl as int).skip(p as int) =~= line@.subrange(
                    p as int,
                    wl as int,
                ));
            }
            Some(stem)
        },
        None => None,
    }
}

/// Every stem a line yields matches the digit sequence, and the line carries
/// the eligible tag.
pub proof fn lemma_line_stem_matches(line: Seq<char>, digits: Seq<char>)
    requires
        spec_line_stem(line, digits) is Some,
    ensures
        proj_matches(spec_line_stem(line, digits)->Some_0, digits),
        line.len() >= 2 && line[line.len() - 2] == ':' && line[line.len() - 1] == 'S',
{
    let word = line.take(line.len() - 2);
    lemma_first_match_from(word, digits, 0);
}

} // verus!
