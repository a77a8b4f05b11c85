//! The corpus scanner: walk the corpus text once, line by line, collect the
//! stem each eligible line yields for the digit sequence, and return the
//! stems deduplicated and in ascending lexicographic order.

use vstd::prelude::*;

use crate::matching::{line_stem, proj_matches, spec_line_stem};
use crate::order::{insert_sorted, lemma_sorted_set_unique, strictly_sorted};
use crate::phonetic::valid_digits;

verus! {

/// The position of the first newline of `s`; `s.len()` when there is none.
pub open spec fn first_newline(s: Seq<char>) -> nat
    decreases s.len(),
{
    if s.len() == 0 {
        0
    } else if s[0] == '\n' {
        0
    } else {
        1 + first_newline(s.drop_first())
    }
}

/// `first_newline` points at the first newline: everything before it is not
/// a newline, and it is a newline unless there is none at all.
pub proof fn lemma_first_newline(s: Seq<char>)
    ensures
        first_newline(s) <= s.len(),
        first_newline(s) < s.len() ==> s[first_newline(s) as int] == '\n',
        forall|j: int| 0 <= j < first_newline(s) ==> s[j] != '\n',
    decreases s.len(),
{
    if s.len() == 0 {
    } else if s[0] == '\n' {
    } else {
        let t = s.drop_first();
        lemma_first_newline(t);
        assert forall|j: int| 0 <= j < first_newline(s) implies s[j] != '\n' by {
            if j > 0 {
                assert(t[j - 1] == s[j]);
            }
        }
        if first_newline(s) < s.len() {
            assert(t[first_newline(t) as int] == s[first_newline(s) as int]);
        }
    }
}

/// A newline preceded by no newline is the first one.
pub proof fn lemma_first_newline_is(s: Seq<char>, k: int)
    requires
        0 <= k < s.len(),
        s[k] == '\n',
        forall|j: int| 0 <= j < k ==> s[j] != '\n',
    ensures
        first_newline(s) == k,
    decreases s.len(),
{
    if k == 0 {
    } else {
        let t = s.drop_first();
        assert forall|j: int| 0 <= j < k - 1 implies t[j] != '\n' by {
            assert(t[j] == s[j + 1]);
        }
        assert(t[k - 1] == s[k]);
        lemma_first_newline_is(t, k - 1);
    }
}

/// A sequence without a newline has no first newline.
pub proof fn lemma_first_newline_none(s: Seq<char>)
    requires
        forall|j: int| 0 <= j < s.len() ==> s[j] != '\n',
    ensures
        first_newline(s) == s.len(),
    decreases s.len(),
{
    if s.len() > 0 {
        let t = s.drop_first();
        assert forall|j: int| 0 <= j < t.len() implies t[j] != '\n' by {
            assert(t[j] == s[j + 1]);
        }
        lemma_first_newline_none(t);
    }
}

/// The set of stems the corpus yields for a digit sequence: one candidate
/// stem per complete (newline-terminated) line that carries the eligible tag
/// and matches, collected over all lines.
pub open spec fn corpus_stems(corpus: Seq<char>, digits: Seq<char>) -> Set<Seq<char>>
    decreases corpus.len(),
{
    let i = first_newline(corpus) as int;
    if 0 <= i && i < corpus.len() {
        let line = corpus.take(i);
        let rest = corpus.skip(i + 1);
        let tail = corpus_stems(rest, digits);
        match spec_line_stem(line, digits) {
            Some(s) => tail.insert(s),
            None => tail,
        }
    } else {
        Set::empty()
    }
}

/// What the generator returns for a corpus and a digit sequence: exactly the
/// corpus's stems, in strictly ascending lexicographic order.
pub open spec fn is_output(corpus: Seq<char>, digits: Seq<char>, r: Seq<Seq<char>>) -> bool {
    strictly_sorted(r) && r.to_set() == corpus_stems(corpus, digits)
}

/// The output is determined: any two sequences that are valid output for the
/// same corpus and digit sequence are equal.
pub proof fn lemma_output_deterministic(
    corpus: Seq<char>,
    digits: Seq<char>,
    r1: Seq<Seq<char>>,
    r2: Seq<Seq<char>>,
)
    requires
        is_output(corpus, digits, r1),
        is_output(corpus, digits, r2),
    ensures
        r1 == r2,
{
    lemma_sorted_set_unique(r1, r2);
}

/// Whether `line` is one of the complete (newline-terminated) lines of the
/// corpus.
pub open spec fn has_line(corpus: Seq<char>, line: Seq<char>) -> bool
    decreases corpus.len(),
{
    let i = first_newline(corpus) as int;
    if 0 <= i && i < corpus.len() {
        corpus.take(i) == line || has_line(corpus.skip(i + 1), line)
    } else {
        false
    }
}

/// Every stem of the corpus matches the digit sequence — its vowel-skipped
/// projection is, letter by letter, one consonant from each digit's class —
/// and comes from a complete corpus line that carries the eligible tag.
pub proof fn lemma_corpus_stems_match(corpus: Seq<char>, digits: Seq<char>, s: Seq<char>)
    requires
        corpus_stems(corpus, digits).contains(s),
    ensures
        proj_matches(s, digits),
        exists|line: Seq<char>|
            has_line(corpus, line) && #[trigger] spec_line_stem(line, digits) == Some(s),
    decreases corpus.len(),
{
    let i = first_newline(corpus) as int;
    lemma_first_newline(corpus);
    let line = corpus.take(i);
    let rest = corpus.skip(i + 1);
    if spec_line_stem(line, digits) == Some(s) {
        crate::matching::lemma_line_stem_matches(line, digits);
        let word = line.take(line.len() - 2);
        crate::matching::lemma_first_match_from(word, digits, 0);
        assert(has_line(corpus, line));
    } else {
        lemma_corpus_stems_match(rest, digits, s);
        let witness = choose|l: Seq<char>|
            has_line(rest, l) && #[trigger] spec_line_stem(l, digits) == Some(s);
        assert(has_line(corpus, witness));
    }
}

/// Every stem of a valid output matches the digit sequence and comes from a
/// complete corpus line that carries the eligible tag.
pub proof fn lemma_output_stems_match(
    corpus: Seq<char>,
    digits: Seq<char>,
    r: Seq<Seq<char>>,
    i: int,
)
    requires
        is_output(corpus, digits, r),
        0 <= i < r.len(),
    ensures
        proj_matches(r[i], digits),
        exists|line: Seq<char>|
            has_line(corpus, line) && #[trigger] spec_line_stem(line, digits) == Some(r[i]),
{
    assert(r.to_set().contains(r[i]));
    lemma_corpus_stems_match(corpus, digits, r[i]);
}

/// Scan the corpus and return all matching stems, deduplicated and sorted.
pub fn generate_core(digits: &Vec<char>, corpus: &Vec<char>) -> (r: Vec<Vec<char>>)
    requires
        valid_digits(digits@),
    ensures
        is_output(corpus@, digits@, r.deep_view()),
{
    let ghost whole = corpus@;
    let mut result: Vec<Vec<char>> = Vec::new();
    let mut line: Vec<char> = Vec::new();
    let mut i: usize = 0;
    let ghost ls: int = 0;
    proof {
        assert(result.deep_view() =~~= Seq::<Seq<char>>::empty());
        assert(whole.skip(0) =~= whole);
        assert(result.deep_view().to_set().union(corpus_stems(whole, digits@)) =~= corpus_stems(
            whole,
            digits@,
        ));
    }
    while i < corpus.len()
        invariant
            0 <= ls <= i <= whole.len(),
            whole == corpus@,
            valid_digits(digits@),
            line@ == whole.subrange(ls, i as int),
            forall|j: int| ls <= j < i ==> whole[j] != '\n',
            strictly_sorted(result.deep_view()),
            result.deep_view().to_set().union(corpus_stems(whole.skip(ls), digits@))
                == corpus_stems(whole, digits@),
        decreases whole.len() - i,
    {
        let c = corpus[i];
        if c == '\n' {
            proof {
                let sub = whole.skip(ls);
                assert forall|j: int| 0 <= j < i - ls implies sub[j] != '\n' by {
                    assert(sub[j] == whole[ls + j]);
                }
                assert(sub[i - ls] == whole[i as int]);
                lemma_first_newline_is(sub, i - ls);
                assert(sub.take(i - ls) =~= whole.subrange(ls, i as int));
                assert(sub.skip(i - ls + 1) =~= whole.skip(i as int + 1));
            }
            let stem_opt = line_stem(&line, digits);
            let ghost r_before = result.deep_view();
            match stem_opt {
                Some(stem) => {
                    let ghost stem_view = stem@;
                    insert_sorted(&mut result, stem);
                    proof {
                        let sub = whole.skip(ls);
                        let tail = corpus_stems(whole.skip(i as int + 1), digits@);
                        assert(corpus_stems(sub, digits@) == tail.insert(stem_view));
                        assert(result.deep_view().to_set().union(tail) =~= corpus_stems(
                            whole,
                            digits@,
                        )) by {
                            assert(result.deep_view().to_set() == r_before.to_set().insert(
                                stem_view,
                            ));
                            assert(r_before.to_set().union(tail.insert(stem_view))
                                == corpus_stems(whole, digits@));
                            assert(result.deep_view().to_set().union(tail) =~= r_before.to_set()
                                .union(tail.insert(stem_view)));
                        }
                    }
                },
                None => {
                    proof {
                        let sub = whole.skip(ls);
                        assert(corpus_stems(sub, digits@) == corpus_stems(
                            whole.skip(i as int + 1),
                            digits@,
                        ));
                    }
                },
            }
            line = Vec::new();
            proof {
                ls = i as int + 1;
            }
            i = i + 1;
            proof {
                assert(line@ =~= whole.subrange(ls, i as int));
            }
        } else {
            line.push(c);
            i = i + 1;
            proof {
                assert(line@ =~= whole.subrange(ls, i as int));
            }
        }
    }
    proof {
        let sub = whole.skip(ls);
        assert forall|j: int| 0 <= j < sub.len() implies sub[j] != '\n' by {
            assert(sub[j] == whole[ls + j]);
        }
        lemma_first_newline_none(sub);
        assert(corpus_stems(sub, digits@) =~= Set::<Seq<char>>::empty());
        assert(result.deep_view().to_set() =~= result.deep_view().to_set().union(
            corpus_stems(sub, digits@),
        ));
    }
    result
}

} // verus!
