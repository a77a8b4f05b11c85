//! Mnemonic phoneword generation: turn a digit string into the dictionary
//! words whose consonant skeleton spells those digits.
//!
//! The corpus is one entry per newline-terminated line, `<word>:<tag>`; only
//! the noun tag `S` is eligible. A digit string is matched by a run of word
//! letters in which vowels may be skipped freely and the remaining letters
//! are, in order, one consonant from each digit's class.

pub mod decode;
pub mod matching;
pub mod order;
pub mod phonetic;
pub mod scan;

use vstd::prelude::*;
use vstd::std_specs::iter::IteratorSpec;

use crate::phonetic::valid_digits;
use crate::scan::{generate_core, is_output};

verus! {

/// The characters of a string slice, in order, as a vector.
fn chars_vec(s: &str) -> (r: Vec<char>)
    ensures
        r@ == s@,
{
    broadcast use vstd::string::next_postcondition;

    let mut it = s.chars();
    let mut r: Vec<char> = Vec::new();
    loop
        invariant
            it.obeys_prophetic_iter_laws(),
            it.decrease() is Some,
            r@ + it.remaining() == s@,
        decreases it.decrease()->0,
    {
        match it.next() {
            Some(c) => {
                r.push(c);
                proof {
                    assert(r@ + it.remaining() =~= s@);
                }
            },
            None => {
                proof {
                    assert(r@ =~= r@ + it.remaining());
                }
                return r;
            },
        }
    }
}

/// Relies on `String`'s `FromIterator`: collecting characters yields the
/// string of exactly those characters in order.
#[verifier::external_body]
fn string_from_chars(v: &Vec<char>) -> (r: String)
    ensures
        r@ == v@,
{
    v.iter().collect()
}

/// Generate the phonewords of a digit string over a corpus: every stem of an
/// eligible corpus line whose letters spell the digits (vowels skipped),
/// deduplicated and in ascending lexicographic order.
pub fn generate_words(number: &str, corpus: &str) -> (r: Vec<String>)
    requires
        valid_digits(number@),
    ensures
        is_output(corpus@, number@, r.deep_view()),
{
    let digits = chars_vec(number);
    let text = chars_vec(corpus);
    let stems = generate_core(&digits, &text);
    let mut r: Vec<String> = Vec::new();
    let mut i: usize = 0;
    while i < stems.len()
        invariant
            0 <= i <= stems@.len(),
            r@.len() == i,
            r.deep_view() =~= stems.deep_view().take(i as int),
        decreases stems@.len() - i,
    {
        let w = string_from_chars(&stems[i]);
        let ghost r_prev = r.deep_view();
        let ghost r_prev_vec = r@;
        r.push(w);
        proof {
            assert(w.deep_view() =~= stems@[i as int].deep_view());
            assert forall|j: int| 0 <= j <= i implies r.deep_view()[j] == stems.deep_view().take(
                i as int + 1,
            )[j] by {
                assert(r.deep_view().len() == r@.len());
                assert(r.deep_view()[j] == r@[j].deep_view());
                if j < i {
                    assert(r@[j] == r_prev_vec[j]);
                    assert(r.deep_view()[j] == r_prev[j]);
                } else {
                    assert(r@[j] == w);
                    assert(r.deep_view()[j] == w.deep_view());
                    assert(stems.deep_view()[j] == stems@[j].deep_view());
                }
            }
            assert(r.deep_view() =~= stems.deep_view().take(i as int + 1));
        }
        i = i + 1;
    }
    proof {
        assert(stems.deep_view().take(i as int) =~= stems.deep_view());
        assert(r.deep_view() == stems.deep_view());
    }
    r
}

} // verus!
