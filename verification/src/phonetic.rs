//! The phonetic mapper: each decimal digit owns a fixed pair of Cyrillic
//! consonants, and a fixed set of Cyrillic vowels may be skipped freely
//! during matching.

use vstd::prelude::*;

verus! {

/// The vowels of the dictionary's script; runs of these are ignored when a
/// word is projected onto its consonant skeleton.
pub open spec fn spec_is_vowel(c: char) -> bool {
    c == 'у' || c == 'е' || c == 'ы' || c == 'а' || c == 'о' || c == 'э' || c == 'ё' || c == 'я'
        || c == 'и' || c == 'ю'
}

/// The decimal digit characters, the only inputs the mapper is defined on.
pub open spec fn spec_is_digit(c: char) -> bool {
    c == '0' || c == '1' || c == '2' || c == '3' || c == '4' || c == '5' || c == '6' || c == '7'
        || c == '8' || c == '9'
}

/// The fixed two-consonant class assigned to a digit.
pub open spec fn spec_class(d: char) -> (char, char) {
    if d == '0' {
        ('м', 'н')
    } else if d == '1' {
        ('г', 'ж')
    } else if d == '2' {
        ('д', 'т')
    } else if d == '3' {
        ('к', 'х')
    } else if d == '4' {
        ('ч', 'щ')
    } else if d == '5' {
        ('п', 'б')
    } else if d == '6' {
        ('ш', 'л')
    } else if d == '7' {
        ('с', 'з')
    } else if d == '8' {
        ('в', 'ф')
    } else {
        ('р', 'ц')
    }
}

/// Whether a character is one of the two consonants of a digit's class.
pub open spec fn in_class(c: char, d: char) -> bool {
    c == spec_class(d).0 || c == spec_class(d).1
}

/// A digit sequence the generator accepts: non-empty, all decimal digits.
pub open spec fn valid_digits(digits: Seq<char>) -> bool {
    digits.len() >= 1 && forall|i: int| 0 <= i < digits.len() ==> spec_is_digit(#[trigger] digits[i])
}

pub fn is_vowel(c: char) -> (b: bool)
    ensures
        b == spec_is_vowel(c),
{
    c == 'у' || c == 'е' || c == 'ы' || c == 'а' || c == 'о' || c == 'э' || c == 'ё' || c == 'я'
        || c == 'и' || c == 'ю'
}

pub fn is_digit(c: char) -> (b: bool)
    ensures
        b == spec_is_digit(c),
{
    c == '0' || c == '1' || c == '2' || c == '3' || c == '4' || c == '5' || c == '6' || c == '7'
        || c == '8' || c == '9'
}

/// Map a digit to its consonant-class letter pair.
pub fn translate_number(n: char) -> (r: (char, char))
    requires
        spec_is_digit(n),
    ensures
        r == spec_class(n),
{
    if n == '0' {
        ('м', 'н')
    } else if n == '1' {
        ('г', 'ж')
    } else if n == '2' {
        ('д', 'т')
    } else if n == '3' {
        ('к', 'х')
    } else if n == '4' {
        ('ч', 'щ')
    } else if n == '5' {
        ('п', 'б')
    } else if n == '6' {
        ('ш', 'л')
    } else if n == '7' {
        ('с', 'з')
    } else if n == '8' {
        ('в', 'ф')
    } else {
        ('р', 'ц')
    }
}

/// Decide whether `c` belongs to the consonant class of digit `d`.
pub fn in_class_exec(c: char, d: char) -> (b: bool)
    requires
        spec_is_digit(d),
    ensures
        b == in_class(c, d),
{
    let pair = translate_number(d);
    c == pair.0 || c == pair.1
}

/// Every digit's class holds exactly two distinct letters, the classes of two
/// distinct digits share no letter, and no class letter is a vowel.
#[verifier::rlimit(50)]
pub proof fn lemma_classes_disjoint(d1: char, d2: char)
    requires
        spec_is_digit(d1),
        spec_is_digit(d2),
    ensures
        spec_class(d1).0 != spec_class(d1).1,
        !spec_is_vowel(spec_class(d1).0),
        !spec_is_vowel(spec_class(d1).1),
        d1 != d2 ==> !in_class(spec_class(d1).0, d2) && !in_class(spec_class(d1).1, d2),
{
    assert(d1 != '0' ==> !in_class(spec_class(d1).0, '0') && !in_class(spec_class(d1).1, '0'));
    assert(d1 != '1' ==> !in_class(spec_class(d1).0, '1') && !in_class(spec_class(d1).1, '1'));
    assert(d1 != '2' ==> !in_class(spec_class(d1).0, '2') && !in_class(spec_class(d1).1, '2'));
    assert(d1 != '3' ==> !in_class(spec_class(d1).0, '3') && !in_class(spec_class(d1).1, '3'));
    assert(d1 != '4' ==> !in_class(spec_class(d1).0, '4') && !in_class(spec_class(d1).1, '4'));
    assert(d1 != '5' ==> !in_class(spec_class(d1).0, '5') && !in_class(spec_class(d1).1, '5'));
    assert(d1 != '6' ==> !in_class(spec_class(d1).0, '6') && !in_class(spec_class(d1).1, '6'));
    assert(d1 != '7' ==> !in_class(spec_class(d1).0, '7') && !in_class(spec_class(d1).1, '7'));
    assert(d1 != '8' ==> !in_class(spec_class(d1).0, '8') && !in_class(spec_class(d1).1, '8'));
    assert(d1 != '9' ==> !in_class(spec_class(d1).0, '9') && !in_class(spec_class(d1).1, '9'));
}

} // verus!
