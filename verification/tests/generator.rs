use phoneword::decode::generate_words_windows_1251;
use phoneword::generate_words;
use phoneword::phonetic::translate_number;

fn vowels() -> Vec<char> {
    vec!['у', 'е', 'ы', 'а', 'о', 'э', 'ё', 'я', 'и', 'ю']
}

fn class_of(d: char) -> (char, char) {
    translate_number(d)
}

fn in_class(c: char, d: char) -> bool {
    let (a, b) = class_of(d);
    c == a || c == b
}

fn project(s: &str) -> Vec<char> {
    s.chars().filter(|c| !vowels().contains(c)).collect()
}

#[test]
fn classes_have_two_distinct_letters() {
    for d in ['0', '1', '2', '3', '4', '5', '6', '7', '8', '9'] {
        let (a, b) = class_of(d);
        assert_ne!(a, b);
        assert!(!vowels().contains(&a));
        assert!(!vowels().contains(&b));
    }
}

#[test]
fn classes_are_pairwise_disjoint() {
    let digits = ['0', '1', '2', '3', '4', '5', '6', '7', '8', '9'];
    let mut letters: Vec<char> = Vec::new();
    for d in digits {
        let (a, b) = class_of(d);
        letters.push(a);
        letters.push(b);
    }
    for i in 0..letters.len() {
        for j in 0..letters.len() {
            if i != j {
                assert_ne!(letters[i], letters[j]);
            }
        }
    }
}

#[test]
fn expected_class_letters() {
    assert_eq!(class_of('0'), ('м', 'н'));
    assert_eq!(class_of('1'), ('г', 'ж'));
    assert_eq!(class_of('2'), ('д', 'т'));
    assert_eq!(class_of('3'), ('к', 'х'));
    assert_eq!(class_of('4'), ('ч', 'щ'));
    assert_eq!(class_of('5'), ('п', 'б'));
    assert_eq!(class_of('6'), ('ш', 'л'));
    assert_eq!(class_of('7'), ('с', 'з'));
    assert_eq!(class_of('8'), ('в', 'ф'));
    assert_eq!(class_of('9'), ('р', 'ц'));
}

#[test]
fn scenario_dom_matches_20() {
    let out = generate_words("20", "дом:S\n");
    assert!(out.iter().any(|w| w == "дом"));
    assert_eq!(out, vec!["дом".to_string()]);
}

#[test]
fn scenario_non_eligible_tag_is_ignored() {
    // бег would spell "51" by its consonants, but the line is tagged V
    let out = generate_words("51", "бег:V\n");
    assert!(out.is_empty());
}

#[test]
fn scenario_empty_corpus() {
    for number in ["1", "20", "905", "0000000000"] {
        let out = generate_words(number, "");
        assert!(out.is_empty());
    }
}

#[test]
fn scenario_no_matching_combination() {
    let out = generate_words("99", "дом:S\nмама:S\n");
    assert!(out.is_empty());
}

#[test]
fn repeated_calls_are_deterministic() {
    let corpus = "дом:S\nтам:S\nмама:S\nбег:V\n";
    let first = generate_words("20", corpus);
    let second = generate_words("20", corpus);
    assert_eq!(first, second);
}

#[test]
fn output_has_no_duplicates() {
    let out = generate_words("20", "дом:S\nдом:S\nтам:S\n");
    assert_eq!(out, vec!["дом".to_string(), "там".to_string()]);
    for i in 0..out.len() {
        for j in 0..out.len() {
            if i != j {
                assert_ne!(out[i], out[j]);
            }
        }
    }
}

#[test]
fn output_is_sorted_round_trip() {
    let out = generate_words("20", "там:S\nдом:S\nтом:S\n");
    let mut sorted = out.clone();
    sorted.sort();
    assert_eq!(out, sorted);
    assert_eq!(
        out,
        vec!["дом".to_string(), "там".to_string(), "том".to_string()]
    );
}

#[test]
fn output_stems_project_onto_classes() {
    let corpus = "дом:S\nтам:S\nдумка:S\nбег:V\nкм:S\n";
    let number = "20";
    let out = generate_words(number, corpus);
    assert!(!out.is_empty());
    let digits: Vec<char> = number.chars().collect();
    for stem in &out {
        let skeleton = project(stem);
        assert_eq!(skeleton.len(), digits.len());
        for (c, d) in skeleton.iter().zip(digits.iter()) {
            assert!(in_class(*c, *d));
        }
        // the stem comes from an eligible corpus line
        assert!(corpus.contains(&format!("{}:S\n", stem)));
    }
}

#[test]
fn vowel_filler_is_skipped() {
    let out = generate_words("00", "мама:S\n");
    assert_eq!(out, vec!["мама".to_string()]);
}

#[test]
fn leading_vowels_belong_to_the_stem() {
    // the match reaches left over vowels, not over other consonants
    let out = generate_words("0", "том:S\n");
    assert_eq!(out, vec!["ом".to_string()]);
}

#[test]
fn three_digit_stem() {
    let out = generate_words("203", "думка:S\n");
    assert_eq!(out, vec!["думка".to_string()]);
}

#[test]
fn incomplete_last_line_is_not_scanned() {
    let out = generate_words("20", "дом:S");
    assert!(out.is_empty());
}

#[test]
fn tag_must_close_the_line() {
    let out = generate_words("20", "дом:Sх\n");
    assert!(out.is_empty());
}

#[test]
fn stem_starts_after_the_last_unusable_letter() {
    // 'б' cannot serve digit '2', so the match begins at the vowel after it
    let out = generate_words("20", "быдом:S\n");
    assert_eq!(out, vec!["ыдом".to_string()]);
}

#[test]
fn inflected_forms_stay_distinct() {
    let out = generate_words("20", "дома:S\nдом:S\n");
    assert_eq!(out, vec!["дом".to_string(), "дома".to_string()]);
}

#[test]
fn windows_1251_corpus_decodes_and_matches() {
    // "дом:S\n" in the legacy single-byte encoding
    let bytes: Vec<u8> = vec![0xE4, 0xEE, 0xEC, 0x3A, 0x53, 0x0A];
    let out = generate_words_windows_1251("20", &bytes);
    assert_eq!(out, vec!["дом".to_string()]);
}

#[test]
fn windows_1251_empty_corpus() {
    let out = generate_words_windows_1251("7", &Vec::new());
    assert!(out.is_empty());
}
