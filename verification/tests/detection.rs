use lingua::{Language, LanguageDetector, LanguageDetectorBuilder, Script};
use lingua::detector::CONFIDENCE_SCALE;
use lingua::script::{code_points, detected_scripts};

fn detector_for(languages: &[Language]) -> LanguageDetector {
    LanguageDetectorBuilder::from_languages(languages).build()
}

#[test]
fn english_text_is_detected() {
    let detector = detector_for(&[Language::English, Language::German]);
    assert_eq!(
        detector.detect_language_of("the cat sat on the mat"),
        Some(Language::English)
    );
}

#[test]
fn german_text_is_detected() {
    let detector = detector_for(&[Language::English, Language::German]);
    assert_eq!(
        detector.detect_language_of("der Hund läuft schnell"),
        Some(Language::German)
    );
}

#[test]
fn empty_string_yields_unknown() {
    let detector = detector_for(&[Language::English, Language::German]);
    assert_eq!(detector.detect_language_of(""), None);
}

#[test]
fn letter_free_text_yields_unknown() {
    let detector = detector_for(&[Language::English, Language::German]);
    assert_eq!(detector.detect_language_of("   "), None);
    assert_eq!(detector.detect_language_of("3.14 + 2 = ?!"), None);
}

#[test]
fn unseen_cyrillic_text_is_decided_by_script_alone() {
    let detector = detector_for(&[Language::Russian, Language::English]);
    assert_eq!(detector.detect_language_of("щюжх"), Some(Language::Russian));
}

#[test]
fn hangul_text_is_decided_by_script_alone() {
    let detector = detector_for(&[Language::Korean, Language::English]);
    assert_eq!(detector.detect_language_of("안녕하세요"), Some(Language::Korean));
}

#[test]
fn ambiguous_word_with_high_margin_yields_unknown() {
    let mut builder = LanguageDetectorBuilder::from_languages(&[
        Language::English,
        Language::French,
    ]);
    builder.with_minimum_relative_distance(80);
    let detector = builder.build();
    assert_eq!(detector.detect_language_of("notation"), None);
}

#[test]
fn ambiguous_word_with_default_margin_is_decided() {
    let detector = detector_for(&[Language::English, Language::French]);
    assert!(detector.detect_language_of("notation").is_some());
}

#[test]
fn detection_result_stays_in_configured_set() {
    let detector = detector_for(&[Language::German, Language::Swedish]);
    let texts = ["hello world", "bonjour tout le monde", "οι θεοί", "x"];
    for text in texts {
        match detector.detect_language_of(text) {
            None => {}
            Some(language) => {
                assert!(language == Language::German || language == Language::Swedish);
            }
        }
    }
}

#[test]
fn detection_is_idempotent() {
    let detector = detector_for(&[Language::English, Language::German, Language::French]);
    let texts = ["the cat sat on the mat", "der Hund läuft schnell", "", "notation"];
    for text in texts {
        assert_eq!(
            detector.detect_language_of(text),
            detector.detect_language_of(text)
        );
    }
}

#[test]
fn raising_margin_never_flips_the_decision() {
    let languages = [Language::English, Language::German];
    let low = detector_for(&languages);
    let mut builder = LanguageDetectorBuilder::from_languages(&languages);
    builder.with_minimum_relative_distance(30);
    let high = builder.build();
    let text = "the cat sat on the mat";
    match high.detect_language_of(text) {
        None => {}
        Some(language) => {
            assert_eq!(low.detect_language_of(text), Some(language));
        }
    }
    assert_eq!(low.detect_language_of(text), Some(Language::English));
}

#[test]
fn confidence_values_cover_all_configured_languages() {
    let detector = detector_for(&[Language::English, Language::German, Language::Russian]);
    let values = detector.compute_language_confidence_values("the cat sat on the mat");
    assert_eq!(values.len(), 3);
    let mut seen_english = false;
    let mut seen_german = false;
    let mut seen_russian = false;
    for (language, _) in &values {
        match language {
            Language::English => seen_english = true,
            Language::German => seen_german = true,
            Language::Russian => seen_russian = true,
            _ => panic!("unexpected language in confidence values"),
        }
    }
    assert!(seen_english && seen_german && seen_russian);
}

#[test]
fn confidence_values_sum_to_one_and_descend() {
    let detector = detector_for(&[Language::English, Language::German, Language::French]);
    let values = detector.compute_language_confidence_values("the cat sat on the mat");
    let mut sum: u64 = 0;
    for k in 0..values.len() {
        sum += values[k].1 as u64;
        assert!(values[k].1 <= CONFIDENCE_SCALE);
        if k > 0 {
            assert!(values[k - 1].1 >= values[k].1);
        }
    }
    assert_eq!(sum, CONFIDENCE_SCALE as u64);
    let float_sum: f64 = values.iter().map(|pair| pair.1 as f64 / 1e6).sum();
    assert!((float_sum - 1.0).abs() < 1e-9);
    assert_eq!(values[0].0, Language::English);
}

#[test]
fn confidence_of_script_filtered_language_is_zero() {
    let detector = detector_for(&[Language::English, Language::Russian]);
    let values = detector.compute_language_confidence_values("щюжх");
    assert_eq!(values.len(), 2);
    assert_eq!(values[0], (Language::Russian, CONFIDENCE_SCALE));
    assert_eq!(values[1], (Language::English, 0));
}

#[test]
fn uppercase_extended_latin_is_lowercased() {
    let detector = detector_for(&[Language::Romanian, Language::Swedish]);
    assert_eq!(detector.detect_language_of("ȚARĂ ȘI"), Some(Language::Romanian));
    assert_eq!(
        detector.detect_language_of("ȚARĂ ȘI"),
        detector.detect_language_of("țară și")
    );
}

#[test]
fn decided_language_heads_confidence_values() {
    let detector = detector_for(&[Language::English, Language::French, Language::German]);
    let texts = ["the cat sat on the mat", "der Hund läuft schnell", "notation"];
    for text in texts {
        if let Some(language) = detector.detect_language_of(text) {
            let values = detector.compute_language_confidence_values(text);
            assert_eq!(values[0].0, language);
        }
    }
}

#[test]
fn scripts_of_mixed_text_are_each_reported_once() {
    let cps = code_points("abc где abc 123");
    let scripts = detected_scripts(&cps);
    assert_eq!(scripts.len(), 2);
    assert!(scripts.contains(&Script::Latin));
    assert!(scripts.contains(&Script::Cyrillic));
    let punctuation = code_points("12 !? .");
    assert_eq!(detected_scripts(&punctuation).len(), 0);
}

#[test]
fn confidence_values_of_letter_free_text_are_all_zero() {
    let detector = detector_for(&[Language::English, Language::German]);
    let values = detector.compute_language_confidence_values("12345 !?");
    assert_eq!(values.len(), 2);
    assert_eq!(values[0].1, 0);
    assert_eq!(values[1].1, 0);
}
