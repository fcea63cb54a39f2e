use lingua::{IsoCode639_1, IsoCode639_3, Language, LanguageDetectorBuilder};

#[test]
fn assert_detector_can_be_built_from_all_languages() {
    let mut builder = LanguageDetectorBuilder::from_all_languages();
    assert_eq!(builder.languages(), Language::all());
    assert_eq!(builder.minimum_relative_distance(), 0);

    builder.with_minimum_relative_distance(20);
    assert_eq!(builder.minimum_relative_distance(), 20);
}

#[test]
fn assert_detector_can_be_built_from_spoken_languages() {
    let mut builder = LanguageDetectorBuilder::from_all_spoken_languages();
    assert_eq!(builder.languages(), Language::all_spoken_ones());
    assert_eq!(builder.minimum_relative_distance(), 0);

    builder.with_minimum_relative_distance(20);
    assert_eq!(builder.minimum_relative_distance(), 20);
}

#[test]
fn assert_detector_can_be_built_from_languages_with_arabic_script() {
    let builder = LanguageDetectorBuilder::from_all_languages_with_arabic_script();
    assert_eq!(builder.languages(), Language::all_with_arabic_script());
}

#[test]
fn assert_detector_can_be_built_from_languages_with_cyrillic_script() {
    let builder = LanguageDetectorBuilder::from_all_languages_with_cyrillic_script();
    assert_eq!(builder.languages(), Language::all_with_cyrillic_script());
}

#[test]
fn assert_detector_can_be_built_from_languages_with_devanagari_script() {
    let builder = LanguageDetectorBuilder::from_all_languages_with_devanagari_script();
    assert_eq!(builder.languages(), Language::all_with_devanagari_script());
}

#[test]
fn assert_detector_can_be_built_from_languages_with_latin_script() {
    let builder = LanguageDetectorBuilder::from_all_languages_with_latin_script();
    assert_eq!(builder.languages(), Language::all_with_latin_script());
}

#[test]
fn assert_detector_can_be_built_from_blacklist() {
    let builder = LanguageDetectorBuilder::from_all_languages_without(&[
        Language::Turkish,
        Language::Romanian,
    ]);
    let mut expected_languages: Vec<Language> = Vec::new();
    for language in Language::all() {
        if language != Language::Turkish && language != Language::Romanian {
            expected_languages.push(language);
        }
    }
    assert_eq!(builder.languages(), expected_languages);
}

#[test]
fn assert_detector_can_be_built_from_whitelist() {
    let builder = LanguageDetectorBuilder::from_languages(&[Language::German, Language::English]);
    assert_eq!(builder.languages(), vec![Language::English, Language::German]);
}

#[test]
fn assert_detector_can_be_built_from_iso_639_1_codes() {
    let builder =
        LanguageDetectorBuilder::from_iso_codes_639_1(&[IsoCode639_1::DE, IsoCode639_1::SV]);
    assert_eq!(builder.languages(), vec![Language::German, Language::Swedish]);
}

#[test]
fn assert_detector_can_be_built_from_iso_639_3_codes() {
    let builder =
        LanguageDetectorBuilder::from_iso_codes_639_3(&[IsoCode639_3::DEU, IsoCode639_3::SWE]);
    assert_eq!(builder.languages(), vec![Language::German, Language::Swedish]);
}
