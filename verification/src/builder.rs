//! Configuration of a `LanguageDetector`.
//!
//! A builder selects the candidate language set — the whole catalog, a
//! filtered part of it, or an explicit list — and the minimum relative
//! distance of the decision rule, then creates the detector.  A
//! detector needs at least two languages to choose from, and the
//! distance lies between zero and ninety-nine hundredths; both bounds
//! are demanded of every caller, so no partially configured detector
//! can ever exist.

use vstd::prelude::*;
use crate::language::{
    Language, IsoCode639_1, IsoCode639_3, catalog, strictly_sorted, spec_from_iso_639_1,
    spec_from_iso_639_3, SelectionRule, spec_keeps, spec_select, lemma_select_properties,
    lemma_catalog_facts, contains_language,
};
use crate::script::Script;
use crate::detector::LanguageDetector;
use crate::model::wf_entries;
use crate::models::spec_builtin_models;

verus! {

/// The languages a sequence of ISO 639-1 codes stands for.
pub open spec fn spec_langs_of_iso_639_1(codes: Seq<IsoCode639_1>) -> Seq<Language> {
    Seq::new(codes.len(), |i: int| spec_from_iso_639_1(codes[i]))
}

/// The languages a sequence of ISO 639-3 codes stands for.
pub open spec fn spec_langs_of_iso_639_3(codes: Seq<IsoCode639_3>) -> Seq<Language> {
    Seq::new(codes.len(), |i: int| spec_from_iso_639_3(codes[i]))
}

/// Copies a language list.
fn copy_languages(v: &Vec<Language>) -> (r: Vec<Language>)
    ensures
        r@ == v@,
{
    let mut r: Vec<Language> = Vec::new();
    let mut i: usize = 0;
    while i < v.len()
        invariant
            i <= v@.len(),
            r@ == v@.take(i as int),
        decreases v@.len() - i,
    {
        r.push(v[i]);
        proof {
            assert(r@ =~= v@.take(i + 1));
        }
        i += 1;
    }
    proof {
        assert(v@.take(v@.len() as int) =~= v@);
    }
    r
}

fn select_excluding(excl: &[Language]) -> (r: Vec<Language>)
    ensures
        r@ == spec_select(catalog(), SelectionRule::Excluding(excl@)),
{
    let all = Language::all();
    let mut r: Vec<Language> = Vec::new();
    let mut i: usize = 0;
    while i < all.len()
        invariant
            i <= all@.len(),
            all@ == catalog(),
            r@ == spec_select(catalog().take(i as int), SelectionRule::Excluding(excl@)),
        decreases all@.len() - i,
    {
        let keep = !contains_language(excl, all[i]);
        proof {
            let next = catalog().take(i + 1);
            assert(next.drop_last() =~= catalog().take(i as int));
            assert(next.last() == catalog()[i as int]);
        }
        if keep {
            r.push(all[i]);
        }
        i += 1;
    }
    proof {
        assert(catalog().take(catalog().len() as int) =~= catalog());
    }
    r
}

fn select_among(inc: &Vec<Language>) -> (r: Vec<Language>)
    ensures
        r@ == spec_select(catalog(), SelectionRule::Among(inc@)),
{
    let all = Language::all();
    let mut r: Vec<Language> = Vec::new();
    let mut i: usize = 0;
    while i < all.len()
        invariant
            i <= all@.len(),
            all@ == catalog(),
            r@ == spec_select(catalog().take(i as int), SelectionRule::Among(inc@)),
        decreases all@.len() - i,
    {
        let keep = contains_language(inc.as_slice(), all[i]);
        proof {
            let next = catalog().take(i + 1);
            assert(next.drop_last() =~= catalog().take(i as int));
            assert(next.last() == catalog()[i as int]);
        }
        if keep {
            r.push(all[i]);
        }
        i += 1;
    }
    proof {
        assert(catalog().take(catalog().len() as int) =~= catalog());
    }
    r
}

/// Two distinct members make a selection at least two long.
proof fn lemma_two_members(s: Seq<Language>, l1: Language, l2: Language)
    requires
        s.contains(l1),
        s.contains(l2),
        l1 != l2,
    ensures
        s.len() >= 2,
{
    let i = choose|i: int| 0 <= i < s.len() && s[i] == l1;
    let j = choose|j: int| 0 <= j < s.len() && s[j] == l2;
    assert(i != j);
}

/// This struct configures and creates an instance of `LanguageDetector`.
pub struct LanguageDetectorBuilder {
    languages: Vec<Language>,
    minimum_relative_distance: u32,
}

impl LanguageDetectorBuilder {
    #[verifier::type_invariant]
    closed spec fn wf(&self) -> bool {
        &&& strictly_sorted(self.languages@)
        &&& 2 <= self.languages@.len() <= 17
        &&& self.minimum_relative_distance <= 99
    }

    /// The selected languages, in catalog order.
    pub closed spec fn spec_languages(&self) -> Seq<Language> {
        self.languages@
    }

    /// The selected minimum relative distance, in hundredths.
    pub closed spec fn spec_minimum_relative_distance(&self) -> int {
        self.minimum_relative_distance as int
    }

    /// The selected languages, in catalog order.
    pub fn languages(&self) -> (r: Vec<Language>)
        ensures
            r@ == self.spec_languages(),
    {
        copy_languages(&self.languages)
    }

    /// The selected minimum relative distance, in hundredths.
    pub fn minimum_relative_distance(&self) -> (r: u32)
        ensures
            r as int == self.spec_minimum_relative_distance(),
    {
        self.minimum_relative_distance
    }

    /// Wraps a validated selection.
    fn from_selection(languages: Vec<Language>) -> (b: LanguageDetectorBuilder)
        requires
            strictly_sorted(languages@),
            2 <= languages@.len() <= 17,
        ensures
            b.spec_languages() == languages@,
            b.spec_minimum_relative_distance() == 0,
    {
        LanguageDetectorBuilder { languages, minimum_relative_distance: 0 }
    }

    /// Creates and returns an instance of `LanguageDetectorBuilder`
    /// with all built-in languages.
    pub fn from_all_languages() -> (b: LanguageDetectorBuilder)
        ensures
            b.spec_languages() == catalog(),
            b.spec_minimum_relative_distance() == 0,
    {
        proof {
            lemma_catalog_facts();
        }
        Self::from_selection(Language::all())
    }

    /// Creates and returns an instance of `LanguageDetectorBuilder`
    /// with all built-in spoken languages.
    pub fn from_all_spoken_languages() -> (b: LanguageDetectorBuilder)
        ensures
            b.spec_languages() == spec_select(catalog(), SelectionRule::Spoken),
            b.spec_minimum_relative_distance() == 0,
    {
        let langs = Language::all_spoken_ones();
        proof {
            lemma_catalog_facts();
            lemma_select_properties(catalog(), SelectionRule::Spoken);
            assert(catalog().contains(Language::English) && spec_keeps(
                SelectionRule::Spoken,
                Language::English,
            ));
            assert(catalog().contains(Language::German));
            assert(langs@.contains(Language::English) && langs@.contains(Language::German));
            lemma_two_members(langs@, Language::English, Language::German);
        }
        Self::from_selection(langs)
    }

    /// Creates and returns an instance of `LanguageDetectorBuilder`
    /// with all built-in languages supporting the Arabic script.
    pub fn from_all_languages_with_arabic_script() -> (b: LanguageDetectorBuilder)
        ensures
            b.spec_languages() == spec_select(
                catalog(),
                SelectionRule::WrittenIn(Script::Arabic),
            ),
            b.spec_minimum_relative_distance() == 0,
    {
        let langs = Language::all_with_arabic_script();
        proof {
            lemma_catalog_facts();
            lemma_select_properties(catalog(), SelectionRule::WrittenIn(Script::Arabic));
            assert(catalog().contains(Language::Arabic) && catalog().contains(Language::Persian));
            assert(spec_keeps(SelectionRule::WrittenIn(Script::Arabic), Language::Arabic));
            assert(spec_keeps(SelectionRule::WrittenIn(Script::Arabic), Language::Persian));
            assert(langs@.contains(Language::Arabic) && langs@.contains(Language::Persian));
            lemma_two_members(langs@, Language::Arabic, Language::Persian);
        }
        Self::from_selection(langs)
    }

    /// Creates and returns an instance of `LanguageDetectorBuilder`
    /// with all built-in languages supporting the Cyrillic script.
    pub fn from_all_languages_with_cyrillic_script() -> (b: LanguageDetectorBuilder)
        ensures
            b.spec_languages() == spec_select(
                catalog(),
                SelectionRule::WrittenIn(Script::Cyrillic),
            ),
            b.spec_minimum_relative_distance() == 0,
    {
        let langs = Language::all_with_cyrillic_script();
        proof {
            lemma_catalog_facts();
            lemma_select_properties(catalog(), SelectionRule::WrittenIn(Script::Cyrillic));
            assert(catalog().contains(Language::Bulgarian) && catalog().contains(Language::Russian));
            assert(spec_keeps(SelectionRule::WrittenIn(Script::Cyrillic), Language::Bulgarian));
            assert(spec_keeps(SelectionRule::WrittenIn(Script::Cyrillic), Language::Russian));
            assert(langs@.contains(Language::Bulgarian) && langs@.contains(Language::Russian));
            lemma_two_members(langs@, Language::Bulgarian, Language::Russian);
        }
        Self::from_selection(langs)
    }

    /// Creates and returns an instance of `LanguageDetectorBuilder`
    /// with all built-in languages supporting the Devanagari script.
    pub fn from_all_languages_with_devanagari_script() -> (b: LanguageDetectorBuilder)
        ensures
            b.spec_languages() == spec_select(
                catalog(),
                SelectionRule::WrittenIn(Script::Devanagari),
            ),
            b.spec_minimum_relative_distance() == 0,
    {
        let langs = Language::all_with_devanagari_script();
        proof {
            lemma_catalog_facts();
            lemma_select_properties(catalog(), SelectionRule::WrittenIn(Script::Devanagari));
            assert(catalog().contains(Language::Hindi) && catalog().contains(Language::Marathi));
            assert(spec_keeps(SelectionRule::WrittenIn(Script::Devanagari), Language::Hindi));
            assert(spec_keeps(SelectionRule::WrittenIn(Script::Devanagari), Language::Marathi));
            assert(langs@.contains(Language::Hindi) && langs@.contains(Language::Marathi));
            lemma_two_members(langs@, Language::Hindi, Language::Marathi);
        }
        Self::from_selection(langs)
    }

    /// Creates and returns an instance of `LanguageDetectorBuilder`
    /// with all built-in languages supporting the Latin script.
    pub fn from_all_languages_with_latin_script() -> (b: LanguageDetectorBuilder)
        ensures
            b.spec_languages() == spec_select(catalog(), SelectionRule::WrittenIn(Script::Latin)),
            b.spec_minimum_relative_distance() == 0,
    {
        let langs = Language::all_with_latin_script();
        proof {
            lemma_catalog_facts();
            lemma_select_properties(catalog(), SelectionRule::WrittenIn(Script::Latin));
            assert(catalog().contains(Language::English) && catalog().contains(Language::French));
            assert(spec_keeps(SelectionRule::WrittenIn(Script::Latin), Language::English));
            assert(spec_keeps(SelectionRule::WrittenIn(Script::Latin), Language::French));
            assert(langs@.contains(Language::English) && langs@.contains(Language::French));
            lemma_two_members(langs@, Language::English, Language::French);
        }
        Self::from_selection(langs)
    }

    /// Creates and returns an instance of `LanguageDetectorBuilder`
    /// with all built-in languages except those specified in
    /// `languages`.  At least two languages must remain.
    pub fn from_all_languages_without(languages: &[Language]) -> (b: LanguageDetectorBuilder)
        requires
            exists|l1: Language, l2: Language|
                l1 != l2 && !languages@.contains(l1) && !languages@.contains(l2),
        ensures
            b.spec_languages() == spec_select(
                catalog(),
                SelectionRule::Excluding(languages@),
            ),
            b.spec_minimum_relative_distance() == 0,
    {
        let langs = select_excluding(languages);
        proof {
            lemma_catalog_facts();
            lemma_select_properties(catalog(), SelectionRule::Excluding(languages@));
            let (l1, l2) = choose|l1: Language, l2: Language|
                l1 != l2 && !languages@.contains(l1) && !languages@.contains(l2);
            assert(catalog().contains(l1) && catalog().contains(l2));
            assert(spec_keeps(SelectionRule::Excluding(languages@), l1));
            assert(spec_keeps(SelectionRule::Excluding(languages@), l2));
            assert(langs@.contains(l1) && langs@.contains(l2));
            lemma_two_members(langs@, l1, l2);
        }
        Self::from_selection(langs)
    }

    /// Creates and returns an instance of `LanguageDetectorBuilder`
    /// with the specified `languages`, of which at least two must be
    /// distinct.
    pub fn from_languages(languages: &[Language]) -> (b: LanguageDetectorBuilder)
        requires
            exists|i: int, j: int|
                0 <= i < languages@.len() && 0 <= j < languages@.len() && languages@[i]
                    != languages@[j],
        ensures
            b.spec_languages() == spec_select(catalog(), SelectionRule::Among(languages@)),
            b.spec_minimum_relative_distance() == 0,
    {
        let included = copy_languages(&slice_to_vec(languages));
        let langs = select_among(&included);
        proof {
            lemma_catalog_facts();
            lemma_select_properties(catalog(), SelectionRule::Among(languages@));
            let (i, j) = choose|i: int, j: int|
                0 <= i < languages@.len() && 0 <= j < languages@.len() && languages@[i]
                    != languages@[j];
            assert(languages@.contains(languages@[i]));
            assert(languages@.contains(languages@[j]));
            assert(catalog().contains(languages@[i]) && catalog().contains(languages@[j]));
            assert(langs@.contains(languages@[i]) && langs@.contains(languages@[j]));
            lemma_two_members(langs@, languages@[i], languages@[j]);
        }
        Self::from_selection(langs)
    }

    /// Creates and returns an instance of `LanguageDetectorBuilder`
    /// with the languages specified by the respective ISO 639-1 codes,
    /// of which at least two must name distinct languages.
    pub fn from_iso_codes_639_1(iso_codes: &[IsoCode639_1]) -> (b: LanguageDetectorBuilder)
        requires
            exists|i: int, j: int|
                0 <= i < iso_codes@.len() && 0 <= j < iso_codes@.len() && spec_from_iso_639_1(
                    iso_codes@[i],
                ) != spec_from_iso_639_1(iso_codes@[j]),
        ensures
            b.spec_languages() == spec_select(
                catalog(),
                SelectionRule::Among(spec_langs_of_iso_639_1(iso_codes@)),
            ),
            b.spec_minimum_relative_distance() == 0,
    {
        let mut included: Vec<Language> = Vec::new();
        let mut i: usize = 0;
        while i < iso_codes.len()
            invariant
                i <= iso_codes@.len(),
                included@.len() == i,
                forall|k: int|
                    0 <= k < i ==> #[trigger] included@[k] == spec_from_iso_639_1(iso_codes@[k]),
            decreases iso_codes@.len() - i,
        {
            included.push(Language::from_iso_code_639_1(iso_codes[i]));
            i += 1;
        }
        proof {
            assert(included@ =~= spec_langs_of_iso_639_1(iso_codes@));
        }
        let langs = select_among(&included);
        proof {
            lemma_catalog_facts();
            lemma_select_properties(
                catalog(),
                SelectionRule::Among(spec_langs_of_iso_639_1(iso_codes@)),
            );
            let (i, j) = choose|i: int, j: int|
                0 <= i < iso_codes@.len() && 0 <= j < iso_codes@.len() && spec_from_iso_639_1(
                    iso_codes@[i],
                ) != spec_from_iso_639_1(iso_codes@[j]);
            let m = spec_langs_of_iso_639_1(iso_codes@);
            assert(m.contains(m[i]));
            assert(m.contains(m[j]));
            assert(catalog().contains(m[i]) && catalog().contains(m[j]));
            assert(langs@.contains(m[i]) && langs@.contains(m[j]));
            lemma_two_members(langs@, m[i], m[j]);
        }
        Self::from_selection(langs)
    }

    /// Creates and returns an instance of `LanguageDetectorBuilder`
    /// with the languages specified by the respective ISO 639-3 codes,
    /// of which at least two must name distinct languages.
    pub fn from_iso_codes_639_3(iso_codes: &[IsoCode639_3]) -> (b: LanguageDetectorBuilder)
        requires
            exists|i: int, j: int|
                0 <= i < iso_codes@.len() && 0 <= j < iso_codes@.len() && spec_from_iso_639_3(
                    iso_codes@[i],
                ) != spec_from_iso_639_3(iso_codes@[j]),
        ensures
            b.spec_languages() == spec_select(
                catalog(),
                SelectionRule::Among(spec_langs_of_iso_639_3(iso_codes@)),
            ),
            b.spec_minimum_relative_distance() == 0,
    {
        let mut included: Vec<Language> = Vec::new();
        let mut i: usize = 0;
        while i < iso_codes.len()
            invariant
                i <= iso_codes@.len(),
                included@.len() == i,
                forall|k: int|
                    0 <= k < i ==> #[trigger] included@[k] == spec_from_iso_639_3(iso_codes@[k]),
            decreases iso_codes@.len() - i,
        {
            included.push(Language::from_iso_code_639_3(iso_codes[i]));
            i += 1;
        }
        proof {
            assert(included@ =~= spec_langs_of_iso_639_3(iso_codes@));
        }
        let langs = select_among(&included);
        proof {
            lemma_catalog_facts();
            lemma_select_properties(
                catalog(),
                SelectionRule::Among(spec_langs_of_iso_639_3(iso_codes@)),
            );
            let (i, j) = choose|i: int, j: int|
                0 <= i < iso_codes@.len() && 0 <= j < iso_codes@.len() && spec_from_iso_639_3(
                    iso_codes@[i],
                ) != spec_from_iso_639_3(iso_codes@[j]);
            let m = spec_langs_of_iso_639_3(iso_codes@);
            assert(m.contains(m[i]));
            assert(m.contains(m[j]));
            assert(catalog().contains(m[i]) && catalog().contains(m[j]));
            assert(langs@.contains(m[i]) && langs@.contains(m[j]));
            lemma_two_members(langs@, m[i], m[j]);
        }
        Self::from_selection(langs)
    }

    /// Sets the desired value for the minimum relative distance
    /// measure, in hundredths, between zero and ninety-nine.
    pub fn with_minimum_relative_distance(&mut self, distance: u32)
        requires
            distance <= 99,
        ensures
            final(self).spec_languages() == old(self).spec_languages(),
            final(self).spec_minimum_relative_distance() == distance as int,
    {
        proof {
            use_type_invariant(&*self);
        }
        self.minimum_relative_distance = distance;
    }

    /// Creates and returns the configured instance of
    /// `LanguageDetector`.  The detector holds exactly the packaged
    /// models of the selected languages, so two identically configured
    /// builders build detectors that agree on every input.
    pub fn build(&self) -> (d: LanguageDetector)
        ensures
            d.languages() == self.spec_languages(),
            d.relative_distance() == self.spec_minimum_relative_distance(),
            d.model_views() == spec_builtin_models(self.spec_languages()),
            d.model_views().len() == self.spec_languages().len(),
            forall|i: int|
                0 <= i < d.model_views().len() ==> wf_entries(#[trigger] d.model_views()[i]),
    {
        proof {
            use_type_invariant(self);
        }
        let langs = copy_languages(&self.languages);
        LanguageDetector::from(langs, self.minimum_relative_distance)
    }
}

/// Copies a language slice into a vector.
fn slice_to_vec(s: &[Language]) -> (r: Vec<Language>)
    ensures
        r@ == s@,
{
    let mut r: Vec<Language> = Vec::new();
    let mut i: usize = 0;
    while i < s.len()
        invariant
            i <= s@.len(),
            r@ == s@.take(i as int),
        decreases s@.len() - i,
    {
        r.push(s[i]);
        proof {
            assert(r@ =~= s@.take(i + 1));
        }
        i += 1;
    }
    proof {
        assert(s@.take(s@.len() as int) =~= s@);
    }
    r
}

} // verus!
