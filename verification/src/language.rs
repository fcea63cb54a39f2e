//! The closed catalog of supported languages.
//!
//! Each language carries a canonical catalog position, ISO 639-1 and
//! ISO 639-3 codes, the writing system it is written in, and a spoken
//! flag.  The catalog is a process-wide constant: no instance is created
//! or destroyed at runtime, and the catalog order is the deterministic
//! tie-breaking order used throughout the detection pipeline.

use vstd::prelude::*;
use crate::script::Script;

verus! {

/// A supported natural language, in catalog (alphabetical) order.
#[derive(Clone, Copy, Debug, PartialEq, Eq, Hash, Structural)]
pub enum Language {
    Arabic,
    Bulgarian,
    Chinese,
    English,
    French,
    German,
    Greek,
    Hebrew,
    Hindi,
    Korean,
    Latin,
    Marathi,
    Persian,
    Romanian,
    Russian,
    Swedish,
    Turkish,
}

/// ISO 639-1 code of a supported language.
#[derive(Clone, Copy, Debug, PartialEq, Eq, Hash, Structural)]
pub enum IsoCode639_1 {
    AR,
    BG,
    ZH,
    EN,
    FR,
    DE,
    EL,
    HE,
    HI,
    KO,
    LA,
    MR,
    FA,
    RO,
    RU,
    SV,
    TR,
}

/// ISO 639-3 code of a supported language.
#[derive(Clone, Copy, Debug, PartialEq, Eq, Hash, Structural)]
pub enum IsoCode639_3 {
    ARA,
    BUL,
    ZHO,
    ENG,
    FRA,
    DEU,
    ELL,
    HEB,
    HIN,
    KOR,
    LAT,
    MAR,
    FAS,
    RON,
    RUS,
    SWE,
    TUR,
}

/// The full catalog, in catalog order.
pub open spec fn catalog() -> Seq<Language> {
    seq![
        Language::Arabic,
        Language::Bulgarian,
        Language::Chinese,
        Language::English,
        Language::French,
        Language::German,
        Language::Greek,
        Language::Hebrew,
        Language::Hindi,
        Language::Korean,
        Language::Latin,
        Language::Marathi,
        Language::Persian,
        Language::Romanian,
        Language::Russian,
        Language::Swedish,
        Language::Turkish,
    ]
}

/// Position of a language in the catalog.
pub open spec fn spec_lang_index(l: Language) -> int {
    match l {
        Language::Arabic => 0,
        Language::Bulgarian => 1,
        Language::Chinese => 2,
        Language::English => 3,
        Language::French => 4,
        Language::German => 5,
        Language::Greek => 6,
        Language::Hebrew => 7,
        Language::Hindi => 8,
        Language::Korean => 9,
        Language::Latin => 10,
        Language::Marathi => 11,
        Language::Persian => 12,
        Language::Romanian => 13,
        Language::Russian => 14,
        Language::Swedish => 15,
        Language::Turkish => 16,
    }
}

/// Every language of the catalog but Latin is a spoken language.
pub open spec fn spec_is_spoken(l: Language) -> bool {
    l != Language::Latin
}

/// Whether a language can be written in a given script.
pub open spec fn spec_uses_script(l: Language, s: Script) -> bool {
    match l {
        Language::Arabic => s == Script::Arabic,
        Language::Bulgarian => s == Script::Cyrillic,
        Language::Chinese => s == Script::Han,
        Language::English => s == Script::Latin,
        Language::French => s == Script::Latin,
        Language::German => s == Script::Latin,
        Language::Greek => s == Script::Greek,
        Language::Hebrew => s == Script::Hebrew,
        Language::Hindi => s == Script::Devanagari,
        Language::Korean => s == Script::Hangul,
        Language::Latin => s == Script::Latin,
        Language::Marathi => s == Script::Devanagari,
        Language::Persian => s == Script::Arabic,
        Language::Romanian => s == Script::Latin,
        Language::Russian => s == Script::Cyrillic,
        Language::Swedish => s == Script::Latin,
        Language::Turkish => s == Script::Latin,
    }
}

/// Language of an ISO 639-1 code.
pub open spec fn spec_from_iso_639_1(c: IsoCode639_1) -> Language {
    match c {
        IsoCode639_1::AR => Language::Arabic,
        IsoCode639_1::BG => Language::Bulgarian,
        IsoCode639_1::ZH => Language::Chinese,
        IsoCode639_1::EN => Language::English,
        IsoCode639_1::FR => Language::French,
        IsoCode639_1::DE => Language::German,
        IsoCode639_1::EL => Language::Greek,
        IsoCode639_1::HE => Language::Hebrew,
        IsoCode639_1::HI => Language::Hindi,
        IsoCode639_1::KO => Language::Korean,
        IsoCode639_1::LA => Language::Latin,
        IsoCode639_1::MR => Language::Marathi,
        IsoCode639_1::FA => Language::Persian,
        IsoCode639_1::RO => Language::Romanian,
        IsoCode639_1::RU => Language::Russian,
        IsoCode639_1::SV => Language::Swedish,
        IsoCode639_1::TR => Language::Turkish,
    }
}

/// Language of an ISO 639-3 code.
pub open spec fn spec_from_iso_639_3(c: IsoCode639_3) -> Language {
    match c {
        IsoCode639_3::ARA => Language::Arabic,
        IsoCode639_3::BUL => Language::Bulgarian,
        IsoCode639_3::ZHO => Language::Chinese,
        IsoCode639_3::ENG => Language::English,
        IsoCode639_3::FRA => Language::French,
        IsoCode639_3::DEU => Language::German,
        IsoCode639_3::ELL => Language::Greek,
        IsoCode639_3::HEB => Language::Hebrew,
        IsoCode639_3::HIN => Language::Hindi,
        IsoCode639_3::KOR => Language::Korean,
        IsoCode639_3::LAT => Language::Latin,
        IsoCode639_3::MAR => Language::Marathi,
        IsoCode639_3::FAS => Language::Persian,
        IsoCode639_3::RON => Language::Romanian,
        IsoCode639_3::RUS => Language::Russian,
        IsoCode639_3::SWE => Language::Swedish,
        IsoCode639_3::TUR => Language::Turkish,
    }
}

/// A language sequence in strictly ascending catalog order: sorted, and
/// therefore free of duplicates.
pub open spec fn strictly_sorted(s: Seq<Language>) -> bool {
    forall|i: int, j: int|
        0 <= i < j < s.len() ==> spec_lang_index(s[i]) < spec_lang_index(s[j])
}

/// A rule for selecting a subset of a language sequence.
pub enum SelectionRule {
    Spoken,
    WrittenIn(Script),
    Excluding(Seq<Language>),
    Among(Seq<Language>),
}

/// Whether a selection rule keeps a language.
pub open spec fn spec_keeps(r: SelectionRule, l: Language) -> bool {
    match r {
        SelectionRule::Spoken => spec_is_spoken(l),
        SelectionRule::WrittenIn(s) => spec_uses_script(l, s),
        SelectionRule::Excluding(excl) => !excl.contains(l),
        SelectionRule::Among(inc) => inc.contains(l),
    }
}

/// The subsequence of the languages a rule keeps, in the original order.
pub open spec fn spec_select(s: Seq<Language>, r: SelectionRule) -> Seq<Language>
    decreases s.len(),
{
    if s.len() == 0 {
        Seq::empty()
    } else {
        let rest = spec_select(s.drop_last(), r);
        if spec_keeps(r, s.last()) {
            rest.push(s.last())
        } else {
            rest
        }
    }
}

/// Selection keeps exactly the matching members, never grows, and
/// preserves strict catalog order.
pub proof fn lemma_select_properties(s: Seq<Language>, r: SelectionRule)
    ensures
        spec_select(s, r).len() <= s.len(),
        forall|l: Language|
            spec_select(s, r).contains(l) <==> s.contains(l) && spec_keeps(r, l),
        strictly_sorted(s) ==> strictly_sorted(spec_select(s, r)),
    decreases s.len(),
{
    if s.len() == 0 {
        assert forall|l: Language|
            spec_select(s, r).contains(l) <==> s.contains(l) && spec_keeps(r, l) by {
            assert(!s.contains(l));
        }
    } else {
        let d = s.drop_last();
        lemma_select_properties(d, r);
        let sel = spec_select(s, r);
        let seld = spec_select(d, r);
        assert forall|l: Language| sel.contains(l) <==> s.contains(l) && spec_keeps(r, l) by {
            assert(s.contains(l) <==> (d.contains(l) || l == s.last())) by {
                if s.contains(l) {
                    let i = choose|i: int| 0 <= i < s.len() && s[i] == l;
                    if i < s.len() - 1 {
                        assert(d[i] == l);
                    }
                }
                if d.contains(l) {
                    let i = choose|i: int| 0 <= i < d.len() && d[i] == l;
                    assert(s[i] == l);
                }
                if l == s.last() {
                    assert(s[s.len() - 1] == l);
                }
            }
            if spec_keeps(r, s.last()) {
                assert(sel == seld.push(s.last()));
                assert(sel.contains(l) <==> (seld.contains(l) || l == s.last())) by {
                    if sel.contains(l) {
                        let i = choose|i: int| 0 <= i < sel.len() && sel[i] == l;
                        if i < sel.len() - 1 {
                            assert(seld[i] == l);
                        }
                    }
                    if seld.contains(l) {
                        let i = choose|i: int| 0 <= i < seld.len() && seld[i] == l;
                        assert(sel[i] == l);
                    }
                    if l == s.last() {
                        assert(sel[sel.len() - 1] == l);
                    }
                }
            }
        }
        if strictly_sorted(s) {
            assert(strictly_sorted(d));
            if spec_keeps(r, s.last()) {
                assert forall|i: int, j: int|
                    0 <= i < j < sel.len() implies spec_lang_index(sel[i]) < spec_lang_index(
                    sel[j],
                ) by {
                    if j < sel.len() - 1 {
                        assert(sel[i] == seld[i] && sel[j] == seld[j]);
                    } else {
                        assert(sel[j] == s.last());
                        assert(seld.contains(seld[i]));
                        assert(d.contains(seld[i]) && spec_keeps(r, seld[i]));
                        let k = choose|k: int| 0 <= k < d.len() && d[k] == seld[i];
                        assert(s[k] == seld[i]);
                        assert(spec_lang_index(s[k]) < spec_lang_index(s[s.len() - 1]));
                    }
                }
            }
        }
    }
}

/// Basic catalog facts: its length, that each language sits at its own
/// index, and that the catalog is strictly sorted.
pub proof fn lemma_catalog_facts()
    ensures
        catalog().len() == 17,
        forall|l: Language| #[trigger] catalog()[spec_lang_index(l)] == l,
        forall|l: Language| catalog().contains(l),
        strictly_sorted(catalog()),
        forall|i: int| 0 <= i < 17 ==> spec_lang_index(#[trigger] catalog()[i]) == i,
{
    assert forall|l: Language| #[trigger] catalog()[spec_lang_index(l)] == l by {
        match l {
            Language::Arabic => assert(catalog()[0] == Language::Arabic),
            Language::Bulgarian => assert(catalog()[1] == Language::Bulgarian),
            Language::Chinese => assert(catalog()[2] == Language::Chinese),
            Language::English => assert(catalog()[3] == Language::English),
            Language::French => assert(catalog()[4] == Language::French),
            Language::German => assert(catalog()[5] == Language::German),
            Language::Greek => assert(catalog()[6] == Language::Greek),
            Language::Hebrew => assert(catalog()[7] == Language::Hebrew),
            Language::Hindi => assert(catalog()[8] == Language::Hindi),
            Language::Korean => assert(catalog()[9] == Language::Korean),
            Language::Latin => assert(catalog()[10] == Language::Latin),
            Language::Marathi => assert(catalog()[11] == Language::Marathi),
            Language::Persian => assert(catalog()[12] == Language::Persian),
            Language::Romanian => assert(catalog()[13] == Language::Romanian),
            Language::Russian => assert(catalog()[14] == Language::Russian),
            Language::Swedish => assert(catalog()[15] == Language::Swedish),
            Language::Turkish => assert(catalog()[16] == Language::Turkish),
        }
    }
    assert forall|l: Language| catalog().contains(l) by {
        assert(catalog()[spec_lang_index(l)] == l);
    }
    assert forall|i: int| 0 <= i < 17 implies spec_lang_index(#[trigger] catalog()[i]) == i by {
        let l = catalog()[i];
        assert(catalog()[spec_lang_index(l)] == l);
        if spec_lang_index(l) != i {
            assert(spec_lang_index(catalog()[0]) == 0);
            assert(spec_lang_index(catalog()[1]) == 1);
            assert(spec_lang_index(catalog()[2]) == 2);
            assert(spec_lang_index(catalog()[3]) == 3);
            assert(spec_lang_index(catalog()[4]) == 4);
            assert(spec_lang_index(catalog()[5]) == 5);
            assert(spec_lang_index(catalog()[6]) == 6);
            assert(spec_lang_index(catalog()[7]) == 7);
            assert(spec_lang_index(catalog()[8]) == 8);
            assert(spec_lang_index(catalog()[9]) == 9);
            assert(spec_lang_index(catalog()[10]) == 10);
            assert(spec_lang_index(catalog()[11]) == 11);
            assert(spec_lang_index(catalog()[12]) == 12);
            assert(spec_lang_index(catalog()[13]) == 13);
            assert(spec_lang_index(catalog()[14]) == 14);
            assert(spec_lang_index(catalog()[15]) == 15);
            assert(spec_lang_index(catalog()[16]) == 16);
        }
    }
    assert(strictly_sorted(catalog()));
}

impl Language {
    /// All languages of the catalog, in catalog order.
    pub fn all() -> (r: Vec<Language>)
        ensures
            r@ == catalog(),
    {
        let mut v: Vec<Language> = Vec::new();
        v.push(Language::Arabic);
        v.push(Language::Bulgarian);
        v.push(Language::Chinese);
        v.push(Language::English);
        v.push(Language::French);
        v.push(Language::German);
        v.push(Language::Greek);
        v.push(Language::Hebrew);
        v.push(Language::Hindi);
        v.push(Language::Korean);
        v.push(Language::Latin);
        v.push(Language::Marathi);
        v.push(Language::Persian);
        v.push(Language::Romanian);
        v.push(Language::Russian);
        v.push(Language::Swedish);
        v.push(Language::Turkish);
        proof {
            assert(v@ =~= catalog());
        }
        v
    }

    /// Whether this language is a spoken language.
    pub fn is_spoken(self) -> (r: bool)
        ensures
            r == spec_is_spoken(self),
    {
        !matches!(self, Language::Latin)
    }

    /// Whether this language can be written in the given script.
    pub fn uses_script(self, s: Script) -> (r: bool)
        ensures
            r == spec_uses_script(self, s),
    {
        match self {
            Language::Arabic => matches!(s, Script::Arabic),
            Language::Bulgarian => matches!(s, Script::Cyrillic),
            Language::Chinese => matches!(s, Script::Han),
            Language::English => matches!(s, Script::Latin),
            Language::French => matches!(s, Script::Latin),
            Language::German => matches!(s, Script::Latin),
            Language::Greek => matches!(s, Script::Greek),
            Language::Hebrew => matches!(s, Script::Hebrew),
            Language::Hindi => matches!(s, Script::Devanagari),
            Language::Korean => matches!(s, Script::Hangul),
            Language::Latin => matches!(s, Script::Latin),
            Language::Marathi => matches!(s, Script::Devanagari),
            Language::Persian => matches!(s, Script::Arabic),
            Language::Romanian => matches!(s, Script::Latin),
            Language::Russian => matches!(s, Script::Cyrillic),
            Language::Swedish => matches!(s, Script::Latin),
            Language::Turkish => matches!(s, Script::Latin),
        }
    }

    /// The language a given ISO 639-1 code stands for.
    pub fn from_iso_code_639_1(c: IsoCode639_1) -> (r: Language)
        ensures
            r == spec_from_iso_639_1(c),
    {
        match c {
            IsoCode639_1::AR => Language::Arabic,
            IsoCode639_1::BG => Language::Bulgarian,
            IsoCode639_1::ZH => Language::Chinese,
            IsoCode639_1::EN => Language::English,
            IsoCode639_1::FR => Language::French,
            IsoCode639_1::DE => Language::German,
            IsoCode639_1::EL => Language::Greek,
            IsoCode639_1::HE => Language::Hebrew,
            IsoCode639_1::HI => Language::Hindi,
            IsoCode639_1::KO => Language::Korean,
            IsoCode639_1::LA => Language::Latin,
            IsoCode639_1::MR => Language::Marathi,
            IsoCode639_1::FA => Language::Persian,
            IsoCode639_1::RO => Language::Romanian,
            IsoCode639_1::RU => Language::Russian,
            IsoCode639_1::SV => Language::Swedish,
            IsoCode639_1::TR => Language::Turkish,
        }
    }

    /// The language a given ISO 639-3 code stands for.
    pub fn from_iso_code_639_3(c: IsoCode639_3) -> (r: Language)
        ensures
            r == spec_from_iso_639_3(c),
    {
        match c {
            IsoCode639_3::ARA => Language::Arabic,
            IsoCode639_3::BUL => Language::Bulgarian,
            IsoCode639_3::ZHO => Language::Chinese,
            IsoCode639_3::ENG => Language::English,
            IsoCode639_3::FRA => Language::French,
            IsoCode639_3::DEU => Language::German,
            IsoCode639_3::ELL => Language::Greek,
            IsoCode639_3::HEB => Language::Hebrew,
            IsoCode639_3::HIN => Language::Hindi,
            IsoCode639_3::KOR => Language::Korean,
            IsoCode639_3::LAT => Language::Latin,
            IsoCode639_3::MAR => Language::Marathi,
            IsoCode639_3::FAS => Language::Persian,
            IsoCode639_3::RON => Language::Romanian,
            IsoCode639_3::RUS => Language::Russian,
            IsoCode639_3::SWE => Language::Swedish,
            IsoCode639_3::TUR => Language::Turkish,
        }
    }

    /// All spoken languages of the catalog, in catalog order.
    pub fn all_spoken_ones() -> (r: Vec<Language>)
        ensures
            r@ == spec_select(catalog(), SelectionRule::Spoken),
    {
        let all = Language::all();
        let mut r: Vec<Language> = Vec::new();
        let mut i: usize = 0;
        while i < all.len()
            invariant
                i <= all@.len(),
                all@ == catalog(),
                r@ == spec_select(catalog().take(i as int), SelectionRule::Spoken),
            decreases all@.len() - i,
        {
            let keep = all[i].is_spoken();
            proof {
                let next = catalog().take(i + 1);
                assert(next.drop_last() =~= catalog().take(i as int));
                assert(next.last() == catalog()[i as int]);
            }
            if keep {
                r.push(all[i]);
            }
            i += 1;
        }
        proof {
            assert(catalog().take(catalog().len() as int) =~= catalog());
        }
        r
    }

    /// All languages of the catalog written in a given script, in
    /// catalog order.
    pub fn all_written_in(s: Script) -> (r: Vec<Language>)
        ensures
            r@ == spec_select(catalog(), SelectionRule::WrittenIn(s)),
    {
        let all = Language::all();
        let mut r: Vec<Language> = Vec::new();
        let mut i: usize = 0;
        while i < all.len()
            invariant
                i <= all@.len(),
                all@ == catalog(),
                r@ == spec_select(catalog().take(i as int), SelectionRule::WrittenIn(s)),
            decreases all@.len() - i,
        {
            let keep = all[i].uses_script(s);
            proof {
                let next = catalog().take(i + 1);
                assert(next.drop_last() =~= catalog().take(i as int));
                assert(next.last() == catalog()[i as int]);
            }
            if keep {
                r.push(all[i]);
            }
            i += 1;
        }
        proof {
            assert(catalog().take(catalog().len() as int) =~= catalog());
        }
        r
    }

    /// All languages of the catalog written in the Arabic script.
    pub fn all_with_arabic_script() -> (r: Vec<Language>)
        ensures
            r@ == spec_select(catalog(), SelectionRule::WrittenIn(Script::Arabic)),
    {
        Self::all_written_in(Script::Arabic)
    }

    /// All languages of the catalog written in the Cyrillic script.
    pub fn all_with_cyrillic_script() -> (r: Vec<Language>)
        ensures
            r@ == spec_select(catalog(), SelectionRule::WrittenIn(Script::Cyrillic)),
    {
        Self::all_written_in(Script::Cyrillic)
    }

    /// All languages of the catalog written in the Devanagari script.
    pub fn all_with_devanagari_script() -> (r: Vec<Language>)
        ensures
            r@ == spec_select(catalog(), SelectionRule::WrittenIn(Script::Devanagari)),
    {
        Self::all_written_in(Script::Devanagari)
    }

    /// All languages of the catalog written in the Latin script.
    pub fn all_with_latin_script() -> (r: Vec<Language>)
        ensures
            r@ == spec_select(catalog(), SelectionRule::WrittenIn(Script::Latin)),
    {
        Self::all_written_in(Script::Latin)
    }
}

/// Whether a language list contains a given language.
pub fn contains_language(list: &[Language], l: Language) -> (r: bool)
    ensures
        r == list@.contains(l),
{
    let mut i: usize = 0;
    while i < list.len()
        invariant
            i <= list@.len(),
            forall|k: int| 0 <= k < i ==> list@[k] != l,
        decreases list@.len() - i,
    {
        if list[i] == l {
            return true;
        }
        i += 1;
    }
    false
}

} // verus!
