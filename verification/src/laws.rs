//! Laws of the detection pipeline.
//!
//! Each proof function states a guarantee that holds of every detector
//! whose configuration satisfies the premises `LanguageDetector::from`
//! establishes: a sorted set of at least two languages and one
//! well-formed model per language.  Together with the postcondition of
//! `detect_language_of` — the returned value equals `spec_detect` of
//! the configuration and the text — they carry over to every call.

use vstd::prelude::*;
use crate::language::Language;
use crate::script::spec_code_points;
use crate::ngram::{spec_words, lemma_words_nonempty};
use crate::model::{wf_entries, lemma_score_negative, lemma_kept_entries_wf};
use crate::models::{spec_builtin_raw, spec_builtin_model, spec_builtin_models};
use crate::detector::{
    spec_detect, spec_candidates, spec_rank, spec_margin_ok, lemma_candidates_bounds,
    lemma_rank_member,
};

verus! {

/// Detection never invents a language: whatever `detect_language_of`
/// returns is `None` or a member of the configured candidate set.
pub proof fn lemma_detection_stays_in_configured_set(
    langs: Seq<Language>,
    models: Seq<Seq<(Seq<u32>, i64)>>,
    mrd: int,
    text: Seq<char>,
)
    requires
        langs.len() >= 1,
    ensures
        spec_detect(langs, models, mrd, text) matches Some(l) ==> langs.contains(l),
{
    let cps = spec_code_points(text);
    let words = spec_words(cps);
    if words.len() > 0 {
        let cands = spec_candidates(langs, cps);
        lemma_candidates_bounds(langs, cps);
        if cands.len() == 1 {
            assert(langs[cands[0]] == langs[cands[0]]);
            assert(0 <= cands[0] < langs.len());
        } else {
            lemma_rank_member(models, words, cands);
            let b = spec_rank(models, words, cands).0;
            let k = choose|k: int| 0 <= k < cands.len() && cands[k] == b;
            assert(0 <= b < langs.len());
        }
    }
}

/// When script filtering leaves exactly one candidate, that language is
/// returned regardless of the scores and of the margin.
pub proof fn lemma_single_candidate_wins(
    langs: Seq<Language>,
    models: Seq<Seq<(Seq<u32>, i64)>>,
    mrd: int,
    text: Seq<char>,
)
    requires
        spec_words(spec_code_points(text)).len() > 0,
        spec_candidates(langs, spec_code_points(text)).len() == 1,
    ensures
        spec_detect(langs, models, mrd, text) == Some(
            langs[spec_candidates(langs, spec_code_points(text))[0]],
        ),
{
}

/// Raising the minimum relative distance can only turn a decision into
/// "unknown": whenever the higher margin still decides, the lower
/// margin decides for the same language.
pub proof fn lemma_raising_margin_only_withholds(
    langs: Seq<Language>,
    models: Seq<Seq<(Seq<u32>, i64)>>,
    mrd_low: int,
    mrd_high: int,
    text: Seq<char>,
)
    requires
        0 <= mrd_low <= mrd_high,
        langs.len() >= 1,
        models.len() == langs.len(),
        forall|i: int| 0 <= i < models.len() ==> wf_entries(#[trigger] models[i]),
    ensures
        spec_detect(langs, models, mrd_high, text) matches Some(l) ==> spec_detect(
            langs,
            models,
            mrd_low,
            text,
        ) == Some(l),
{
    let cps = spec_code_points(text);
    let words = spec_words(cps);
    if words.len() > 0 {
        let cands = spec_candidates(langs, cps);
        lemma_candidates_bounds(langs, cps);
        if cands.len() != 1 {
            lemma_rank_member(models, words, cands);
            let r = spec_rank(models, words, cands);
            assert(0 <= r.0 < langs.len()) by {
                let k = choose|k: int| 0 <= k < cands.len() && cands[k] == r.0;
            }
            lemma_words_nonempty(cps);
            lemma_score_negative(models[r.0], words);
            assert(r.1 < 0);
            if r.2 matches Some(s2) && spec_margin_ok(r.1, s2, mrd_high) {
                let s2 = r.2->Some_0;
                assert(mrd_low * (-r.1) <= mrd_high * (-r.1)) by (nonlinear_arith)
                    requires
                        0 <= mrd_low <= mrd_high,
                        r.1 < 0,
                ;
                assert(spec_margin_ok(r.1, s2, mrd_low));
            }
        }
    }
}

/// The margin monotonicity law for built detectors.  `build` pins the
/// loaded models to `spec_builtin_models` of the selected languages,
/// so two identically configured detectors hold identical models; this
/// law states the consequence for them directly: between two builds of
/// the same language set, raising the minimum relative distance can
/// only turn a decision into "unknown", never flip the decided
/// language.
pub proof fn lemma_raising_margin_between_builds(
    langs: Seq<Language>,
    mrd_low: int,
    mrd_high: int,
    text: Seq<char>,
)
    requires
        0 <= mrd_low <= mrd_high,
        langs.len() >= 1,
    ensures
        spec_detect(langs, spec_builtin_models(langs), mrd_high, text) matches Some(l)
            ==> spec_detect(langs, spec_builtin_models(langs), mrd_low, text) == Some(l),
{
    assert forall|i: int|
        0 <= i < spec_builtin_models(langs).len() implies wf_entries(
        #[trigger] spec_builtin_models(langs)[i],
    ) by {
        assert(spec_builtin_models(langs)[i] == spec_builtin_model(langs[i]));
        lemma_kept_entries_wf(spec_builtin_raw(langs[i]));
    }
    lemma_raising_margin_only_withholds(
        langs,
        spec_builtin_models(langs),
        mrd_low,
        mrd_high,
        text,
    );
}

/// Whenever detection decides, it decides for the language that heads
/// the confidence distribution: `detect_language_of` answers with the
/// ranked best candidate, and `compute_language_confidence_values`
/// puts exactly that candidate first.
pub proof fn lemma_decision_heads_confidence_list(
    langs: Seq<Language>,
    models: Seq<Seq<(Seq<u32>, i64)>>,
    mrd: int,
    text: Seq<char>,
)
    requires
        spec_detect(langs, models, mrd, text) is Some,
        spec_words(spec_code_points(text)).len() > 0,
    ensures
        spec_detect(langs, models, mrd, text) == Some(
            langs[spec_rank(
                models,
                spec_words(spec_code_points(text)),
                spec_candidates(langs, spec_code_points(text)),
            ).0],
        ),
{
    let cps = spec_code_points(text);
    let words = spec_words(cps);
    let cands = spec_candidates(langs, cps);
    if cands.len() == 1 {
        assert(spec_rank(models, words, cands).0 == cands[0]);
    }
}

/// Detection is deterministic: it is a pure function of the detector's
/// immutable configuration and the text, so two calls with the same
/// text on the same detector return the same value.
pub proof fn lemma_detection_deterministic(
    langs: Seq<Language>,
    models: Seq<Seq<(Seq<u32>, i64)>>,
    mrd: int,
    text: Seq<char>,
    r1: Option<Language>,
    r2: Option<Language>,
)
    requires
        r1 == spec_detect(langs, models, mrd, text),
        r2 == spec_detect(langs, models, mrd, text),
    ensures
        r1 == r2,
{
}

} // verus!
