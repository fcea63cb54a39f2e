//! Script classification and text normalisation.
//!
//! Maps individual code points to a writing-system tag and lower-cases the
//! letter ranges the catalog knows about.  Characters outside every known
//! letter range (digits, punctuation, whitespace, symbols) are
//! script-neutral: they carry no tag and separate words.

use vstd::prelude::*;
use vstd::string::*;

verus! {

/// A writing system recognised in input text.
#[derive(Clone, Copy, Debug, PartialEq, Eq, Structural)]
pub enum Script {
    Arabic,
    Cyrillic,
    Devanagari,
    Greek,
    Han,
    Hangul,
    Hebrew,
    Latin,
}

/// Writing-system tag of one code point; `None` for script-neutral
/// characters.
pub open spec fn spec_script_of(c: u32) -> Option<Script> {
    if (0x41 <= c && c <= 0x5A) || (0x61 <= c && c <= 0x7A) || (0xC0 <= c && c <= 0xD6) || (0xD8
        <= c && c <= 0xF6) || (0xF8 <= c && c <= 0x24F) || (0x1E00 <= c && c <= 0x1EFF) {
        Some(Script::Latin)
    } else if (0x370 <= c && c <= 0x3FF) || (0x1F00 <= c && c <= 0x1FFF) {
        Some(Script::Greek)
    } else if 0x400 <= c && c <= 0x52F {
        Some(Script::Cyrillic)
    } else if 0x5D0 <= c && c <= 0x5EA {
        Some(Script::Hebrew)
    } else if (0x600 <= c && c <= 0x6FF) || (0x750 <= c && c <= 0x77F) {
        Some(Script::Arabic)
    } else if 0x900 <= c && c <= 0x97F {
        Some(Script::Devanagari)
    } else if (0x1100 <= c && c <= 0x11FF) || (0x3130 <= c && c <= 0x318F) || (0xAC00 <= c && c
        <= 0xD7A3) {
        Some(Script::Hangul)
    } else if (0x3400 <= c && c <= 0x4DBF) || (0x4E00 <= c && c <= 0x9FFF) {
        Some(Script::Han)
    } else {
        None
    }
}

/// A code point counts as a letter exactly when it has a writing-system tag.
pub open spec fn spec_is_letter(c: u32) -> bool {
    spec_script_of(c) is Some
}

/// Lower-case mapping over the common cased letter ranges: basic
/// Latin, Latin-1, Latin Extended-A, the regularly cased part of
/// Latin Extended-B, monotonic Greek and the main Cyrillic block.
/// Every other code point is left unchanged.
pub open spec fn spec_lower(c: u32) -> u32 {
    if 0x41 <= c && c <= 0x5A {
        (c + 0x20) as u32
    } else if (0xC0 <= c && c <= 0xD6) || (0xD8 <= c && c <= 0xDE) {
        (c + 0x20) as u32
    } else if c == 0x130 {
        0x69
    } else if c == 0x178 {
        0xFF
    } else if ((0x100 <= c && c <= 0x137) || (0x14A <= c && c <= 0x177) || (0x200 <= c && c
        <= 0x233)) && c % 2 == 0 {
        (c + 1) as u32
    } else if ((0x139 <= c && c <= 0x148) || (0x179 <= c && c <= 0x17E)) && c % 2 == 1 {
        (c + 1) as u32
    } else if (0x391 <= c && c <= 0x3A1) || (0x3A3 <= c && c <= 0x3A9) {
        (c + 0x20) as u32
    } else if 0x400 <= c && c <= 0x40F {
        (c + 0x50) as u32
    } else if 0x410 <= c && c <= 0x42F {
        (c + 0x20) as u32
    } else {
        c
    }
}

/// The code points of a text, in order.
pub open spec fn spec_code_points(text: Seq<char>) -> Seq<u32> {
    text.map_values(|c: char| c as u32)
}

/// A text has a script when some of its code points carries that tag.
pub open spec fn spec_text_has_script(cps: Seq<u32>, s: Script) -> bool {
    exists|i: int| 0 <= i < cps.len() && spec_script_of(cps[i]) == Some(s)
}

pub fn script_of(c: u32) -> (r: Option<Script>)
    ensures
        r == spec_script_of(c),
{
    if (0x41 <= c && c <= 0x5A) || (0x61 <= c && c <= 0x7A) || (0xC0 <= c && c <= 0xD6) || (0xD8
        <= c && c <= 0xF6) || (0xF8 <= c && c <= 0x24F) || (0x1E00 <= c && c <= 0x1EFF) {
        Some(Script::Latin)
    } else if (0x370 <= c && c <= 0x3FF) || (0x1F00 <= c && c <= 0x1FFF) {
        Some(Script::Greek)
    } else if 0x400 <= c && c <= 0x52F {
        Some(Script::Cyrillic)
    } else if 0x5D0 <= c && c <= 0x5EA {
        Some(Script::Hebrew)
    } else if (0x600 <= c && c <= 0x6FF) || (0x750 <= c && c <= 0x77F) {
        Some(Script::Arabic)
    } else if 0x900 <= c && c <= 0x97F {
        Some(Script::Devanagari)
    } else if (0x1100 <= c && c <= 0x11FF) || (0x3130 <= c && c <= 0x318F) || (0xAC00 <= c && c
        <= 0xD7A3) {
        Some(Script::Hangul)
    } else if (0x3400 <= c && c <= 0x4DBF) || (0x4E00 <= c && c <= 0x9FFF) {
        Some(Script::Han)
    } else {
        None
    }
}

pub fn is_letter(c: u32) -> (r: bool)
    ensures
        r == spec_is_letter(c),
{
    script_of(c).is_some()
}

pub fn lower(c: u32) -> (r: u32)
    ensures
        r == spec_lower(c),
{
    if 0x41 <= c && c <= 0x5A {
        c + 0x20
    } else if (0xC0 <= c && c <= 0xD6) || (0xD8 <= c && c <= 0xDE) {
        c + 0x20
    } else if c == 0x130 {
        0x69
    } else if c == 0x178 {
        0xFF
    } else if ((0x100 <= c && c <= 0x137) || (0x14A <= c && c <= 0x177) || (0x200 <= c && c
        <= 0x233)) && c % 2 == 0 {
        c + 1
    } else if ((0x139 <= c && c <= 0x148) || (0x179 <= c && c <= 0x17E)) && c % 2 == 1 {
        c + 1
    } else if (0x391 <= c && c <= 0x3A1) || (0x3A3 <= c && c <= 0x3A9) {
        c + 0x20
    } else if 0x400 <= c && c <= 0x40F {
        c + 0x50
    } else if 0x410 <= c && c <= 0x42F {
        c + 0x20
    } else {
        c
    }
}

/// Whether a script list already holds a script.
fn contains_script(list: &Vec<Script>, s: Script) -> (r: bool)
    ensures
        r == list@.contains(s),
{
    let mut i: usize = 0;
    while i < list.len()
        invariant
            i <= list@.len(),
            forall|k: int| 0 <= k < i ==> list@[k] != s,
        decreases list@.len() - i,
    {
        if list[i] == s {
            return true;
        }
        i += 1;
    }
    false
}

/// The distinct non-neutral writing systems present in a text, each
/// reported once.
pub fn detected_scripts(cps: &Vec<u32>) -> (r: Vec<Script>)
    ensures
        forall|s: Script| r@.contains(s) <==> spec_text_has_script(cps@, s),
        forall|k1: int, k2: int| 0 <= k1 < k2 < r@.len() ==> r@[k1] != r@[k2],
{
    let mut r: Vec<Script> = Vec::new();
    let mut i: usize = 0;
    proof {
        assert forall|s: Script| r@.contains(s) <==> spec_text_has_script(
            cps@.take(0),
            s,
        ) by {
            assert(!r@.contains(s));
        }
    }
    while i < cps.len()
        invariant
            i <= cps@.len(),
            forall|s: Script|
                r@.contains(s) <==> spec_text_has_script(cps@.take(i as int), s),
            forall|k1: int, k2: int| 0 <= k1 < k2 < r@.len() ==> r@[k1] != r@[k2],
        decreases cps@.len() - i,
    {
        let ghost pre = cps@.take(i as int);
        let ghost nxt = cps@.take(i + 1);
        match script_of(cps[i]) {
            None => {
                proof {
                    assert forall|t: Script|
                        r@.contains(t) <==> spec_text_has_script(nxt, t) by {
                        if spec_text_has_script(nxt, t) {
                            let j = choose|j: int|
                                0 <= j < nxt.len() && spec_script_of(nxt[j]) == Some(t);
                            assert(j < i);
                            assert(pre[j] == nxt[j]);
                            assert(spec_text_has_script(pre, t));
                        }
                        if spec_text_has_script(pre, t) {
                            let j = choose|j: int|
                                0 <= j < pre.len() && spec_script_of(pre[j]) == Some(t);
                            assert(nxt[j] == pre[j]);
                            assert(spec_text_has_script(nxt, t));
                        }
                    }
                }
            },
            Some(s) => {
                let dup = contains_script(&r, s);
                let ghost before = r@;
                if !dup {
                    r.push(s);
                }
                proof {
                    assert forall|t: Script|
                        r@.contains(t) <==> spec_text_has_script(nxt, t) by {
                        assert(spec_text_has_script(pre, t) ==> spec_text_has_script(
                            nxt,
                            t,
                        )) by {
                            if spec_text_has_script(pre, t) {
                                let j = choose|j: int|
                                    0 <= j < pre.len() && spec_script_of(pre[j]) == Some(t);
                                assert(nxt[j] == pre[j]);
                            }
                        }
                        assert(spec_script_of(nxt[i as int]) == Some(s));
                        assert(spec_text_has_script(nxt, s));
                        if r@.contains(t) {
                            let j = choose|j: int| 0 <= j < r@.len() && r@[j] == t;
                            if j < before.len() {
                                assert(before[j] == t);
                                assert(before.contains(t));
                                assert(spec_text_has_script(pre, t));
                            } else {
                                assert(t == s);
                            }
                        }
                        if spec_text_has_script(nxt, t) {
                            if t == s {
                                if dup {
                                    assert(r@.contains(t));
                                } else {
                                    assert(r@[r@.len() - 1] == t);
                                }
                            } else {
                                let j = choose|j: int|
                                    0 <= j < nxt.len() && spec_script_of(nxt[j]) == Some(t);
                                assert(j < i);
                                assert(pre[j] == nxt[j]);
                                assert(spec_text_has_script(pre, t));
                                assert(before.contains(t));
                                let j2 = choose|j2: int|
                                    0 <= j2 < before.len() && before[j2] == t;
                                assert(r@[j2] == t);
                            }
                        }
                    }
                    assert forall|k1: int, k2: int|
                        0 <= k1 < k2 < r@.len() implies r@[k1] != r@[k2] by {
                        if k2 < before.len() {
                            assert(r@[k1] == before[k1] && r@[k2] == before[k2]);
                        } else if k2 == before.len() {
                            assert(r@[k1] == before[k1]);
                            assert(before.contains(before[k1]));
                            assert(spec_text_has_script(pre, before[k1]));
                        }
                    }
                }
            },
        }
        i += 1;
    }
    proof {
        assert(cps@.take(cps@.len() as int) =~= cps@);
    }
    r
}

/// Decodes a text into its code points.
pub fn code_points(text: &str) -> (r: Vec<u32>)
    ensures
        r@ == spec_code_points(text@),
{
    let n = text.unicode_len();
    let mut out: Vec<u32> = Vec::new();
    let mut i: usize = 0;
    while i < n
        invariant
            n == text@.len(),
            i <= n,
            out@ == spec_code_points(text@).take(i as int),
        decreases n - i,
    {
        let c = text.get_char(i);
        out.push(c as u32);
        proof {
            assert(out@ =~= spec_code_points(text@).take(i + 1));
        }
        i += 1;
    }
    proof {
        assert(out@ =~= spec_code_points(text@));
    }
    out
}

} // verus!
