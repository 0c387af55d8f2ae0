//! Script-variant fallback: when no font in a stack draws a character,
//! the resolver may retry with the Traditional-script conversion of the
//! character, then the Simplified one. The conversion itself is done by
//! the zhconv crate; the fallback logic around it is verified here.

use vstd::prelude::*;
use crate::fonts::FontBank;

verus! {

/// What zhconv's built-in converter makes of the one-character string
/// holding `ch`: its Traditional-script conversion when `traditional`
/// holds, else its Simplified-script conversion.
pub uninterp spec fn variant_chars(ch: char, traditional: bool) -> Seq<char>;

/// Relies on zhconv::zhconv with the built-in ZhHant / ZhHans converters:
/// the conversion of a one-character string depends on the character and
/// the chosen target variant alone.
#[verifier::external_body]
fn zhconv_char(ch: char, traditional: bool) -> (r: Vec<char>)
    ensures
        r@ == variant_chars(ch, traditional),
{
    let target = if traditional {
        zhconv::Variant::ZhHant
    } else {
        zhconv::Variant::ZhHans
    };
    zhconv::zhconv(ch.to_string().as_str(), target).chars().collect()
}

/// The variant stand-in for `ch`: the first character of the conversion,
/// when it differs from `ch` and some slot of `stack` draws it.
pub open spec fn spec_try_convert(
    bank: FontBank,
    ch: char,
    traditional: bool,
    stack: Seq<usize>,
) -> Option<(char, usize)> {
    let conv = variant_chars(ch, traditional);
    if conv.len() == 0 {
        None
    } else if conv[0] == ch {
        None
    } else {
        match bank.spec_pick(conv[0], stack) {
            Some(idx) => Some((conv[0], idx)),
            None => None,
        }
    }
}

/// Tries to draw `ch` through its script-variant conversion.
fn try_convert_char(bank: &FontBank, ch: char, traditional: bool, stack: &Vec<usize>) -> (r: Option<
    (char, usize),
>)
    ensures
        r == spec_try_convert(*bank, ch, traditional, stack@),
{
    let conv = zhconv_char(ch, traditional);
    if conv.len() == 0 {
        return None;
    }
    let cand = conv[0];
    if cand == ch {
        return None;
    }
    match bank.pick_font(cand, stack) {
        Some(idx) => Some((cand, idx)),
        None => None,
    }
}

/// Glyph resolution: the first slot of `stack` that draws `ch`; failing
/// that, and only when `try_st` is set, the first slot that draws the
/// Traditional conversion of `ch`, then the Simplified one. The resolved
/// character may differ from the input.
pub open spec fn spec_resolve(bank: FontBank, ch: char, try_st: bool, stack: Seq<usize>) -> (
    char,
    Option<usize>,
) {
    match bank.spec_pick(ch, stack) {
        Some(idx) => (ch, Some(idx)),
        None => {
            if !try_st {
                (ch, None)
            } else {
                match spec_try_convert(bank, ch, true, stack) {
                    Some((c, idx)) => (c, Some(idx)),
                    None => match spec_try_convert(bank, ch, false, stack) {
                        Some((c, idx)) => (c, Some(idx)),
                        None => (ch, None),
                    },
                }
            }
        },
    }
}

/// A successful resolution names a loaded slot.
pub proof fn lemma_resolve_found(bank: FontBank, ch: char, try_st: bool, stack: Seq<usize>)
    requires
        spec_resolve(bank, ch, try_st, stack).1 is Some,
    ensures
        bank.spec_font(spec_resolve(bank, ch, try_st, stack).1->Some_0 as int) is Some,
{
    if bank.spec_pick(ch, stack) is Some {
        crate::fonts::lemma_pick_found(bank, ch, stack);
    } else if try_st {
        let hant = variant_chars(ch, true);
        if spec_try_convert(bank, ch, true, stack) is Some {
            crate::fonts::lemma_pick_found(bank, hant[0], stack);
        } else {
            let hans = variant_chars(ch, false);
            if spec_try_convert(bank, ch, false, stack) is Some {
                crate::fonts::lemma_pick_found(bank, hans[0], stack);
            }
        }
    }
}

/// Resolves `ch` against `stack`, with variant fallback when enabled.
pub fn resolve_char(bank: &FontBank, ch: char, try_st: bool, stack: &Vec<usize>) -> (r: (
    char,
    Option<usize>,
))
    ensures
        r == spec_resolve(*bank, ch, try_st, stack@),
{
    if let Some(idx) = bank.pick_font(ch, stack) {
        return (ch, Some(idx));
    }
    if !try_st {
        return (ch, None);
    }
    if let Some((c, idx)) = try_convert_char(bank, ch, true, stack) {
        return (c, Some(idx));
    }
    if let Some((c, idx)) = try_convert_char(bank, ch, false, stack) {
        return (c, Some(idx));
    }
    (ch, None)
}

} // verus!
