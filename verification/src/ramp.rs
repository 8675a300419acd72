//! The glyph ramp, and the rule that picks a glyph for a shade.
//!
//! A ramp is an ordered list of glyphs that runs from one visual extreme to
//! the other. A shade between 0 and 256 selects the glyph whose position is
//! the shade's share of the ramp's length.

use crate::error::Error;
use vstd::prelude::*;

verus! {

/// The largest shade that selects a glyph. It lies one above the largest
/// eight-bit intensity, and selects the last glyph.
pub const SHADE_LIMIT: u32 = 256;

/// The position that `shade` selects in a ramp of `len` glyphs:
/// `shade * len / 256`, rounded down, and held back to the last position.
pub open spec fn ramp_index(len: nat, shade: nat) -> nat {
    let scaled = shade * len / 256;
    if scaled >= len {
        (len - 1) as nat
    } else {
        scaled
    }
}

/// The glyph of `ramp` that stands for `shade`. A shade above 256 is
/// refused, and so is a ramp without glyphs.
pub open spec fn char_for_shade(ramp: Seq<char>, shade: nat) -> Result<char, Error> {
    if shade > 256 {
        Err(Error::InvalidShade)
    } else if ramp.len() == 0 {
        Err(Error::Lookup)
    } else {
        Ok(ramp[ramp_index(ramp.len(), shade) as int])
    }
}

/// A shade of at most 256 selects a position inside a ramp that has glyphs,
/// and only the shade 256 is held back to the last one.
pub proof fn lemma_ramp_index_in_range(len: nat, shade: nat)
    requires
        len > 0,
        shade <= 256,
    ensures
        ramp_index(len, shade) < len,
        shade < 256 ==> ramp_index(len, shade) == shade * len / 256,
        shade == 256 ==> ramp_index(len, shade) == len - 1,
{
    let scaled = shade * len / 256;
    if shade < 256 {
        assert(shade * len / 256 < len) by (nonlinear_arith)
            requires
                shade < 256,
                len > 0,
        ;
    } else {
        assert(256 * len / 256 == len) by (nonlinear_arith);
    }
}

/// The two ends of the scale: shade 0 selects the first glyph of a ramp and
/// shade 256 its last.
pub proof fn lemma_shade_boundaries(ramp: Seq<char>)
    requires
        ramp.len() > 0,
    ensures
        char_for_shade(ramp, 0) == Ok::<char, Error>(ramp.first()),
        char_for_shade(ramp, 256) == Ok::<char, Error>(ramp.last()),
{
    lemma_ramp_index_in_range(ramp.len(), 0);
    lemma_ramp_index_in_range(ramp.len(), 256);
    assert(0 * ramp.len() / 256 == 0) by (nonlinear_arith);
}

/// A lighter shade never selects an earlier glyph.
pub proof fn lemma_ramp_index_monotonic(len: nat, low: nat, high: nat)
    requires
        len > 0,
        low <= high <= 256,
    ensures
        ramp_index(len, low) <= ramp_index(len, high),
{
    lemma_ramp_index_in_range(len, low);
    lemma_ramp_index_in_range(len, high);
    assert(low * len / 256 <= high * len / 256) by (nonlinear_arith)
        requires
            low <= high,
    ;
}

/// Picks the glyph of `img_scale` that stands for `chunk_shade`.
pub fn calculate_associated_char(img_scale: &Vec<char>, chunk_shade: u32) -> (glyph: Result<
    char,
    Error,
>)
    ensures
        glyph == char_for_shade(img_scale@, chunk_shade as nat),
{
    if chunk_shade > SHADE_LIMIT {
        return Err(Error::InvalidShade);
    }
    let len: usize = img_scale.len();
    if len == 0 {
        return Err(Error::Lookup);
    }
    proof {
        lemma_ramp_index_in_range(len as nat, chunk_shade as nat);
    }
    let scaled: u128 = (chunk_shade as u128) * (len as u128) / 256;
    let char_index: usize = if scaled >= len as u128 {
        len - 1
    } else {
        scaled as usize
    };
    Ok(img_scale[char_index])
}

/// The glyphs of the ramp that is used where none is given, from the one
/// that covers most of its cell to the blank.
pub open spec fn default_glyphs() -> Seq<char> {
    seq!['@', '%', '#', '*', '+', '=', '-', ':', '.', ' ']
}

/// The ramp that is used where none is given.
pub fn default_ramp() -> (ramp: Vec<char>)
    ensures
        ramp@ == default_glyphs(),
{
    let ramp: Vec<char> = vec!['@', '%', '#', '*', '+', '=', '-', ':', '.', ' '];
    assert(ramp@ =~= default_glyphs());
    ramp
}

/// The glyphs of `ramp` in the opposite order.
pub fn reversed_ramp(ramp: &Vec<char>) -> (reversed: Vec<char>)
    ensures
        reversed@ == ramp@.reverse(),
{
    let mut reversed: Vec<char> = Vec::new();
    let mut left: usize = ramp.len();
    while left > 0
        invariant
            left <= ramp@.len(),
            reversed@.len() == ramp@.len() - left,
            forall|i: int| 0 <= i < reversed@.len() ==> reversed@[i] == ramp@[ramp@.len() - 1 - i],
        decreases left,
    {
        left = left - 1;
        reversed.push(ramp[left]);
    }
    assert(reversed@ =~= ramp@.reverse());
    reversed
}

/// What a flag makes of a ramp: `--dark` turns it round, so that light and
/// dark change places. No other flag is known.
pub open spec fn flagged_glyphs(ramp: Seq<char>, flag: Seq<char>) -> Option<Seq<char>> {
    if flag == "--dark"@ {
        Some(ramp.reverse())
    } else {
        None
    }
}

/// Applies a flag of the command line to a ramp.
pub fn ramp_with_flag(ramp: &Vec<char>, flag: &str) -> (flagged: Option<Vec<char>>)
    ensures
        flagged is Some == flagged_glyphs(ramp@, flag@) is Some,
        flagged matches Some(glyphs) ==> Some(glyphs@) == flagged_glyphs(ramp@, flag@),
{
    if flag.to_owned() == "--dark".to_owned() {
        Some(reversed_ramp(ramp))
    } else {
        None
    }
}

} // verus!
