//! The text of a placeholder, put together from the quantised terms of an
//! image.
//!
//! The terms themselves are the cosine transform of the image in linear
//! light, which is floating-point work and is done elsewhere. What comes in
//! here are whole numbers: the DC colour as 8-bit sRGB, and for the scale and
//! for each channel of each AC term the floor that the quantisation formula
//! ends in, before it is clamped.

use crate::base83::{
    all_symbols, decode_int, decode_text, digit_of, digit_value, digits, encode_int_into,
    encode_text, is_symbol, lemma_capacity, lemma_decode_encode, lemma_decodes_iff_symbols,
    lemma_digit_of_symbol, lemma_digits, lemma_encode_text_symbols, lemma_symbols_are_ascii,
    symbol, RADIX,
};
use crate::grid::{is_side, text_len, ComponentGrid, EncodeError};
use crate::pixels::Rgb;
use vstd::arithmetic::power::pow;
use vstd::prelude::*;
use vstd::string::*;

verus! {

/// The largest digit for the scale of the AC terms.
pub const MAX_SCALE: u64 = 82;

/// The largest level of one channel of an AC term.
pub const MAX_LEVEL: u64 = 18;

/// One more than the largest packed AC term: `19 * 19 * 19`.
pub const AC_LIMIT: u64 = 6859;

/// One more than the largest packed DC colour: `2^24`.
pub const DC_LIMIT: u64 = 0x100_0000;

/// The unclamped levels of the three channels of one AC term: for a channel
/// of value `v`, the floor of `sign(v) * sqrt(|v| / scale) * 9 + 9.5`.
#[derive(Clone, Copy, Debug, PartialEq, Eq, Structural)]
pub struct AcLevels {
    pub r: i64,
    pub g: i64,
    pub b: i64,
}

/// `v`, or the nearer bound where `v` is outside `low..=high`.
pub open spec fn clamped(v: int, low: int, high: int) -> int {
    if v < low {
        low
    } else if v > high {
        high
    } else {
        v
    }
}

/// The digit for the scale of the AC terms: the level clamped to `0..=82`.
pub open spec fn scale_of(level: int) -> nat {
    clamped(level, 0, MAX_SCALE as int) as nat
}

/// The scale digit that a text for `grid` carries: zero for a grid without
/// AC terms, whose scale is never looked at.
pub open spec fn scale_digit(grid: ComponentGrid, level: int) -> nat {
    if grid.ac_count() == 0 {
        0
    } else {
        scale_of(level)
    }
}

/// The DC colour as one 24-bit number: red in the high byte, blue in the
/// low one.
pub open spec fn packed_dc(colour: Rgb) -> nat {
    (colour.r * 65536 + colour.g * 256 + colour.b) as nat
}

/// One AC term as a number below `19^3`: each level clamped to `0..=18`, red
/// weighing `19 * 19 = 361`, green `19`, blue `1`.
pub open spec fn packed_ac(levels: AcLevels) -> nat {
    (361 * clamped(levels.r as int, 0, MAX_LEVEL as int) + 19 * clamped(
        levels.g as int,
        0,
        MAX_LEVEL as int,
    ) + clamped(levels.b as int, 0, MAX_LEVEL as int)) as nat
}

/// The six symbols that every text opens with: size flag, scale, DC colour.
pub open spec fn head_text(grid: ComponentGrid, dc: Rgb, max_level: int) -> Seq<char> {
    encode_text(grid.size_flag() as nat, 1) + encode_text(scale_digit(grid, max_level), 1)
        + encode_text(packed_dc(dc), 4)
}

/// The symbols of the AC terms: two for each, in the order given.
pub open spec fn ac_text(ac: Seq<AcLevels>) -> Seq<char> {
    Seq::new(2 * ac.len(), |i: int| encode_text(packed_ac(ac[i / 2]), 2)[i % 2])
}

/// The whole text: the head, then the AC terms.
pub open spec fn hash_text(
    grid: ComponentGrid,
    dc: Rgb,
    max_level: int,
    ac: Seq<AcLevels>,
) -> Seq<char> {
    head_text(grid, dc, max_level) + ac_text(ac)
}

/// Whether `text` is made of symbols and denotes a number below `limit`.
pub open spec fn denotes_below(text: Seq<char>, limit: nat) -> bool {
    decode_text(text) matches Some(v) && v < limit
}

/// Whether `text` has the form of a placeholder: symbols of the alphabet
/// only; a first digit that names a grid; the length that goes with that
/// grid; a DC colour of 24 bits; and every AC term below `19^3`.
pub open spec fn well_formed(text: Seq<char>) -> bool {
    &&& text.len() >= 6
    &&& all_symbols(text)
    &&& digit_value(text[0]) matches Some(flag) && flag <= 80 && text.len() == text_len(
        ((flag % 9 + 1) * (flag / 9 + 1)) as int,
    )
    &&& denotes_below(text.subrange(2, 6), DC_LIMIT as nat)
    &&& forall|k: int|
        0 <= k && 8 + 2 * k <= text.len() ==> denotes_below(
            #[trigger] text.subrange(6 + 2 * k, 8 + 2 * k),
            AC_LIMIT as nat,
        )
}

/// Checks that a grid of the given sides and an image of the given size can
/// be encoded.
///
/// Fails with `InvalidGrid` exactly when a side of the grid is outside
/// `1..=9`. Otherwise fails with `EmptyImage` exactly when the width or the
/// height is zero.
pub fn validate(
    components_x: usize,
    components_y: usize,
    width: usize,
    height: usize,
) -> (made: Result<ComponentGrid, EncodeError>)
    ensures
        made is Ok <==> is_side(components_x as int) && is_side(components_y as int) && width > 0
            && height > 0,
        made matches Ok(grid) ==> grid.wf() && grid.components_x() == components_x
            && grid.components_y() == components_y,
        made matches Err(error) ==> error == (if is_side(components_x as int) && is_side(
            components_y as int,
        ) {
            EncodeError::EmptyImage
        } else {
            EncodeError::InvalidGrid
        }),
{
    match ComponentGrid::new(components_x, components_y) {
        Err(error) => Err(error),
        Ok(grid) => if width == 0 || height == 0 {
            Err(EncodeError::EmptyImage)
        } else {
            Ok(grid)
        },
    }
}

/// The digit for the scale of the AC terms. `level` is the floor of
/// `max * 166 - 0.5`, where `max` is the largest magnitude among the channels
/// of the AC terms. The scale itself is then `(digit + 1) / 166`.
pub fn quantize_max(level: i64) -> (digit: u64)
    ensures
        digit == scale_of(level as int),
        digit <= MAX_SCALE,
{
    if level < 0 {
        0
    } else if level > 82 {
        MAX_SCALE
    } else {
        level as u64
    }
}

/// The level of one channel of an AC term, clamped to `0..=18`.
pub fn quantize_ac(level: i64) -> (digit: u64)
    ensures
        digit == clamped(level as int, 0, MAX_LEVEL as int),
        digit <= MAX_LEVEL,
{
    if level < 0 {
        0
    } else if level > 18 {
        MAX_LEVEL
    } else {
        level as u64
    }
}

/// Packs the DC colour: `r << 16 | g << 8 | b`.
pub fn pack_dc(colour: Rgb) -> (packed: u64)
    ensures
        packed == packed_dc(colour),
        packed < DC_LIMIT,
{
    let r = colour.r as u64;
    let g = colour.g as u64;
    let b = colour.b as u64;
    assert((r << 16 | g << 8 | b) == r * 65536 + g * 256 + b) by (bit_vector)
        requires
            r < 256,
            g < 256,
            b < 256,
    ;
    r << 16 | g << 8 | b
}

/// Packs one AC term: `19 * 19 * r + 19 * g + b` over the clamped levels.
pub fn pack_ac(levels: AcLevels) -> (packed: u64)
    ensures
        packed == packed_ac(levels),
        packed < AC_LIMIT,
{
    361 * quantize_ac(levels.r) + 19 * quantize_ac(levels.g) + quantize_ac(levels.b)
}

/// A packed DC colour takes four digits and a packed AC term two.
pub proof fn lemma_packed_bounds(dc: Rgb, levels: AcLevels)
    ensures
        packed_dc(dc) < DC_LIMIT,
        packed_dc(dc) < pow(RADIX as int, 4),
        packed_ac(levels) < AC_LIMIT,
        packed_ac(levels) < pow(RADIX as int, 2),
{
    lemma_capacity();
}

/// The text of the AC terms falls into pairs, one for each term.
pub proof fn lemma_ac_text(ac: Seq<AcLevels>)
    ensures
        ac_text(ac).len() == 2 * ac.len(),
        all_symbols(ac_text(ac)),
        forall|k: int|
            0 <= k < ac.len() ==> #[trigger] ac_text(ac).subrange(2 * k, 2 * k + 2) == encode_text(
                packed_ac(ac[k]),
                2,
            ),
{
    assert forall|i: int| 0 <= i < ac_text(ac).len() implies is_symbol(
        #[trigger] ac_text(ac)[i],
    ) by {
        lemma_encode_text_symbols(packed_ac(ac[i / 2]), 2);
        assert(is_symbol(encode_text(packed_ac(ac[i / 2]), 2)[i % 2]));
    }
    assert forall|k: int| 0 <= k < ac.len() implies #[trigger] ac_text(ac).subrange(
        2 * k,
        2 * k + 2,
    ) == encode_text(packed_ac(ac[k]), 2) by {
        let pair = ac_text(ac).subrange(2 * k, 2 * k + 2);
        let term = encode_text(packed_ac(ac[k]), 2);
        assert(pair.len() == 2);
        assert(term.len() == 2);
        assert forall|i: int| 0 <= i < 2 implies pair[i] == term[i] by {
            assert((2 * k + i) / 2 == k);
            assert((2 * k + i) % 2 == i);
        }
        assert(pair =~= term);
    }
}

/// One term more adds the two symbols of that term.
pub proof fn lemma_ac_text_push(ac: Seq<AcLevels>, last: AcLevels)
    ensures
        ac_text(ac.push(last)) == ac_text(ac) + encode_text(packed_ac(last), 2),
{
    let longer = ac_text(ac.push(last));
    let joined = ac_text(ac) + encode_text(packed_ac(last), 2);
    assert(encode_text(packed_ac(last), 2).len() == 2);
    assert(longer.len() == joined.len());
    assert forall|i: int| 0 <= i < longer.len() implies longer[i] == joined[i] by {
        if i < 2 * ac.len() {
            assert(i / 2 < ac.len());
            assert(ac.push(last)[i / 2] == ac[i / 2]);
        } else {
            assert(i / 2 == ac.len());
            assert(i % 2 == i - 2 * ac.len());
        }
    }
    assert(longer =~= joined);
}

/// A text put together from a valid grid and as many AC terms as the grid
/// has is as long as the grid asks for, holds symbols of the alphabet only,
/// and is well formed. Its scale digit is the symbol of zero where the grid
/// has no AC terms, and where the largest of them is too small to raise the
/// level of the scale above zero.
pub proof fn lemma_hash_text(grid: ComponentGrid, dc: Rgb, max_level: int, ac: Seq<AcLevels>)
    requires
        grid.wf(),
        ac.len() == grid.ac_count(),
    ensures
        hash_text(grid, dc, max_level, ac).len() == grid.hash_len(),
        all_symbols(hash_text(grid, dc, max_level, ac)),
        well_formed(hash_text(grid, dc, max_level, ac)),
        hash_text(grid, dc, max_level, ac)[0] == symbol(grid.size_flag() as nat),
        hash_text(grid, dc, max_level, ac)[1] == symbol(scale_digit(grid, max_level)),
        grid.ac_count() == 0 || max_level <= 0 ==> hash_text(grid, dc, max_level, ac)[1] == '0',
{
    let text = hash_text(grid, dc, max_level, ac);
    let flag = grid.size_flag() as nat;
    let scale = scale_digit(grid, max_level);
    let x = grid.components_x() as int;
    let y = grid.components_y() as int;
    assert(1 <= x * y <= 81) by (nonlinear_arith)
        requires
            1 <= x <= 9,
            1 <= y <= 9,
    ;
    lemma_capacity();
    lemma_encode_text_symbols(flag, 1);
    lemma_encode_text_symbols(scale, 1);
    lemma_encode_text_symbols(packed_dc(dc), 4);
    lemma_ac_text(ac);
    lemma_digits(flag, 1);
    lemma_digits(scale, 1);
    assert(digits(flag, 1) =~= seq![flag]);
    assert(digits(scale, 1) =~= seq![scale]);
    assert(text[0] == symbol(flag));
    assert(text[1] == symbol(scale));
    lemma_digit_of_symbol(flag);
    lemma_alphabet_zero();
    assert(text.subrange(2, 6) =~= encode_text(packed_dc(dc), 4));
    lemma_decode_encode(packed_dc(dc), 4);
    assert(flag % 9 + 1 == x && flag / 9 + 1 == y);
    assert forall|k: int| 0 <= k && 8 + 2 * k <= text.len() implies denotes_below(
        #[trigger] text.subrange(6 + 2 * k, 8 + 2 * k),
        AC_LIMIT as nat,
    ) by {
        assert(text.subrange(6 + 2 * k, 8 + 2 * k) =~= ac_text(ac).subrange(2 * k, 2 * k + 2));
        lemma_packed_bounds(dc, ac[k]);
        lemma_decode_encode(packed_ac(ac[k]), 2);
    }
    assert forall|i: int| 0 <= i < text.len() implies is_symbol(
        #[trigger] text[i],
    ) by {
        if i < 1 {
            assert(text[i] == encode_text(flag, 1)[i]);
        } else if i < 2 {
            assert(text[i] == encode_text(scale, 1)[i - 1]);
        } else if i < 6 {
            assert(text[i] == encode_text(packed_dc(dc), 4)[i - 2]);
        } else {
            assert(text[i] == ac_text(ac)[i - 6]);
        }
    }
}

/// The symbol of zero is `0`.
proof fn lemma_alphabet_zero()
    ensures
        symbol(0) == '0',
{
    reveal_strlit(
        "0123456789ABCDEFGHIJKLMNOPQRSTUVWXYZabcdefghijklmnopqrstuvwxyz#$%*+,-.:;=?@[]^_{|}~",
    );
}

/// The text depends on the grid and the levels alone: two texts put together
/// from the same grid and the same levels are the same, symbol for symbol.
pub proof fn lemma_same_levels_same_text(
    grid: ComponentGrid,
    dc: Rgb,
    max_level: int,
    ac: Seq<AcLevels>,
    first: Seq<char>,
    second: Seq<char>,
)
    requires
        first == hash_text(grid, dc, max_level, ac),
        second == hash_text(grid, dc, max_level, ac),
    ensures
        first == second,
{
}

/// Puts the text of a placeholder together.
///
/// `dc` is the DC colour; `max_level` the unclamped level of the scale (see
/// `quantize_max`), which is not looked at where the grid has no AC terms;
/// `ac_levels` the unclamped levels of the AC terms in row-major order, the
/// DC term left out, so that `ac_levels[k - 1]` belongs to the term at index
/// `k` of the grid.
///
/// Gives `None` exactly when `ac_levels` does not hold one entry for each AC
/// term of the grid.
pub fn assemble(
    grid: ComponentGrid,
    dc: Rgb,
    max_level: i64,
    ac_levels: &Vec<AcLevels>,
) -> (hash: Option<String>)
    requires
        grid.wf(),
    ensures
        hash is Some <==> ac_levels@.len() == grid.ac_count(),
        hash matches Some(text) ==> {
            &&& text@ == hash_text(grid, dc, max_level as int, ac_levels@)
            &&& text@.len() == grid.hash_len()
            &&& all_symbols(text@)
            &&& well_formed(text@)
            &&& grid.ac_count() == 0 || max_level <= 0 ==> text@[1] == '0'
        },
{
    let count = grid.ac_count();
    if ac_levels.len() != count {
        return None;
    }
    proof {
        lemma_capacity();
    }
    let scale = if count == 0 {
        0
    } else {
        quantize_max(max_level)
    };
    let mut text = String::new();
    encode_int_into(&mut text, grid.size_flag(), 1);
    encode_int_into(&mut text, scale, 1);
    encode_int_into(&mut text, pack_dc(dc), 4);
    assert(text@ =~= head_text(grid, dc, max_level as int));
    assert(ac_text(ac_levels@.subrange(0, 0)) =~= Seq::<char>::empty());
    let mut at: usize = 0;
    while at < count
        invariant
            at <= count,
            count == ac_levels@.len(),
            pow(RADIX as int, 2) == 6889,
            text@ =~= head_text(grid, dc, max_level as int) + ac_text(
                ac_levels@.subrange(0, at as int),
            ),
        decreases count - at,
    {
        proof {
            lemma_ac_text_push(ac_levels@.subrange(0, at as int), ac_levels@[at as int]);
            assert(ac_levels@.subrange(0, at as int).push(ac_levels@[at as int])
                =~= ac_levels@.subrange(0, at + 1));
        }
        encode_int_into(&mut text, pack_ac(ac_levels[at]), 2);
        at = at + 1;
    }
    proof {
        assert(ac_levels@.subrange(0, at as int) =~= ac_levels@);
        lemma_hash_text(grid, dc, max_level as int, ac_levels@);
    }
    Some(text)
}

/// Whether `text` has the form of a placeholder: see `well_formed`.
pub fn is_well_formed(text: &str) -> (ok: bool)
    ensures
        ok == well_formed(text@),
{
    if !text.is_ascii() {
        proof {
            if all_symbols(text@) {
                lemma_symbols_are_ascii(text@);
            }
        }
        return false;
    }
    let bytes = text.as_bytes();
    proof {
        is_ascii_spec_bytes(text);
    }
    let len = bytes.len();
    if len < 6 {
        return false;
    }
    assert(bytes@[0] as char == text@[0]);
    assert(bytes@[1] as char == text@[1]);
    let flag = match digit_of(bytes[0]) {
        Some(d) => d,
        None => {
            return false;
        },
    };
    let grid = match ComponentGrid::from_size_flag(flag) {
        Some(g) => g,
        None => {
            return false;
        },
    };
    if len != grid.hash_len() {
        return false;
    }
    if digit_of(bytes[1]).is_none() {
        return false;
    }
    let ghost dc_text = text@.subrange(2, 6);
    match decode_int(text.substring_ascii(2, 6)) {
        Some(dc) => {
            if dc >= DC_LIMIT {
                return false;
            }
        },
        None => {
            return false;
        },
    }
    proof {
        lemma_decodes_iff_symbols(dc_text);
        assert forall|i: int| 0 <= i < 6 implies is_symbol(#[trigger] text@[i]) by {
            if i >= 2 {
                assert(text@[i] == dc_text[i - 2]);
            }
        }
    }
    let pairs = grid.ac_count();
    let mut at: usize = 0;
    while at < pairs
        invariant
            at <= pairs,
            pairs <= 80,
            len == 6 + 2 * pairs,
            len == text@.len(),
            is_ascii(text),
            forall|i: int| 0 <= i < 6 + 2 * at ==> is_symbol(#[trigger] text@[i]),
            forall|k: int|
                0 <= k < at ==> denotes_below(
                    #[trigger] text@.subrange(6 + 2 * k, 8 + 2 * k),
                    AC_LIMIT as nat,
                ),
        decreases pairs - at,
    {
        let from = 6 + 2 * at;
        let ghost pair = text@.subrange(6 + 2 * at, 8 + 2 * at);
        assert(pair == text@.subrange(from as int, from + 2));
        assert(well_formed(text@) ==> denotes_below(pair, AC_LIMIT as nat));
        match decode_int(text.substring_ascii(from, from + 2)) {
            Some(term) => {
                if term >= AC_LIMIT {
                    return false;
                }
            },
            None => {
                return false;
            },
        }
        proof {
            lemma_decodes_iff_symbols(pair);
            assert forall|i: int| 0 <= i < 8 + 2 * at implies is_symbol(
                #[trigger] text@[i],
            ) by {
                if i >= from {
                    assert(text@[i] == pair[i - from]);
                }
            }
        }
        at = at + 1;
    }
    true
}

} // verus!
