//! Positional base-83 notation over a fixed alphabet of printable ASCII
//! symbols, most significant digit first.

use vstd::arithmetic::power::pow;
use vstd::prelude::*;
use vstd::string::*;

verus! {

/// Number of symbols in the alphabet, and so the base of the notation.
pub const RADIX: u64 = 83;

/// The symbols in order of their digit value: the symbol at index `d` stands
/// for the digit `d`.
pub const ALPHABET: &'static str =
    "0123456789ABCDEFGHIJKLMNOPQRSTUVWXYZabcdefghijklmnopqrstuvwxyz#$%*+,-.:;=?@[]^_{|}~";

/// The symbol that stands for the digit `d`.
pub open spec fn symbol(d: nat) -> char
    recommends
        d < RADIX,
{
    ALPHABET@[d as int]
}

/// Whether `c` belongs to the alphabet.
pub open spec fn is_symbol(c: char) -> bool {
    exists|d: nat| d < RADIX && #[trigger] symbol(d) == c
}

/// The digit that `c` stands for, if it belongs to the alphabet.
pub open spec fn digit_value(c: char) -> Option<nat> {
    if is_symbol(c) {
        Some(choose|d: nat| d < RADIX && #[trigger] symbol(d) == c)
    } else {
        None
    }
}

/// The `count` low-order base-83 digits of `value`, most significant first.
pub open spec fn digits(value: nat, count: nat) -> Seq<nat>
    decreases count,
{
    if count == 0 {
        Seq::empty()
    } else {
        digits(value / (RADIX as nat), (count - 1) as nat).push(value % (RADIX as nat))
    }
}

/// The text of `value` written with exactly `count` digits.
pub open spec fn encode_text(value: nat, count: nat) -> Seq<char> {
    Seq::new(count, |i: int| symbol(digits(value, count)[i]))
}

/// The number that `text` denotes, or `None` if some character of it is
/// outside the alphabet. The empty text denotes zero.
pub open spec fn decode_text(text: Seq<char>) -> Option<nat>
    decreases text.len(),
{
    if text.len() == 0 {
        Some(0)
    } else {
        match (decode_text(text.drop_last()), digit_value(text.last())) {
            (Some(high), Some(d)) => Some(high * (RADIX as nat) + d),
            _ => None,
        }
    }
}

/// Whether every character of `text` belongs to the alphabet.
pub open spec fn all_symbols(text: Seq<char>) -> bool {
    forall|i: int| 0 <= i < text.len() ==> is_symbol(#[trigger] text[i])
}

/// The alphabet has 83 symbols, all of them ASCII and no two alike.
pub proof fn lemma_alphabet()
    ensures
        ALPHABET@.len() == RADIX,
        is_ascii(ALPHABET),
        forall|i: int, j: int|
            0 <= i < j < RADIX ==> (#[trigger] ALPHABET@[i]) != (#[trigger] ALPHABET@[j]),
{
    reveal_strlit(
        "0123456789ABCDEFGHIJKLMNOPQRSTUVWXYZabcdefghijklmnopqrstuvwxyz#$%*+,-.:;=?@[]^_{|}~",
    );
}

/// The first powers of the radix: what one, two and four digits can hold.
pub proof fn lemma_capacity()
    ensures
        pow(RADIX as int, 0) == 1,
        pow(RADIX as int, 1) == 83,
        pow(RADIX as int, 2) == 6889,
        pow(RADIX as int, 4) == 47458321,
{
    reveal_with_fuel(pow, 5);
}

/// A symbol stands for the digit it was chosen for, and for no other.
pub proof fn lemma_digit_of_symbol(d: nat)
    requires
        d < RADIX,
    ensures
        is_symbol(symbol(d)),
        digit_value(symbol(d)) == Some(d),
{
    lemma_alphabet();
    assert(is_symbol(symbol(d)));
    let e = choose|e: nat| e < RADIX && #[trigger] symbol(e) == symbol(d);
    if e < d {
        assert(ALPHABET@[e as int] != ALPHABET@[d as int]);
    } else if d < e {
        assert(ALPHABET@[d as int] != ALPHABET@[e as int]);
    }
}

/// The digits of a value are as many as were asked for, and each is below
/// the radix.
pub proof fn lemma_digits(value: nat, count: nat)
    ensures
        digits(value, count).len() == count,
        forall|i: int| 0 <= i < count ==> (#[trigger] digits(value, count)[i]) < RADIX,
    decreases count,
{
    if count > 0 {
        lemma_digits(value / (RADIX as nat), (count - 1) as nat);
    }
}

/// An encoded text has the length that was asked for and holds symbols of the
/// alphabet only.
pub proof fn lemma_encode_text_symbols(value: nat, count: nat)
    ensures
        encode_text(value, count).len() == count,
        all_symbols(encode_text(value, count)),
{
    lemma_digits(value, count);
    assert forall|i: int| 0 <= i < count implies is_symbol(
        #[trigger] encode_text(value, count)[i],
    ) by {
        lemma_digit_of_symbol(digits(value, count)[i]);
    }
}

/// Writing one digit more puts the lowest digit last, after the text of the
/// quotient.
pub proof fn lemma_encode_text_step(value: nat, count: nat)
    requires
        count > 0,
    ensures
        encode_text(value, count) == encode_text(
            value / (RADIX as nat),
            (count - 1) as nat,
        ).push(symbol(value % (RADIX as nat))),
{
    let high = value / (RADIX as nat);
    let shorter = (count - 1) as nat;
    lemma_digits(high, shorter);
    lemma_digits(value, count);
    assert(encode_text(value, count) =~= encode_text(high, shorter).push(
        symbol(value % (RADIX as nat)),
    ));
}

/// Decoding undoes encoding: a value below `83^count`, written with `count`
/// digits and read back, is the value again.
pub proof fn lemma_decode_encode(value: nat, count: nat)
    requires
        value < pow(RADIX as int, count),
    ensures
        decode_text(encode_text(value, count)) == Some(value),
    decreases count,
{
    reveal(pow);
    if count == 0 {
        assert(encode_text(value, count).len() == 0);
    } else {
        let high = value / (RADIX as nat);
        let low = value % (RADIX as nat);
        let shorter = (count - 1) as nat;
        assert(high < pow(RADIX as int, shorter)) by (nonlinear_arith)
            requires
                value < (RADIX as int) * pow(RADIX as int, shorter),
                high == value / (RADIX as nat),
                RADIX == 83,
        ;
        lemma_decode_encode(high, shorter);
        lemma_encode_text_step(value, count);
        lemma_digit_of_symbol(low);
        let text = encode_text(value, count);
        assert(text.drop_last() =~= encode_text(high, shorter));
        assert(text.last() == symbol(low));
    }
}

/// Encoding undoes decoding: the number that a text of symbols denotes is
/// below `83^len`, and written with as many digits as the text has symbols
/// it is the text again.
pub proof fn lemma_encode_decode(text: Seq<char>)
    requires
        all_symbols(text),
    ensures
        decode_text(text) is Some,
        decode_text(text)->0 < pow(RADIX as int, text.len()),
        encode_text(decode_text(text)->0, text.len()) == text,
    decreases text.len(),
{
    reveal(pow);
    lemma_decodes_iff_symbols(text);
    if text.len() == 0 {
        assert(encode_text(0, 0) =~= text);
    } else {
        let front = text.drop_last();
        lemma_decodes_iff_symbols(front);
        lemma_encode_decode(front);
        let high = decode_text(front)->0;
        let low = digit_value(text.last())->0;
        let value = decode_text(text)->0;
        assert(low < RADIX && symbol(low) == text.last());
        assert(value == high * 83 + low);
        assert(value / 83 == high && value % 83 == low);
        assert(value < pow(RADIX as int, text.len())) by (nonlinear_arith)
            requires
                value == high * 83 + low,
                low < 83,
                high < pow(RADIX as int, front.len()),
                pow(RADIX as int, text.len()) == 83 * pow(RADIX as int, front.len()),
        ;
        lemma_encode_text_step(value, text.len());
        assert(front.push(text.last()) =~= text);
    }
}

/// Each prefix of a text that decodes decodes too, and denotes no more than
/// the whole.
pub proof fn lemma_decode_prefix(text: Seq<char>, len: int)
    requires
        0 <= len <= text.len(),
        decode_text(text) is Some,
    ensures
        decode_text(text.subrange(0, len)) is Some,
        decode_text(text.subrange(0, len))->0 <= decode_text(text)->0,
    decreases text.len() - len,
{
    if len == text.len() {
        assert(text.subrange(0, len) =~= text);
    } else {
        lemma_decode_prefix(text.drop_last(), len);
        assert(text.drop_last().subrange(0, len) =~= text.subrange(0, len));
        assert(decode_text(text)->0 >= decode_text(text.drop_last())->0) by (nonlinear_arith)
            requires
                decode_text(text)->0 == decode_text(text.drop_last())->0 * (RADIX as nat)
                    + digit_value(text.last())->0,
                RADIX == 83,
        ;
    }
}

/// A text decodes exactly when all its characters are symbols.
pub proof fn lemma_decodes_iff_symbols(text: Seq<char>)
    ensures
        decode_text(text) is Some <==> all_symbols(text),
    decreases text.len(),
{
    if text.len() > 0 {
        let front = text.drop_last();
        lemma_decodes_iff_symbols(front);
        if all_symbols(text) {
            assert forall|i: int| 0 <= i < front.len() implies is_symbol(#[trigger] front[i]) by {
                assert(front[i] == text[i]);
            }
            assert(is_symbol(text[text.len() - 1]));
        }
        if decode_text(text) is Some {
            assert forall|i: int| 0 <= i < text.len() implies is_symbol(#[trigger] text[i]) by {
                if i < front.len() {
                    assert(text[i] == front[i]);
                }
            }
        }
    }
}

/// A text made of symbols is an ASCII text.
pub proof fn lemma_symbols_are_ascii(text: Seq<char>)
    requires
        all_symbols(text),
    ensures
        vstd::utf8::is_ascii_chars(text),
{
    lemma_alphabet();
    assert forall|i: int| 0 <= i < text.len() implies '\0' <= #[trigger] text[i] <= '\u{7f}' by {
        assert(is_symbol(text[i]));
        let d = choose|d: nat| d < RADIX && #[trigger] symbol(d) == text[i];
        assert('\0' <= ALPHABET@[d as int] <= '\u{7f}');
    }
}

/// Appends the symbol of one digit to `out`.
pub fn push_digit(out: &mut String, d: u64)
    requires
        d < RADIX,
    ensures
        final(out)@ == old(out)@.push(symbol(d as nat)),
{
    proof {
        lemma_alphabet();
    }
    let at: usize = d as usize;
    let piece = ALPHABET.substring_ascii(at, at + 1);
    assert(piece@ =~= seq![symbol(d as nat)]);
    out.append(piece);
    assert(out@ =~= old(out)@.push(symbol(d as nat)));
}

/// Appends `value`, written with exactly `digit_count` digits, to `out`.
pub fn encode_int_into(out: &mut String, value: u64, digit_count: usize)
    requires
        value < pow(RADIX as int, digit_count as nat),
    ensures
        final(out)@ == old(out)@ + encode_text(value as nat, digit_count as nat),
{
    let ghost all = digits(value as nat, digit_count as nat);
    proof {
        lemma_digits(value as nat, digit_count as nat);
    }
    // The digits come out lowest first, so they are set down from the back.
    let mut cells: Vec<u64> = Vec::new();
    let mut filled: usize = 0;
    while filled < digit_count
        invariant
            filled <= digit_count,
            cells.len() == filled,
        decreases digit_count - filled,
    {
        cells.push(0);
        filled = filled + 1;
    }
    let mut rest: u64 = value;
    let mut open: usize = digit_count;
    while open > 0
        invariant
            open <= digit_count,
            cells.len() == digit_count,
            all == digits(value as nat, digit_count as nat),
            all.len() == digit_count,
            digits(rest as nat, open as nat).len() == open,
            forall|k: int| 0 <= k < open ==> all[k] == #[trigger] digits(rest as nat, open as nat)[k],
            forall|k: int| open <= k < digit_count ==> (#[trigger] cells[k]) as nat == all[k],
        decreases open,
    {
        let ghost wider = digits(rest as nat, open as nat);
        let ghost narrower = digits((rest / RADIX) as nat, (open - 1) as nat);
        proof {
            lemma_digits((rest / RADIX) as nat, (open - 1) as nat);
            assert(wider == narrower.push((rest % RADIX) as nat));
            assert(all[open - 1] == wider[open - 1]);
            assert forall|k: int| 0 <= k < open - 1 implies all[k] == narrower[k] by {
                assert(all[k] == wider[k]);
            }
        }
        open = open - 1;
        cells.set(open, rest % RADIX);
        rest = rest / RADIX;
    }
    let mut at: usize = 0;
    while at < digit_count
        invariant
            at <= digit_count,
            cells.len() == digit_count,
            all == digits(value as nat, digit_count as nat),
            all.len() == digit_count,
            forall|k: int| 0 <= k < digit_count ==> (#[trigger] cells[k]) as nat == all[k],
            forall|k: int| 0 <= k < digit_count ==> (#[trigger] all[k]) < RADIX,
            out@ == old(out)@ + encode_text(value as nat, digit_count as nat).subrange(0, at as int),
        decreases digit_count - at,
    {
        push_digit(out, cells[at]);
        at = at + 1;
        assert(out@ =~= old(out)@ + encode_text(value as nat, digit_count as nat).subrange(
            0,
            at as int,
        ));
    }
    assert(encode_text(value as nat, digit_count as nat).subrange(0, digit_count as int)
        =~= encode_text(value as nat, digit_count as nat));
}

/// Writes `value` with exactly `digit_count` digits, most significant first.
///
/// The value has to fit: it must be below `83^digit_count`.
pub fn encode_int(value: u64, digit_count: usize) -> (text: String)
    requires
        value < pow(RADIX as int, digit_count as nat),
    ensures
        text@ == encode_text(value as nat, digit_count as nat),
        text@.len() == digit_count,
        all_symbols(text@),
        decode_text(text@) == Some(value as nat),
{
    let mut text = String::new();
    encode_int_into(&mut text, value, digit_count);
    proof {
        lemma_encode_text_symbols(value as nat, digit_count as nat);
        lemma_decode_encode(value as nat, digit_count as nat);
        assert(text@ =~= encode_text(value as nat, digit_count as nat));
    }
    text
}

/// The digit that the ASCII character `c` stands for, if it is a symbol.
pub fn digit_of(c: u8) -> (d: Option<u64>)
    ensures
        d matches Some(v) ==> v < RADIX && digit_value(c as char) == Some(v as nat),
        d is None ==> digit_value(c as char) is None,
{
    proof {
        lemma_alphabet();
    }
    let table = ALPHABET.as_bytes();
    proof {
        is_ascii_spec_bytes(ALPHABET);
    }
    let mut at: usize = 0;
    while at < table.len()
        invariant
            at <= table@.len() == RADIX,
            forall|k: int| 0 <= k < RADIX ==> table@[k] == (#[trigger] ALPHABET@[k]) as u8,
            forall|k: int| 0 <= k < RADIX ==> '\0' <= (#[trigger] ALPHABET@[k]) <= '\u{7f}',
            forall|k: nat| k < at ==> #[trigger] symbol(k) != c as char,
        decreases table@.len() - at,
    {
        if table[at] == c {
            proof {
                assert(symbol(at as nat) == c as char);
                lemma_digit_of_symbol(at as nat);
            }
            return Some(at as u64);
        }
        at = at + 1;
    }
    None
}

/// What `decode_int` makes of `text`: the number it denotes, where that is a
/// number and no greater than `u64::MAX`.
pub open spec fn decode_value(text: Seq<char>) -> Option<u64> {
    match decode_text(text) {
        Some(v) => if v <= u64::MAX {
            Some(v as u64)
        } else {
            None
        },
        None => None,
    }
}

/// Reads a base-83 number, most significant digit first.
///
/// Gives `None` where a character is outside the alphabet or the number does
/// not fit in 64 bits.
pub fn decode_int(text: &str) -> (value: Option<u64>)
    ensures
        value == decode_value(text@),
{
    if !text.is_ascii() {
        proof {
            lemma_decodes_iff_symbols(text@);
            if all_symbols(text@) {
                lemma_symbols_are_ascii(text@);
            }
        }
        return None;
    }
    let bytes = text.as_bytes();
    proof {
        is_ascii_spec_bytes(text);
    }
    let mut acc: u64 = 0;
    let mut at: usize = 0;
    assert(text@.subrange(0, 0) =~= Seq::<char>::empty());
    while at < bytes.len()
        invariant
            at <= bytes.len(),
            bytes@.len() == text@.len(),
            forall|k: int| 0 <= k < text@.len() ==> bytes@[k] == (#[trigger] text@[k]) as u8,
            is_ascii(text),
            decode_text(text@.subrange(0, at as int)) == Some(acc as nat),
        decreases bytes.len() - at,
    {
        let ghost prefix = text@.subrange(0, at + 1);
        assert(prefix.drop_last() =~= text@.subrange(0, at as int));
        assert(prefix.last() == text@[at as int]);
        assert(bytes@[at as int] as char == text@[at as int]);
        let digit = match digit_of(bytes[at]) {
            Some(d) => d,
            None => {
                proof {
                    if decode_text(text@) is Some {
                        lemma_decode_prefix(text@, at + 1);
                    }
                }
                return None;
            },
        };
        let next = match acc.checked_mul(RADIX) {
            Some(scaled) => scaled.checked_add(digit),
            None => None,
        };
        match next {
            Some(sum) => {
                acc = sum;
            },
            None => {
                proof {
                    if decode_text(text@) is Some {
                        lemma_decode_prefix(text@, at + 1);
                    }
                }
                return None;
            },
        }
        at = at + 1;
    }
    assert(text@.subrange(0, at as int) =~= text@);
    Some(acc)
}

} // verus!
