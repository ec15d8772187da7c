use std::num::ParseIntError;
use vstd::prelude::*;
use vstd::string::StrSliceExecFns;
use vstd::string::StringExecFns;
use vstd::arithmetic::div_mod::{
    lemma_fundamental_div_mod_converse_div, lemma_fundamental_div_mod_converse_mod,
};
use vstd::utf8::{encode_utf8, is_ascii_chars, is_ascii_chars_encode_utf8};

use crate::api::decimal::{
    all_digits, append_decimal, append_four_digits, decimal_digits, digits_value, four_digits,
    is_digit, is_u64_text, lemma_decimal_digits, lemma_four_digits, u64_text_value,
    unsigned_digits,
};

verus! {

/// Number of decimal digits kept after the separator.
pub const PRECISION: usize = 4;

/// Scale factor between the stored integer and the represented amount.
pub const BASE: u64 = 10_000;

/// `std::num::ParseIntError`, carried as the cause of an integer read that failed; nothing
/// is assumed of its contents.
#[verifier::external_type_specification]
#[verifier::external_body]
pub struct ExParseIntError(ParseIntError);

/// Why an amount could not be built, parsed or changed.
#[derive(Debug, PartialEq)]
pub enum CurrencyError {
    /// No text before the separator; reading always finds one, so this is not reported.
    CannotGetDecimalPart,
    /// The text before the separator is not a `u64`.
    CannotParseDecimalPart { source: ParseIntError },
    /// The padded fractional text is not a `u64`.
    CannotParseFractionalPart { source: ParseIntError },
    /// The fractional text is longer than `PRECISION`; it is carried here.
    FractionalTooLong(String),
    /// The whole units times `BASE` do not fit.
    DecimalMultipliedByPrecisionOutOfRange(u64),
    /// The whole units and the fractional part together do not fit.
    DecimalAddedFractionalOutOfRange(u64, u64),
    /// The fractional part is not below `BASE`.
    FractionalOutOfRange(u64),
    /// A sum does not fit.
    AddingOtherOutOfRange,
    /// A difference would be negative.
    SubstractingOtherNegative,
}

/// A non-negative amount with `PRECISION` fixed decimal digits, stored scaled by `BASE`.
#[derive(Debug, Copy, Clone, PartialEq, Eq, Structural)]
pub struct Currency(u64);

impl View for Currency {
    type V = nat;

    /// The amount in units of `1 / BASE`.
    closed spec fn view(&self) -> nat {
        self.0 as nat
    }
}

/// Whether `decimal` units and `fractional` ten-thousandths make an amount that can be stored.
pub open spec fn is_representable(decimal: nat, fractional: nat) -> bool {
    fractional < BASE && decimal * BASE + fractional <= u64::MAX
}

/// The error that `Currency::new` reports for a pair that cannot be stored.
pub open spec fn new_error(decimal: u64, fractional: u64) -> CurrencyError {
    if fractional >= BASE {
        CurrencyError::FractionalOutOfRange(fractional)
    } else if decimal * BASE > u64::MAX {
        CurrencyError::DecimalMultipliedByPrecisionOutOfRange(decimal)
    } else {
        CurrencyError::DecimalAddedFractionalOutOfRange(decimal, fractional)
    }
}

/// Every amount fits in the stored integer.
pub broadcast proof fn lemma_view_bounded(c: Currency)
    ensures
        #[trigger] c@ <= u64::MAX,
{
}

/// Two amounts with the same value are the same amount.
pub broadcast proof fn lemma_view_injective(a: Currency, b: Currency)
    ensures
        #![trigger a@, b@]
        a@ == b@ ==> a == b,
{
}

/// The text of an amount: its whole units, the separator `.`, and four fractional digits.
pub open spec fn rendered(v: nat) -> Seq<char> {
    decimal_digits(v / (BASE as nat)) + seq!['.'] + four_digits(v % (BASE as nat))
}

/// The first index at or after `i` that holds the separator `.`, or the length of `s`.
pub open spec fn separator_from(s: Seq<char>, i: int) -> int
    decreases s.len() - i,
{
    if i >= s.len() {
        s.len() as int
    } else if s[i] == '.' {
        i
    } else {
        separator_from(s, i + 1)
    }
}

/// The text before the first separator (all of `s` when there is none).
pub open spec fn integer_text(s: Seq<char>) -> Seq<char> {
    s.subrange(0, separator_from(s, 0))
}

/// The text between the first separator and the next one or the end; `"0"` when `s` holds
/// no separator.
pub open spec fn fraction_text(s: Seq<char>) -> Seq<char> {
    let d = separator_from(s, 0);
    if d < s.len() {
        s.subrange(d + 1, separator_from(s, d + 1))
    } else {
        seq!['0']
    }
}

/// The length of `s` in UTF-8 bytes.
pub open spec fn utf8_len(s: Seq<char>) -> nat {
    encode_utf8(s).len()
}

/// The fractional text followed by zeros up to `PRECISION` bytes.
pub open spec fn padded_fraction(s: Seq<char>) -> Seq<char> {
    let f = fraction_text(s);
    f + Seq::new((PRECISION - utf8_len(f)) as nat, |_i: int| '0')
}

/// The amount that the text `s` denotes, or `None` where `Currency::try_from` rejects it.
pub open spec fn parsed_value(s: Seq<char>) -> Option<nat> {
    let whole = integer_text(s);
    let frac = padded_fraction(s);
    if is_u64_text(whole) && utf8_len(fraction_text(s)) <= PRECISION && is_u64_text(frac)
        && is_representable(u64_text_value(whole), u64_text_value(frac)) {
        Some((u64_text_value(whole) * BASE + u64_text_value(frac)) as nat)
    } else {
        None
    }
}

/// Whether `e` is the error that `Currency::try_from` reports for the text `s`: the first
/// check that `s` fails decides it. What a `ParseIntError` holds is left open.
pub open spec fn parse_error(s: Seq<char>, e: CurrencyError) -> bool {
    let whole = integer_text(s);
    let frac = padded_fraction(s);
    match e {
        CurrencyError::CannotParseDecimalPart { .. } => !is_u64_text(whole),
        CurrencyError::FractionalTooLong(t) => is_u64_text(whole) && utf8_len(fraction_text(s))
            > PRECISION && t@ == fraction_text(s),
        CurrencyError::CannotParseFractionalPart { .. } => is_u64_text(whole) && utf8_len(
            fraction_text(s),
        ) <= PRECISION && !is_u64_text(frac),
        _ => {
            &&& is_u64_text(whole)
            &&& utf8_len(fraction_text(s)) <= PRECISION
            &&& is_u64_text(frac)
            &&& !is_representable(u64_text_value(whole), u64_text_value(frac))
            &&& e == new_error(u64_text_value(whole) as u64, u64_text_value(frac) as u64)
        },
    }
}

/// Relies on `<u64 as std::str::FromStr>::from_str`: it accepts exactly an optional `+`
/// followed by one or more ASCII digits whose value fits in a `u64`, and returns that value.
#[verifier::external_body]
fn parse_u64(text: &str) -> (r: Result<u64, ParseIntError>)
    ensures
        r is Ok <==> is_u64_text(text@),
        r is Ok ==> r->Ok_0 == u64_text_value(text@),
{
    text.parse::<u64>()
}

/// The first index at or after `from` that holds the separator, or the length of `s`.
fn find_separator(s: &str, len: usize, from: usize) -> (r: usize)
    requires
        len == s@.len(),
        from <= len,
    ensures
        r == separator_from(s@, from as int),
        from <= r <= len,
{
    let mut i = from;
    while i < len
        invariant
            len == s@.len(),
            from <= i <= len,
            separator_from(s@, from as int) == separator_from(s@, i as int),
        decreases len - i,
    {
        if s.get_char(i) == '.' {
            return i;
        }
        i = i + 1;
    }
    i
}

/// Adding `b` to `a` and then taking `b` away again gives back exactly `a`, whenever the
/// addition fits: the sum leaves room to take `b` away, and what is left is `a`.
pub proof fn lemma_add_then_substract(a: Currency, b: Currency)
    requires
        a@ + b@ <= u64::MAX,
    ensures
        forall|sum: Currency|
            #[trigger] sum@ == a@ + b@ ==> b@ <= sum@ && forall|back: Currency|
                #[trigger] back@ == sum@ - b@ ==> back == a,
{
}

/// The separator search from `i` stops at `k` when nothing before `k` is a separator and
/// `k` is one or is the end.
proof fn lemma_separator_at(s: Seq<char>, i: int, k: int)
    requires
        0 <= i <= k <= s.len(),
        forall|j: int| i <= j < k ==> s[j] != '.',
        k == s.len() || s[k] == '.',
    ensures
        separator_from(s, i) == k,
    decreases k - i,
{
    if i < k {
        lemma_separator_at(s, i + 1, k);
    }
}

/// Digit text without a sign reads as its own value.
proof fn lemma_digits_read_back(d: Seq<char>)
    requires
        d.len() > 0,
        all_digits(d),
        digits_value(d) <= u64::MAX,
    ensures
        is_u64_text(d),
        u64_text_value(d) == digits_value(d),
{
    assert(is_digit(d[0]));
    assert(unsigned_digits(d) == d);
}

/// Reading back the text of an amount built from `integer` whole units and `fractional`
/// ten-thousandths gives the same amount.
pub proof fn lemma_parse_render_round_trip(integer: u64, fractional: u64)
    requires
        is_representable(integer as nat, fractional as nat),
    ensures
        parsed_value(rendered((integer * BASE + fractional) as nat)) == Some(
            (integer * BASE + fractional) as nat,
        ),
{
    let v = (integer * BASE + fractional) as nat;
    lemma_fundamental_div_mod_converse_div(v as int, BASE as int, integer as int, fractional as int);
    lemma_fundamental_div_mod_converse_mod(v as int, BASE as int, integer as int, fractional as int);
    let whole = decimal_digits(integer as nat);
    let frac = four_digits(fractional as nat);
    let s = rendered(v);
    assert(s == whole + seq!['.'] + frac);
    lemma_decimal_digits(integer as nat);
    lemma_four_digits(fractional as nat);
    let k = whole.len() as int;
    assert forall|j: int| 0 <= j < k implies s[j] != '.' by {
        assert(s[j] == whole[j]);
        assert(is_digit(whole[j]));
    }
    lemma_separator_at(s, 0, k);
    assert forall|j: int| k + 1 <= j < s.len() implies s[j] != '.' by {
        assert(s[j] == frac[j - k - 1]);
        assert(is_digit(frac[j - k - 1]));
    }
    lemma_separator_at(s, k + 1, s.len() as int);
    assert(integer_text(s) =~= whole);
    assert(fraction_text(s) =~= frac);
    assert(is_ascii_chars(frac)) by {
        assert forall|i: int| 0 <= i < frac.len() implies '\0' <= #[trigger] frac[i] <= '\u{7f}' by {
            assert(is_digit(frac[i]));
        }
    }
    is_ascii_chars_encode_utf8(frac);
    assert(padded_fraction(s) =~= frac);
    lemma_digits_read_back(whole);
    lemma_digits_read_back(frac);
}

impl Currency {
    /// Builds the amount `decimal + fractional / BASE`.
    pub fn new(decimal: u64, fractional: u64) -> (r: Result<Self, CurrencyError>)
        ensures
            match r {
                Ok(c) => is_representable(decimal as nat, fractional as nat) && c@ == decimal
                    * BASE + fractional,
                Err(e) => !is_representable(decimal as nat, fractional as nat) && e == new_error(
                    decimal,
                    fractional,
                ),
            },
    {
        if fractional >= BASE {
            return Err(CurrencyError::FractionalOutOfRange(fractional));
        }
        let value = match decimal.checked_mul(BASE) {
            Some(v) => v,
            None => {
                return Err(CurrencyError::DecimalMultipliedByPrecisionOutOfRange(decimal));
            },
        };
        let value = match value.checked_add(fractional) {
            Some(v) => v,
            None => {
                return Err(CurrencyError::DecimalAddedFractionalOutOfRange(decimal, fractional));
            },
        };
        Ok(Currency(value))
    }

    /// The largest amount that can be stored.
    pub fn max() -> (r: Self)
        ensures
            r@ == u64::MAX,
    {
        match Self::new(u64::MAX / BASE, u64::MAX % BASE) {
            Ok(c) => c,
            Err(_) => {
                assert(false);
                Currency(0)
            },
        }
    }

    /// Adds `other` to this amount; on overflow the amount is left as it was.
    pub fn add(&mut self, other: Self) -> (r: Result<(), CurrencyError>)
        ensures
            old(self)@ + other@ <= u64::MAX ==> r is Ok && final(self)@ == old(self)@ + other@,
            old(self)@ + other@ > u64::MAX ==> r == Err::<(), CurrencyError>(
                CurrencyError::AddingOtherOutOfRange,
            ) && *final(self) == *old(self),
    {
        match self.0.checked_add(other.0) {
            Some(v) => {
                self.0 = v;
                Ok(())
            },
            None => Err(CurrencyError::AddingOtherOutOfRange),
        }
    }

    /// Takes `other` away from this amount; if it is larger, the amount is left as it was.
    pub fn substract(&mut self, other: Self) -> (r: Result<(), CurrencyError>)
        ensures
            other@ <= old(self)@ ==> r is Ok && final(self)@ == old(self)@ - other@,
            other@ > old(self)@ ==> r == Err::<(), CurrencyError>(
                CurrencyError::SubstractingOtherNegative,
            ) && *final(self) == *old(self),
    {
        match self.0.checked_sub(other.0) {
            Some(v) => {
                self.0 = v;
                Ok(())
            },
            None => Err(CurrencyError::SubstractingOtherNegative),
        }
    }

    /// Reads `INTEGER[.FRACTION]`: the integer part as a `u64`, the fractional part right-padded
    /// with zeros to `PRECISION` digits; a missing fractional part counts as zero.
    pub fn try_from(input: &str) -> (r: Result<Self, CurrencyError>)
        ensures
            match r {
                Ok(c) => parsed_value(input@) == Some(c@),
                Err(e) => parse_error(input@, e),
            },
    {
        let len = input.unicode_len();
        let dot = find_separator(input, len, 0);
        let decimal = match parse_u64(input.substring_char(0, dot)) {
            Ok(v) => v,
            Err(source) => {
                return Err(CurrencyError::CannotParseDecimalPart { source });
            },
        };
        let fractional_text: &str = if dot < len {
            let end = find_separator(input, len, dot + 1);
            input.substring_char(dot + 1, end)
        } else {
            proof {
                reveal_strlit("0");
            }
            "0"
        };
        assert(fractional_text@ == fraction_text(input@));
        let width = fractional_text.as_bytes().len();
        if width > PRECISION {
            return Err(CurrencyError::FractionalTooLong(fractional_text.to_owned()));
        }
        let mut padded = String::from_str(fractional_text);
        let mut k = width;
        while k < PRECISION
            invariant
                width <= k <= PRECISION,
                width == utf8_len(fractional_text@),
                padded@ =~= fractional_text@ + Seq::new((k - width) as nat, |_i: int| '0'),
            decreases PRECISION - k,
        {
            proof {
                reveal_strlit("0");
            }
            padded.append("0");
            k = k + 1;
        }
        assert(padded@ =~= padded_fraction(input@));
        let fractional = match parse_u64(padded.as_str()) {
            Ok(v) => v,
            Err(source) => {
                return Err(CurrencyError::CannotParseFractionalPart { source });
            },
        };
        Self::new(decimal, fractional)
    }

    /// Writes the amount as its whole units, `.`, and exactly four fractional digits.
    pub fn to_string(&self) -> (r: String)
        ensures
            r@ == rendered(self@),
    {
        let mut out = String::new();
        append_decimal(&mut out, self.0 / BASE);
        proof {
            reveal_strlit(".");
        }
        out.append(".");
        append_four_digits(&mut out, self.0 % BASE);
        assert(out@ =~= rendered(self@));
        out
    }
}

} // verus!
