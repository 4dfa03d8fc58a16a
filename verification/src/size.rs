//! Byte counts written as text, such as `15MiB`.

use vstd::prelude::*;
use vstd::string::*;
use crate::text::{
    agrees, ascii_lower, decimal, decimal_is_read_back, digits_to_u64, digits_value, is_blank,
    is_digit, is_number, is_space, lowercase, nothing_to_trim, only_space_is_trimmed, same_text, trim,
    trimmed, trimming_is_complete,
};

verus! {

/// A byte count as it stands in a configuration file.
#[derive(Debug)]
pub enum Size {
    Bytes(u64),
    Text(String),
}

/// The number of decimal digits that `s` starts with.
pub open spec fn leading_digits(s: Seq<char>) -> nat
    decreases s.len(),
{
    if s.len() > 0 && is_digit(s.first()) {
        1 + leading_digits(s.drop_first())
    } else {
        0
    }
}

/// The number of bytes that a unit stands for. Case does not matter.
pub open spec fn unit_bytes(unit: Seq<char>) -> Option<u64> {
    let unit = lowercase(unit);
    if unit == ""@ || unit == "b"@ {
        Some(1u64)
    } else if unit == "k"@ || unit == "kib"@ {
        Some(1024u64)
    } else if unit == "m"@ || unit == "mib"@ {
        Some(1048576u64)
    } else if unit == "g"@ || unit == "gib"@ {
        Some(1073741824u64)
    } else if unit == "kb"@ {
        Some(1000u64)
    } else if unit == "mb"@ {
        Some(1000000u64)
    } else if unit == "gb"@ {
        Some(1000000000u64)
    } else {
        None
    }
}

/// What a size text means: a decimal number and a unit, with whitespace allowed
/// around either; or the message that says what is wrong with it.
pub open spec fn size_of(text: Seq<char>) -> Result<u64, Seq<char>> {
    let text = trimmed(text);
    let digits = leading_digits(text) as int;
    let number = digits_value(text.take(digits));
    match unit_bytes(trimmed(text.skip(digits))) {
        Some(unit) if digits > 0 && number <= u64::MAX => if number * unit <= u64::MAX {
            Ok((number * unit) as u64)
        } else {
            Err("size "@ + text + " is too large"@)
        },
        _ => Err("invalid size "@ + text),
    }
}

proof fn lemma_leading_digits(s: Seq<char>, k: int)
    requires
        0 <= k <= s.len(),
        forall|i: int| 0 <= i < k ==> is_digit(#[trigger] s[i]),
        k < s.len() ==> !is_digit(s[k]),
    ensures
        leading_digits(s) == k,
    decreases k,
{
    if k > 0 {
        let rest = s.drop_first();
        assert forall|i: int| 0 <= i < k - 1 implies is_digit(#[trigger] rest[i]) by {
            assert(rest[i] == s[i + 1]);
        }
        lemma_leading_digits(rest, k - 1);
    }
}

fn unit(text: &str) -> (r: Option<u64>)
    ensures
        r == unit_bytes(text@),
{
    let lower = text.to_ascii_lowercase();
    let unit = lower.as_str();
    if same_text(unit, "") || same_text(unit, "b") {
        Some(1)
    } else if same_text(unit, "k") || same_text(unit, "kib") {
        Some(1024)
    } else if same_text(unit, "m") || same_text(unit, "mib") {
        Some(1048576)
    } else if same_text(unit, "g") || same_text(unit, "gib") {
        Some(1073741824)
    } else if same_text(unit, "kb") {
        Some(1000)
    } else if same_text(unit, "mb") {
        Some(1000000)
    } else if same_text(unit, "gb") {
        Some(1000000000)
    } else {
        None
    }
}

/// Reads a byte count such as `4096`, `15MiB` or `2 kb`.
pub fn parse_size(text: &str) -> (r: Result<u64, String>)
    ensures
        agrees(r, size_of(text@)),
{
    let text = trim(text);
    let len: usize = text.unicode_len();
    let mut digits: usize = 0;
    let mut inside: bool = true;
    while inside
        invariant
            digits <= len,
            len == text@.len(),
            forall|i: int| 0 <= i < digits ==> is_digit(#[trigger] text@[i]),
            !inside ==> digits < len ==> !is_digit(text@[digits as int]),
        decreases len - digits + (if inside { 1int } else { 0int }),
    {
        if digits < len {
            let c = text.get_char(digits);
            if '0' <= c && c <= '9' {
                digits = digits + 1;
            } else {
                inside = false;
            }
        } else {
            inside = false;
        }
    }
    proof {
        lemma_leading_digits(text@, digits as int);
        assert(text@.subrange(0, digits as int) == text@.take(digits as int));
        assert(text@.subrange(digits as int, len as int) == text@.skip(digits as int));
    }
    let number: u64 = match digits_to_u64(text.substring_char(0, digits)) {
        Some(number) => number,
        None => return Err("invalid size ".to_owned().concat(text)),
    };
    let unit: u64 = match unit(trim(text.substring_char(digits, len))) {
        Some(unit) => unit,
        None => return Err("invalid size ".to_owned().concat(text)),
    };
    match number.checked_mul(unit) {
        Some(bytes) => Ok(bytes),
        None => Err("size ".to_owned().concat(text).concat(" is too large")),
    }
}

/// What a configured size means.
pub open spec fn configured_size(size: Size) -> Result<u64, Seq<char>> {
    match size {
        Size::Bytes(value) => Ok(value),
        Size::Text(text) => size_of(text@),
    }
}

/// The byte count of a configured size.
pub fn deserialize_size(size: Size) -> (r: Result<u64, String>)
    ensures
        agrees(r, configured_size(size)),
{
    match size {
        Size::Bytes(value) => Ok(value),
        Size::Text(text) => parse_size(text.as_str()),
    }
}

/// The byte count of a configured size, where one is configured.
pub fn deserialize_optional_size(size: Option<Size>) -> (r: Result<Option<u64>, String>)
    ensures
        match size {
            None => r == Ok::<Option<u64>, String>(None),
            Some(size) => match (r, configured_size(size)) {
                (Ok(value), Ok(expected)) => value == Some(expected),
                (Err(message), Err(expected)) => message@ == expected,
                _ => false,
            },
        },
{
    match size {
        None => Ok(None),
        Some(size) => match deserialize_size(size) {
            Ok(value) => Ok(Some(value)),
            Err(message) => Err(message),
        },
    }
}

proof fn lemma_units_are_letters(unit: Seq<char>)
    requires
        unit_bytes(unit) is Some,
        unit.len() > 0,
    ensures
        !is_digit(unit.first()),
        !is_space(unit.first()),
        !is_space(unit.last()),
{
    reveal_strlit("");
    reveal_strlit("b");
    reveal_strlit("k");
    reveal_strlit("kib");
    reveal_strlit("m");
    reveal_strlit("mib");
    reveal_strlit("g");
    reveal_strlit("gib");
    reveal_strlit("kb");
    reveal_strlit("mb");
    reveal_strlit("gb");
    let low = lowercase(unit);
    assert(low.len() == unit.len());
    assert(low != ""@);
    assert(low.len() == 1 || low.len() == 2 || low.len() == 3);
    assert('b' <= low[0] <= 'm');
    assert('b' <= low[low.len() - 1] <= 'm');
    assert(low.first() == ascii_lower(unit.first()));
    assert(low.last() == ascii_lower(unit.last()));
}

/// The decimal digits of a byte count, followed by a unit, mean that many units,
/// as long as the product fits: whatever the number, and for every unit.
pub proof fn number_and_unit_are_read_back(number: nat, unit: Seq<char>)
    requires
        unit_bytes(unit) is Some,
        number * unit_bytes(unit)->0 <= u64::MAX,
    ensures
        size_of(decimal(number) + unit) == Ok::<u64, Seq<char>>(
            (number * unit_bytes(unit)->0) as u64,
        ),
{
    let digits = decimal(number);
    let text = digits + unit;
    let bytes = unit_bytes(unit)->0;
    assert(number <= number * bytes) by (nonlinear_arith)
        requires
            bytes >= 1,
    ;
    decimal_is_read_back(number);
    if unit.len() > 0 {
        lemma_units_are_letters(unit);
    }
    assert(text.first() == digits.first());
    assert(is_digit(digits.first()));
    assert(is_digit(digits.last()));
    assert(text.last() == if unit.len() > 0 { unit.last() } else { digits.last() });
    nothing_to_trim(text);
    nothing_to_trim(unit);
    assert forall|i: int| 0 <= i < digits.len() implies is_digit(#[trigger] text[i]) by {
        assert(text[i] == digits[i]);
    }
    if unit.len() > 0 {
        assert(text[digits.len() as int] == unit.first());
    }
    lemma_leading_digits(text, digits.len() as int);
    assert(text.take(digits.len() as int) == digits);
    assert(text.skip(digits.len() as int) == unit);
}

/// Whitespace around a size text does not matter.
pub proof fn surrounding_space_is_ignored(text: Seq<char>)
    ensures
        size_of(trimmed(text)) == size_of(text),
{
    trimming_is_complete(text);
}

/// The units are powers of two and of ten.
pub proof fn the_units_are_known(unit: Seq<char>)
    ensures
        lowercase(unit) == ""@ || lowercase(unit) == "b"@ ==> unit_bytes(unit) == Some(1u64),
        lowercase(unit) == "k"@ || lowercase(unit) == "kib"@ ==> unit_bytes(unit) == Some(1024u64),
        lowercase(unit) == "m"@ || lowercase(unit) == "mib"@ ==> unit_bytes(unit) == Some(
            (1024u64 * 1024u64) as u64,
        ),
        lowercase(unit) == "g"@ || lowercase(unit) == "gib"@ ==> unit_bytes(unit) == Some(
            (1024u64 * 1024u64 * 1024u64) as u64,
        ),
        lowercase(unit) == "kb"@ ==> unit_bytes(unit) == Some(1000u64),
        lowercase(unit) == "mb"@ ==> unit_bytes(unit) == Some((1000u64 * 1000u64) as u64),
        lowercase(unit) == "gb"@ ==> unit_bytes(unit) == Some((1000u64 * 1000u64 * 1000u64) as u64),
        unit_bytes(unit) is Some ==> {
            let low = lowercase(unit);
            ||| low == ""@
            ||| low == "b"@
            ||| low == "k"@
            ||| low == "kib"@
            ||| low == "m"@
            ||| low == "mib"@
            ||| low == "g"@
            ||| low == "gib"@
            ||| low == "kb"@
            ||| low == "mb"@
            ||| low == "gb"@
        },
{
    reveal_strlit("");
    reveal_strlit("b");
    reveal_strlit("k");
    reveal_strlit("kib");
    reveal_strlit("m");
    reveal_strlit("mib");
    reveal_strlit("g");
    reveal_strlit("gib");
    reveal_strlit("kb");
    reveal_strlit("mb");
    reveal_strlit("gb");
    let low = lowercase(unit);
    if low.len() == 1 {
        let c = low[0];
    }
    if low.len() == 2 {
        let c = (low[0], low[1]);
    }
    if low.len() == 3 {
        let c = (low[0], low[1], low[2]);
    }
}

/// A size that has a value is that of a text that, with the whitespace around it taken
/// away, begins with a digit.
pub proof fn a_size_begins_with_a_digit(text: Seq<char>)
    requires
        size_of(text) is Ok,
    ensures
        trimmed(text).len() > 0,
        is_digit(trimmed(text)[0]),
{
}

/// A number of units that does not fit is refused as too large, not cut off.
pub proof fn a_size_is_never_cut_off(number: nat, unit: Seq<char>)
    requires
        unit_bytes(unit) is Some,
        number <= u64::MAX,
        number * unit_bytes(unit)->0 > u64::MAX,
    ensures
        size_of(decimal(number) + unit) == Err::<u64, Seq<char>>(
            "size "@ + (decimal(number) + unit) + " is too large"@,
        ),
{
    let digits = decimal(number);
    let text = digits + unit;
    decimal_is_read_back(number);
    if unit.len() > 0 {
        lemma_units_are_letters(unit);
    }
    assert(text.first() == digits.first());
    assert(is_digit(digits.first()));
    assert(is_digit(digits.last()));
    assert(text.last() == if unit.len() > 0 { unit.last() } else { digits.last() });
    nothing_to_trim(text);
    nothing_to_trim(unit);
    assert forall|i: int| 0 <= i < digits.len() implies is_digit(#[trigger] text[i]) by {
        assert(text[i] == digits[i]);
    }
    if unit.len() > 0 {
        assert(text[digits.len() as int] == unit.first());
    }
    lemma_leading_digits(text, digits.len() as int);
    assert(text.take(digits.len() as int) == digits);
    assert(text.skip(digits.len() as int) == unit);
}

proof fn lemma_spaced(number: nat, space: Seq<char>, unit: Seq<char>)
    requires
        unit_bytes(unit) is Some,
        unit.len() > 0,
        is_blank(space),
    ensures
        ({
            let text = decimal(number) + space + unit;
            &&& trimmed(text) == text
            &&& leading_digits(text) == decimal(number).len()
            &&& digits_value(text.take(leading_digits(text) as int)) == number
            &&& leading_digits(text) > 0
            &&& trimmed(text.skip(leading_digits(text) as int)) == unit
        }),
{
    let digits = decimal(number);
    let text = digits + space + unit;
    decimal_is_read_back(number);
    lemma_units_are_letters(unit);
    assert(is_digit(digits[0]));
    assert(text.first() == digits[0]);
    assert(text.last() == unit.last());
    nothing_to_trim(text);
    assert forall|i: int| 0 <= i < digits.len() implies is_digit(#[trigger] text[i]) by {
        assert(text[i] == digits[i]);
    }
    assert(!is_digit(text[digits.len() as int])) by {
        if space.len() > 0 {
            assert(text[digits.len() as int] == space[0]);
        } else {
            assert(text[digits.len() as int] == unit.first());
        }
    }
    lemma_leading_digits(text, digits.len() as int);
    assert(text.take(digits.len() as int) =~= digits);
    assert(text.skip(digits.len() as int) =~= space + unit + Seq::<char>::empty());
    only_space_is_trimmed(space, unit, Seq::<char>::empty());
}

/// Space between the number and its unit does not change the size.
pub proof fn a_unit_may_stand_apart(number: nat, space: Seq<char>, unit: Seq<char>)
    requires
        unit_bytes(unit) is Some,
        unit.len() > 0,
        is_blank(space),
    ensures
        ({
            let bytes = unit_bytes(unit)->0;
            let text = decimal(number) + space + unit;
            if number * bytes <= u64::MAX {
                size_of(text) == Ok::<u64, Seq<char>>((number * bytes) as u64)
            } else if number <= u64::MAX {
                size_of(text) == Err::<u64, Seq<char>>("size "@ + text + " is too large"@)
            } else {
                size_of(text) == Err::<u64, Seq<char>>("invalid size "@ + text)
            }
        }),
{
    lemma_spaced(number, space, unit);
    let bytes = unit_bytes(unit)->0;
    assert(number <= number * bytes) by (nonlinear_arith)
        requires
            bytes >= 1,
    ;
}

/// A size that has a value is a number of units: nothing but digits, and behind them a
/// unit.
pub proof fn a_size_is_a_number_of_units(text: Seq<char>, value: u64)
    requires
        size_of(text) == Ok::<u64, Seq<char>>(value),
    ensures
        exists|k: int|
            0 < k <= trimmed(text).len() && is_number(#[trigger] trimmed(text).take(k)) && (
            unit_bytes(trimmed(trimmed(text).skip(k))) matches Some(unit) && value == digits_value(
                trimmed(text).take(k),
            ) * unit),
{
    let inner = trimmed(text);
    let k = leading_digits(inner) as int;
    lemma_digits_lead(inner);
    assert(is_number(inner.take(k)));
}

proof fn lemma_digits_lead(s: Seq<char>)
    ensures
        leading_digits(s) <= s.len(),
        forall|i: int| 0 <= i < leading_digits(s) ==> is_digit(#[trigger] s[i]),
    decreases s.len(),
{
    if s.len() > 0 && is_digit(s.first()) {
        let rest = s.drop_first();
        lemma_digits_lead(rest);
        assert forall|i: int| 0 <= i < leading_digits(s) implies is_digit(#[trigger] s[i]) by {
            if i > 0 {
                assert(rest[i - 1] == s[i]);
            }
        }
    }
}

} // verus!
