//! Text primitives: whitespace, ASCII case, decimal numbers.

use vstd::prelude::*;
use vstd::string::*;

verus! {

/// Whether a result and its description agree.
pub open spec fn agrees<T>(result: Result<T, String>, described: Result<T, Seq<char>>) -> bool {
    match (result, described) {
        (Ok(value), Ok(expected)) => value == expected,
        (Err(message), Err(expected)) => message@ == expected,
        _ => false,
    }
}

/// Whether `c` has the Unicode property `White_Space`.
pub open spec fn is_space(c: char) -> bool {
    let code = c as u32;
    ||| 0x09 <= code <= 0x0d
    ||| code == 0x20
    ||| code == 0x85
    ||| code == 0xa0
    ||| code == 0x1680
    ||| 0x2000 <= code <= 0x200a
    ||| code == 0x2028
    ||| code == 0x2029
    ||| code == 0x202f
    ||| code == 0x205f
    ||| code == 0x3000
}

/// Whether `c` has the Unicode property `White_Space`.
pub fn space(c: char) -> (r: bool)
    ensures
        r == is_space(c),
{
    let code: u32 = c as u32;
    (0x09 <= code && code <= 0x0d) || code == 0x20 || code == 0x85 || code == 0xa0 || code == 0x1680
        || (0x2000 <= code && code <= 0x200a) || code == 0x2028 || code == 0x2029 || code == 0x202f
        || code == 0x205f || code == 0x3000
}

/// `s` without its leading whitespace.
pub open spec fn without_leading_space(s: Seq<char>) -> Seq<char>
    decreases s.len(),
{
    if s.len() > 0 && is_space(s.first()) {
        without_leading_space(s.drop_first())
    } else {
        s
    }
}

/// `s` without its trailing whitespace.
pub open spec fn without_trailing_space(s: Seq<char>) -> Seq<char>
    decreases s.len(),
{
    if s.len() > 0 && is_space(s.last()) {
        without_trailing_space(s.drop_last())
    } else {
        s
    }
}

/// `s` without the whitespace around it.
pub open spec fn trimmed(s: Seq<char>) -> Seq<char> {
    without_trailing_space(without_leading_space(s))
}

/// `text` without the whitespace around it.
pub fn trim<'a>(text: &'a str) -> (r: &'a str)
    ensures
        r@ == trimmed(text@),
{
    let len: usize = text.unicode_len();
    let mut from: usize = 0;
    assert(text@.skip(0) == text@);
    while from < len && space(text.get_char(from))
        invariant
            from <= len,
            len == text@.len(),
            without_leading_space(text@.skip(from as int)) == without_leading_space(text@),
        ensures
            from <= len,
            text@.skip(from as int) == without_leading_space(text@),
        decreases len - from,
    {
        assert(text@.skip(from as int).drop_first() == text@.skip(from + 1));
        from = from + 1;
    }
    let ghost rest = text@.skip(from as int);
    let mut to: usize = len;
    assert(rest == rest.take(len - from));
    while from < to && space(text.get_char(to - 1))
        invariant
            from <= to <= len,
            len == text@.len(),
            rest == text@.skip(from as int),
            without_trailing_space(rest.take(to - from)) == without_trailing_space(rest),
        ensures
            from <= to <= len,
            rest.take(to - from) == without_trailing_space(rest),
        decreases to,
    {
        assert(rest.take(to - from).drop_last() == rest.take(to - 1 - from));
        to = to - 1;
    }
    assert(text@.subrange(from as int, to as int) == rest.take(to - from));
    text.substring_char(from, to)
}

/// Whether two texts hold the same characters.
pub fn same_text(a: &str, b: &str) -> (r: bool)
    ensures
        r == (a@ == b@),
{
    let left = a.to_owned();
    let right = b.to_owned();
    left == right
}

/// The upper-case form of an ASCII letter; any other character unchanged.
pub open spec fn ascii_upper(c: char) -> char {
    if 'a' <= c <= 'z' {
        (c as u32 - 32) as char
    } else {
        c
    }
}

/// The lower-case form of an ASCII letter; any other character unchanged.
pub open spec fn ascii_lower(c: char) -> char {
    if 'A' <= c <= 'Z' {
        (c as u32 + 32) as char
    } else {
        c
    }
}

/// `s` with its ASCII letters in upper case.
pub open spec fn uppercase(s: Seq<char>) -> Seq<char> {
    s.map_values(|c: char| ascii_upper(c))
}

/// `s` with its ASCII letters in lower case.
pub open spec fn lowercase(s: Seq<char>) -> Seq<char> {
    s.map_values(|c: char| ascii_lower(c))
}

/// `str::to_ascii_uppercase` maps the letters `a` to `z` to `A` to `Z` and
/// leaves every other character as it is.
pub assume_specification[ str::to_ascii_uppercase ](s: &str) -> (r: String)
    ensures
        r@ == uppercase(s@),
;

/// `str::to_ascii_lowercase` maps the letters `A` to `Z` to `a` to `z` and
/// leaves every other character as it is.
pub assume_specification[ str::to_ascii_lowercase ](s: &str) -> (r: String)
    ensures
        r@ == lowercase(s@),
;

/// Whether `c` is an ASCII decimal digit.
pub open spec fn is_digit(c: char) -> bool {
    '0' <= c <= '9'
}

/// The number that a sequence of decimal digits denotes.
pub open spec fn digits_value(s: Seq<char>) -> nat
    decreases s.len(),
{
    if s.len() == 0 {
        0
    } else {
        digits_value(s.drop_last()) * 10 + (s.last() as u32 - '0' as u32) as nat
    }
}

/// Whether `s` is one decimal digit or more, and nothing else.
pub open spec fn is_number(s: Seq<char>) -> bool {
    s.len() > 0 && forall|i: int| 0 <= i < s.len() ==> is_digit(#[trigger] s[i])
}

proof fn lemma_value_grows(s: Seq<char>, k: int)
    requires
        0 <= k <= s.len(),
        forall|i: int| 0 <= i < s.len() ==> is_digit(#[trigger] s[i]),
    ensures
        digits_value(s.take(k)) <= digits_value(s),
    decreases s.len(),
{
    if k < s.len() {
        lemma_value_grows(s.drop_last(), k);
        assert(s.drop_last().take(k) == s.take(k));
    } else {
        assert(s.take(k) == s);
    }
}

/// The value of a text that consists of decimal digits, if it has one digit at
/// least and the value fits.
pub fn digits_to_u64(text: &str) -> (r: Option<u64>)
    ensures
        r == (if is_number(text@) && digits_value(text@) <= u64::MAX {
            Some(digits_value(text@) as u64)
        } else {
            None
        }),
{
    let len: usize = text.unicode_len();
    if len == 0 {
        return None;
    }
    let mut i: usize = 0;
    while i < len
        invariant
            i <= len,
            len == text@.len(),
            forall|j: int| 0 <= j < i ==> is_digit(#[trigger] text@[j]),
        decreases len - i,
    {
        let c = text.get_char(i);
        if !('0' <= c && c <= '9') {
            return None;
        }
        i = i + 1;
    }
    let mut value: u64 = 0;
    let mut k: usize = 0;
    assert(text@.take(0) == Seq::<char>::empty());
    while k < len
        invariant
            k <= len,
            len == text@.len(),
            is_number(text@),
            value == digits_value(text@.take(k as int)),
        decreases len - k,
    {
        let c = text.get_char(k);
        let digit: u64 = (c as u32 - '0' as u32) as u64;
        proof {
            assert(text@.take(k + 1).drop_last() == text@.take(k as int));
            lemma_value_grows(text@, k + 1);
        }
        let tens: u64 = match value.checked_mul(10) {
            Some(tens) => tens,
            None => return None,
        };
        value = match tens.checked_add(digit) {
            Some(sum) => sum,
            None => return None,
        };
        k = k + 1;
    }
    assert(text@.take(len as int) == text@);
    Some(value)
}

/// The value of a text that is an optional sign and then decimal digits.
pub open spec fn signed_value(s: Seq<char>) -> Option<int> {
    if is_number(s) {
        Some(digits_value(s) as int)
    } else if s.len() > 0 && s[0] == '+' && is_number(s.drop_first()) {
        Some(digits_value(s.drop_first()) as int)
    } else if s.len() > 0 && s[0] == '-' && is_number(s.drop_first()) {
        Some(-(digits_value(s.drop_first()) as int))
    } else {
        None
    }
}

/// The `i32` that a text denotes: an optional sign and then decimal digits, with
/// a value in range.
pub open spec fn parsed_i32(s: Seq<char>) -> Option<i32> {
    match signed_value(s) {
        Some(value) if i32::MIN <= value <= i32::MAX => Some(value as i32),
        _ => None,
    }
}

/// Reads a text as an `i32`: an optional sign and then decimal digits.
pub fn parse_i32(text: &str) -> (r: Option<i32>)
    ensures
        r == parsed_i32(text@),
{
    let len: usize = text.unicode_len();
    if len == 0 {
        return None;
    }
    let first = text.get_char(0);
    let signed: bool = first == '+' || first == '-';
    let body = if signed {
        text.substring_char(1, len)
    } else {
        text
    };
    assert(signed ==> body@ == text@.drop_first());
    assert(signed ==> !is_digit(text@[0]));
    match digits_to_u64(body) {
        None => None,
        Some(magnitude) => {
            if signed && first == '-' {
                if magnitude <= 0x8000_0000 {
                    Some((-(magnitude as i64)) as i32)
                } else {
                    None
                }
            } else if magnitude <= 0x7fff_ffff {
                Some(magnitude as i32)
            } else {
                None
            }
        },
    }
}

/// The decimal digits of `n`, without leading zeros.
pub open spec fn decimal(n: nat) -> Seq<char>
    decreases n,
{
    if n < 10 {
        seq![('0' as u32 + n) as char]
    } else {
        decimal(n / 10).push(('0' as u32 + n % 10) as char)
    }
}

/// The decimal form of `n`, with a minus sign where it is negative.
pub open spec fn decimal_int(n: int) -> Seq<char> {
    if n < 0 {
        "-"@ + decimal((-n) as nat)
    } else {
        decimal(n as nat)
    }
}

fn show_digit(n: u64) -> (r: &'static str)
    requires
        n < 10,
    ensures
        r@ == seq![('0' as u32 + n) as char],
{
    proof {
        reveal_strlit("0");
        reveal_strlit("1");
        reveal_strlit("2");
        reveal_strlit("3");
        reveal_strlit("4");
        reveal_strlit("5");
        reveal_strlit("6");
        reveal_strlit("7");
        reveal_strlit("8");
        reveal_strlit("9");
    }
    if n == 0 {
        "0"
    } else if n == 1 {
        "1"
    } else if n == 2 {
        "2"
    } else if n == 3 {
        "3"
    } else if n == 4 {
        "4"
    } else if n == 5 {
        "5"
    } else if n == 6 {
        "6"
    } else if n == 7 {
        "7"
    } else if n == 8 {
        "8"
    } else {
        "9"
    }
}

/// The decimal digits of `n`.
pub fn show_u64(n: u64) -> (r: String)
    ensures
        r@ == decimal(n as nat),
    decreases n,
{
    if n < 10 {
        show_digit(n).to_owned()
    } else {
        let head = show_u64(n / 10);
        let last = show_digit(n % 10);
        assert(head@ + last@ == head@.push(last@[0]));
        head.concat(last)
    }
}

/// The decimal form of `n`.
pub fn show_i32(n: i32) -> (r: String)
    ensures
        r@ == decimal_int(n as int),
{
    if n < 0 {
        let magnitude: u64 = (-(n as i64)) as u64;
        "-".to_owned().concat(show_u64(magnitude).as_str())
    } else {
        show_u64(n as u64)
    }
}

/// Reading the decimal digits of a number gives the number back.
pub proof fn decimal_is_read_back(n: nat)
    ensures
        is_number(decimal(n)),
        digits_value(decimal(n)) == n,
    decreases n,
{
    if n < 10 {
        let s = decimal(n);
        assert(s.drop_last() == Seq::<char>::empty());
        assert(digits_value(s.drop_last()) == 0);
    } else {
        decimal_is_read_back(n / 10);
        assert(decimal(n).drop_last() == decimal(n / 10));
        assert(is_digit(decimal(n).last()));
        assert forall|i: int| 0 <= i < decimal(n).len() implies is_digit(#[trigger] decimal(n)[i]) by {
            if i < decimal(n).len() - 1 {
                assert(decimal(n)[i] == decimal(n / 10)[i]);
            }
        }
    }
}

/// What neither begins nor ends with whitespace is left as it is.
pub proof fn nothing_to_trim(s: Seq<char>)
    requires
        s.len() > 0 ==> !is_space(s.first()) && !is_space(s.last()),
    ensures
        trimmed(s) == s,
{
}

/// What is left neither begins nor ends with whitespace, so that there is nothing to do
/// a second time.
pub proof fn trimming_is_complete(s: Seq<char>)
    ensures
        trimmed(s).len() > 0 ==> !is_space(trimmed(s).first()) && !is_space(trimmed(s).last()),
        trimmed(trimmed(s)) == trimmed(s),
{
    lemma_leading_space_gone(s);
    lemma_trailing_space_gone(without_leading_space(s));
    nothing_to_trim(trimmed(s));
}

proof fn lemma_leading_space_gone(s: Seq<char>)
    ensures
        without_leading_space(s).len() > 0 ==> !is_space(without_leading_space(s).first()),
    decreases s.len(),
{
    if s.len() > 0 && is_space(s.first()) {
        lemma_leading_space_gone(s.drop_first());
    }
}

proof fn lemma_trailing_space_gone(s: Seq<char>)
    ensures
        without_trailing_space(s).len() > 0 ==> {
            &&& !is_space(without_trailing_space(s).last())
            &&& without_trailing_space(s).first() == s.first()
        },
    decreases s.len(),
{
    if s.len() > 0 && is_space(s.last()) {
        lemma_trailing_space_gone(s.drop_last());
    }
}

/// Trimming and changing the case of letters can be done in either order.
pub proof fn trimming_ignores_case(s: Seq<char>)
    ensures
        trimmed(uppercase(s)) == uppercase(trimmed(s)),
        trimmed(lowercase(s)) == lowercase(trimmed(s)),
{
    lemma_start_ignores_case(s);
    lemma_end_ignores_case(without_leading_space(s));
}

proof fn lemma_start_ignores_case(s: Seq<char>)
    ensures
        without_leading_space(uppercase(s)) == uppercase(without_leading_space(s)),
        without_leading_space(lowercase(s)) == lowercase(without_leading_space(s)),
    decreases s.len(),
{
    if s.len() > 0 && is_space(s.first()) {
        assert(uppercase(s).drop_first() =~= uppercase(s.drop_first()));
        assert(lowercase(s).drop_first() =~= lowercase(s.drop_first()));
        lemma_start_ignores_case(s.drop_first());
    }
}

proof fn lemma_end_ignores_case(s: Seq<char>)
    ensures
        without_trailing_space(uppercase(s)) == uppercase(without_trailing_space(s)),
        without_trailing_space(lowercase(s)) == lowercase(without_trailing_space(s)),
    decreases s.len(),
{
    if s.len() > 0 && is_space(s.last()) {
        assert(uppercase(s).drop_last() =~= uppercase(s.drop_last()));
        assert(lowercase(s).drop_last() =~= lowercase(s.drop_last()));
        lemma_end_ignores_case(s.drop_last());
    }
}

/// The characters that count as whitespace.
pub proof fn whitespace_is_known(c: char)
    ensures
        is_space(c) <==> {
            ||| c == ' '
            ||| c == '\t'
            ||| c == '\n'
            ||| c == '\r'
            ||| c as u32 == 0x0b
            ||| c as u32 == 0x0c
            ||| c as u32 == 0x85
            ||| c as u32 == 0xa0
            ||| c as u32 == 0x1680
            ||| c as u32 >= 0x2000 && c as u32 <= 0x200a
            ||| c as u32 == 0x2028
            ||| c as u32 == 0x2029
            ||| c as u32 == 0x202f
            ||| c as u32 == 0x205f
            ||| c as u32 == 0x3000
        },
{
}

/// A number is read back from its decimal form, also behind a plus sign.
pub proof fn an_i32_is_read_back(n: i32)
    ensures
        parsed_i32(decimal_int(n as int)) == Some(n),
        n >= 0 ==> parsed_i32("+"@ + decimal_int(n as int)) == Some(n),
{
    reveal_strlit("-");
    reveal_strlit("+");
    if n < 0 {
        let digits = decimal((-(n as int)) as nat);
        decimal_is_read_back((-(n as int)) as nat);
        let s = decimal_int(n as int);
        assert(s.drop_first() =~= digits);
        assert(s[0] == '-');
        assert(!is_digit(s[0]));
    } else {
        let digits = decimal(n as nat);
        decimal_is_read_back(n as nat);
        let s = "+"@ + digits;
        assert(s.drop_first() =~= digits);
        assert(s[0] == '+');
        assert(!is_digit(s[0]));
    }
}

/// A text is read as a number only where it is digits behind at most one sign.
pub proof fn only_digits_are_a_number(s: Seq<char>)
    requires
        parsed_i32(s) is Some,
    ensures
        s.len() > 0,
        is_digit(s[0]) || s.len() > 1 && (s[0] == '+' || s[0] == '-'),
        forall|i: int| 0 < i < s.len() ==> is_digit(#[trigger] s[i]),
{
    if !is_number(s) {
        let body = s.drop_first();
        assert forall|i: int| 0 < i < s.len() implies is_digit(#[trigger] s[i]) by {
            assert(body[i - 1] == s[i]);
        }
    }
}

/// Whether a text is nothing but whitespace.
pub open spec fn is_blank(s: Seq<char>) -> bool {
    forall|i: int| 0 <= i < s.len() ==> is_space(#[trigger] s[i])
}

proof fn lemma_leading_blank(blank: Seq<char>, s: Seq<char>)
    requires
        is_blank(blank),
    ensures
        without_leading_space(blank + s) == without_leading_space(s),
    decreases blank.len(),
{
    if blank.len() == 0 {
        assert(blank + s =~= s);
    } else {
        let less = blank.drop_first();
        assert forall|i: int| 0 <= i < less.len() implies is_space(#[trigger] less[i]) by {
            assert(less[i] == blank[i + 1]);
        }
        lemma_leading_blank(less, s);
        assert((blank + s).drop_first() =~= less + s);
        assert((blank + s).first() == blank[0]);
    }
}

proof fn lemma_trailing_blank(s: Seq<char>, blank: Seq<char>)
    requires
        is_blank(blank),
    ensures
        without_trailing_space(s + blank) == without_trailing_space(s),
    decreases blank.len(),
{
    if blank.len() == 0 {
        assert(s + blank =~= s);
    } else {
        let less = blank.drop_last();
        assert forall|i: int| 0 <= i < less.len() implies is_space(#[trigger] less[i]) by {
            assert(less[i] == blank[i]);
        }
        lemma_trailing_blank(s, less);
        assert((s + blank).drop_last() =~= s + less);
        assert((s + blank).last() == blank[blank.len() - 1]);
    }
}

/// Trimming takes the whitespace around a text away, and nothing of the text.
pub proof fn only_space_is_trimmed(before: Seq<char>, s: Seq<char>, after: Seq<char>)
    requires
        is_blank(before),
        is_blank(after),
        s.len() > 0,
        !is_space(s.first()),
        !is_space(s.last()),
    ensures
        trimmed(before + s + after) == s,
{
    assert(before + s + after =~= before + (s + after));
    lemma_leading_blank(before, s + after);
    assert((s + after).first() == s.first());
    lemma_trailing_blank(s, after);
}

/// A number that does not fit is none, and zeros before a number do not matter.
pub proof fn only_what_fits_is_an_i32(n: nat, s: Seq<char>)
    ensures
        n > i32::MAX ==> parsed_i32(decimal(n)) is None,
        n > i32::MAX + 1 ==> parsed_i32("-"@ + decimal(n)) is None,
        is_number(s) ==> parsed_i32("0"@ + s) == parsed_i32(s),
{
    reveal_strlit("-");
    reveal_strlit("0");
    decimal_is_read_back(n);
    let negative = "-"@ + decimal(n);
    assert(negative.drop_first() =~= decimal(n));
    assert(negative[0] == '-');
    assert(!is_digit(negative[0]));
    if is_number(s) {
        let zero = "0"@ + s;
        assert forall|i: int| 0 <= i < zero.len() implies is_digit(#[trigger] zero[i]) by {
            if i > 0 {
                assert(zero[i] == s[i - 1]);
            }
        }
        lemma_leading_zero(s);
    }
}

proof fn lemma_leading_zero(s: Seq<char>)
    ensures
        digits_value("0"@ + s) == digits_value(s),
    decreases s.len(),
{
    reveal_strlit("0");
    let zero = "0"@ + s;
    if s.len() == 0 {
        assert(zero.drop_last() =~= Seq::<char>::empty());
        assert(digits_value(zero.drop_last()) == 0);
        assert(zero.last() == '0');
    } else {
        lemma_leading_zero(s.drop_last());
        assert(zero.drop_last() =~= "0"@ + s.drop_last());
        assert(zero.last() == s.last());
    }
}

} // verus!
