//! Decoding one field of a line into a number.

use vstd::prelude::*;
use vstd::string::StringExecFns;
use crate::error::{Fault, ParseError};
use crate::text::{append_chars, field, to_chars};

verus! {

/// The decimal digits.
pub open spec fn is_digit(c: char) -> bool {
    '0' <= c && c <= '9'
}

/// The number that a decimal digit stands for.
pub open spec fn digit_value(c: char) -> int {
    c as int - '0' as int
}

/// Whether `s` holds decimal digits only.
pub open spec fn all_digits(s: Seq<char>) -> bool {
    forall|i: int| 0 <= i < s.len() ==> is_digit(#[trigger] s[i])
}

/// The number that a sequence of decimal digits stands for.
pub open spec fn decimal_value(s: Seq<char>) -> int
    decreases s.len(),
{
    if s.len() == 0 {
        0
    } else {
        10 * decimal_value(s.drop_last()) + digit_value(s.last())
    }
}

/// A plus or a minus sign.
pub open spec fn is_sign(c: char) -> bool {
    c == '+' || c == '-'
}

/// How many characters of `s` are a sign in front.
pub open spec fn sign_len(s: Seq<char>) -> int {
    if s.len() > 0 && is_sign(s[0]) {
        1
    } else {
        0
    }
}

/// The integer that `s` denotes: an optional sign and at least one decimal
/// digit, with a value that fits `i32`.
pub open spec fn integer_of(s: Seq<char>) -> Option<i32> {
    let digits = s.skip(sign_len(s));
    let value = if s.len() > 0 && s[0] == '-' {
        -decimal_value(digits)
    } else {
        decimal_value(digits)
    };
    if digits.len() > 0 && all_digits(digits) && i32::MIN <= value <= i32::MAX {
        Some(value as i32)
    } else {
        None
    }
}

/// The first position at or after `i` that holds no decimal digit.
pub open spec fn skip_digits(s: Seq<char>, i: int) -> int
    decreases s.len() - i,
{
    if 0 <= i < s.len() && is_digit(s[i]) {
        skip_digits(s, i + 1)
    } else {
        i
    }
}

/// Whether `c` is the letter `lower`, in either case.
pub open spec fn is_letter(c: char, lower: char, upper: char) -> bool {
    c == lower || c == upper
}

/// The words for the values that are no numbers: `inf`, `infinity` and
/// `nan`, in any mix of cases.
pub open spec fn special_word(s: Seq<char>) -> bool {
    ||| s.len() == 3 && is_letter(s[0], 'i', 'I') && is_letter(s[1], 'n', 'N') && is_letter(
        s[2],
        'f',
        'F',
    )
    ||| s.len() == 3 && is_letter(s[0], 'n', 'N') && is_letter(s[1], 'a', 'A') && is_letter(
        s[2],
        'n',
        'N',
    )
    ||| s.len() == 8 && is_letter(s[0], 'i', 'I') && is_letter(s[1], 'n', 'N') && is_letter(
        s[2],
        'f',
        'F',
    ) && is_letter(s[3], 'i', 'I') && is_letter(s[4], 'n', 'N') && is_letter(s[5], 'i', 'I')
        && is_letter(s[6], 't', 'T') && is_letter(s[7], 'y', 'Y')
}

/// Whether an exponent starts at `i` and ends with `s`: the letter `e`, an
/// optional sign and at least one digit.
pub open spec fn exponent_at(s: Seq<char>, i: int) -> bool {
    let c = if i + 1 < s.len() && is_sign(s[i + 1]) {
        i + 2
    } else {
        i + 1
    };
    &&& 0 <= i < s.len()
    &&& is_letter(s[i], 'e', 'E')
    &&& c < skip_digits(s, c)
    &&& skip_digits(s, c) == s.len()
}

/// Whether a number starts at `i` and ends with `s`: digits with at most
/// one point among them, at least one digit in all, and an optional
/// exponent.
pub open spec fn number_at(s: Seq<char>, i: int) -> bool {
    let a = skip_digits(s, i);
    let pointed = a < s.len() && s[a] == '.';
    let b = if pointed {
        skip_digits(s, a + 1)
    } else {
        a
    };
    let digits = if pointed {
        b - i - 1
    } else {
        b - i
    };
    digits > 0 && (b == s.len() || exponent_at(s, b))
}

/// The literals of real numbers: an optional sign, and then a number or one
/// of the special words. Every such literal is one that `f64::from_str`
/// converts.
pub open spec fn real_literal(s: Seq<char>) -> bool {
    let i = sign_len(s);
    number_at(s, i) || special_word(s.skip(i))
}

/// The digits of `n` in decimal, without leading zeros.
pub open spec fn decimal(n: nat) -> Seq<char>
    decreases n,
{
    if n < 10 {
        seq![digit_char(n)]
    } else {
        decimal(n / 10).push(digit_char(n % 10))
    }
}

/// The decimal digit for `d`.
pub open spec fn digit_char(d: nat) -> char {
    if d == 0 {
        '0'
    } else if d == 1 {
        '1'
    } else if d == 2 {
        '2'
    } else if d == 3 {
        '3'
    } else if d == 4 {
        '4'
    } else if d == 5 {
        '5'
    } else if d == 6 {
        '6'
    } else if d == 7 {
        '7'
    } else if d == 8 {
        '8'
    } else {
        '9'
    }
}

/// The name of an entry of a table: `base`, the row in round brackets, and
/// before the closing bracket `rest`, which is empty or names a column.
pub open spec fn entry_name(base: Seq<char>, row: nat, rest: Seq<char>) -> Seq<char> {
    base + "("@ + decimal(row) + rest + ")"@
}

/// More digits do not make a number smaller.
pub proof fn lemma_decimal_value_grows(s: Seq<char>, k: int)
    requires
        all_digits(s),
        0 <= k <= s.len(),
    ensures
        0 <= decimal_value(s.take(k)) <= decimal_value(s),
    decreases s.len() - k,
{
    if k == s.len() {
        assert(s.take(k) == s);
        lemma_decimal_value_nonnegative(s);
    } else {
        lemma_decimal_value_grows(s, k + 1);
        let t = s.take(k + 1);
        assert(t.drop_last() == s.take(k));
        assert(is_digit(s[k]));
        assert(t.last() == s[k]);
        lemma_decimal_value_nonnegative(s.take(k));
    }
}

/// Digits stand for no negative number.
proof fn lemma_decimal_value_nonnegative(s: Seq<char>)
    requires
        all_digits(s),
    ensures
        0 <= decimal_value(s),
    decreases s.len(),
{
    if s.len() > 0 {
        assert(is_digit(s[s.len() - 1]));
        lemma_decimal_value_nonnegative(s.drop_last());
    }
}

/// The integer that `text` denotes, if it denotes one.
pub fn decode_integer(text: &str) -> (r: Option<i32>)
    ensures
        r == integer_of(text@),
{
    let v = to_chars(text);
    let n = v.len();
    if n == 0 {
        return None;
    }
    let negative = v[0] == '-';
    let start: usize = if v[0] == '-' || v[0] == '+' {
        1
    } else {
        0
    };
    let ghost digits = v@.skip(start as int);
    let mut acc: i64 = 0;
    let mut i: usize = start;
    while i < n
        invariant
            start <= i <= n,
            n == v.len(),
            v@ == text@,
            start == sign_len(v@),
            digits == v@.skip(start as int),
            0 <= acc <= 2147483648,
            acc == decimal_value(digits.take(i - start)),
            all_digits(digits.take(i - start)),
        decreases n - i,
    {
        let c = v[i];
        if !('0' <= c && c <= '9') {
            assert(!is_digit(digits[i - start]));
            return None;
        }
        let d: i64 = digit_of(c) as i64;
        proof {
            let t = digits.take(i - start + 1);
            assert(t.drop_last() == digits.take(i - start));
            assert(t.last() == c);
            assert forall|j: int| 0 <= j < t.len() implies is_digit(#[trigger] t[j]) by {
                if j < t.len() - 1 {
                    assert(t[j] == digits.take(i - start)[j]);
                }
            }
        }
        acc = acc * 10 + d;
        i += 1;
        if acc > 2147483648 {
            proof {
                if all_digits(digits) {
                    lemma_decimal_value_grows(digits, i - start);
                }
            }
            return None;
        }
    }
    assert(digits.take(i - start) == digits);
    if i == start {
        None
    } else if negative {
        Some((-acc) as i32)
    } else if acc > 2147483647 {
        None
    } else {
        Some(acc as i32)
    }
}

/// The number that the decimal digit `c` stands for.
fn digit_of(c: char) -> (d: u8)
    requires
        is_digit(c),
    ensures
        d == digit_value(c),
        d <= 9,
{
    (c as u32 - '0' as u32) as u8
}

/// The first position at or after `from` that holds no decimal digit.
fn skip_decimal_digits(s: &[char], from: usize) -> (r: usize)
    requires
        from <= s.len(),
    ensures
        r == skip_digits(s@, from as int),
        from <= r <= s.len(),
{
    let mut i = from;
    while i < s.len() && '0' <= s[i] && s[i] <= '9'
        invariant
            from <= i <= s.len(),
            skip_digits(s@, i as int) == skip_digits(s@, from as int),
        decreases s.len() - i,
    {
        i += 1;
    }
    i
}

/// Whether `c` is the letter `lower`, in either case.
fn letter(c: char, lower: char, upper: char) -> (b: bool)
    ensures
        b == is_letter(c, lower, upper),
{
    c == lower || c == upper
}

/// Whether `text` is the literal of a real number.
pub fn is_real_literal(text: &str) -> (b: bool)
    ensures
        b == real_literal(text@),
{
    let v = to_chars(text);
    let s = v.as_slice();
    let n = s.len();
    let i: usize = if n > 0 && (s[0] == '+' || s[0] == '-') {
        1
    } else {
        0
    };
    let m = n - i;
    let ghost rest = s@.skip(i as int);
    if m == 3 && letter(s[i], 'i', 'I') && letter(s[i + 1], 'n', 'N') && letter(
        s[i + 2],
        'f',
        'F',
    ) {
        assert(special_word(rest));
        return true;
    }
    if m == 3 && letter(s[i], 'n', 'N') && letter(s[i + 1], 'a', 'A') && letter(
        s[i + 2],
        'n',
        'N',
    ) {
        assert(special_word(rest));
        return true;
    }
    if m == 8 && letter(s[i], 'i', 'I') && letter(s[i + 1], 'n', 'N') && letter(
        s[i + 2],
        'f',
        'F',
    ) && letter(s[i + 3], 'i', 'I') && letter(s[i + 4], 'n', 'N') && letter(s[i + 5], 'i', 'I')
        && letter(s[i + 6], 't', 'T') && letter(s[i + 7], 'y', 'Y') {
        assert(special_word(rest));
        return true;
    }
    assert(!special_word(rest));
    let a = skip_decimal_digits(s, i);
    let pointed = a < n && s[a] == '.';
    let b = if pointed {
        skip_decimal_digits(s, a + 1)
    } else {
        a
    };
    let digits = if pointed {
        b - i - 1
    } else {
        b - i
    };
    if digits == 0 {
        return false;
    }
    if b == n {
        return true;
    }
    if !letter(s[b], 'e', 'E') {
        return false;
    }
    let c = if b + 1 < n && (s[b + 1] == '+' || s[b + 1] == '-') {
        b + 2
    } else {
        b + 1
    };
    let d = skip_decimal_digits(s, c);
    c < d && d == n
}

/// A real number, kept as the literal that was read. Turning the digits
/// into a binary floating point value is left to the caller; the literal
/// is always one that this conversion accepts.
#[derive(Debug)]
pub struct Real {
    text: String,
}

impl Real {
    #[verifier::type_invariant]
    spec fn inv(self) -> bool {
        real_literal(self.text@)
    }

    /// The literal.
    pub closed spec fn view(&self) -> Seq<char> {
        self.text@
    }

    /// The real number that `text` denotes, if it denotes one.
    pub fn new(text: &str) -> (r: Option<Real>)
        ensures
            r is Some <==> real_literal(text@),
            r is Some ==> r->0@ == text@,
    {
        if is_real_literal(text) {
            Some(Real { text: String::from_str(text) })
        } else {
            None
        }
    }

    /// The literal.
    pub fn as_str(&self) -> (s: &str)
        ensures
            s@ == self@,
            real_literal(s@),
    {
        proof {
            use_type_invariant(self);
        }
        self.text.as_str()
    }
}

impl Clone for Real {
    fn clone(&self) -> (r: Real)
        ensures
            r@ == self@,
    {
        proof {
            use_type_invariant(self);
        }
        Real { text: self.text.clone() }
    }
}

/// A kind of number that a field can hold.
pub trait Field: Sized {
    /// Whether `text` denotes a number of this kind.
    spec fn accepts(text: Seq<char>) -> bool;

    /// Whether `value` is the number that `text` denotes.
    spec fn denotes(text: Seq<char>, value: Self) -> bool;

    /// The number that `text` denotes, if it denotes one.
    fn decode(text: &str) -> (r: Option<Self>)
        ensures
            r is Some <==> Self::accepts(text@),
            r is Some ==> Self::denotes(text@, r->0),
    ;
}

impl Field for i32 {
    open spec fn accepts(text: Seq<char>) -> bool {
        integer_of(text) is Some
    }

    open spec fn denotes(text: Seq<char>, value: i32) -> bool {
        integer_of(text) == Some(value)
    }

    fn decode(text: &str) -> (r: Option<i32>) {
        decode_integer(text)
    }
}

impl Field for Real {
    open spec fn accepts(text: Seq<char>) -> bool {
        real_literal(text)
    }

    open spec fn denotes(text: Seq<char>, value: Real) -> bool {
        value@ == text
    }

    fn decode(text: &str) -> (r: Option<Real>) {
        Real::new(text)
    }
}

/// What becomes of a field that should hold a number: nothing where it
/// holds one, and else the fault to report under the entry's name.
pub open spec fn field_fault(text: Option<Seq<char>>, accepted: bool, name: Seq<char>) -> Option<
    Fault,
> {
    match text {
        None => Some(Fault::MissingEntry(name)),
        Some(t) => if accepted {
            None
        } else {
            Some(Fault::ConversionError(t))
        },
    }
}

/// What becomes of field `k` of `line` where it should hold an integer.
pub open spec fn integer_fault(line: Seq<char>, k: nat, name: Seq<char>) -> Option<Fault> {
    let text = field(line, k);
    field_fault(text, text is Some && integer_of(text->0) is Some, name)
}

/// What becomes of field `k` of `line` where it should hold a real number.
pub open spec fn real_fault(line: Seq<char>, k: nat, name: Seq<char>) -> Option<Fault> {
    let text = field(line, k);
    field_fault(text, text is Some && real_literal(text->0), name)
}

/// The integer in field `k` of `line`.
pub open spec fn integer_at(line: Seq<char>, k: nat) -> i32 {
    integer_of(field(line, k)->0)->0
}

/// The literal of the real number in field `k` of `line`.
pub open spec fn real_at(line: Seq<char>, k: nat) -> Seq<char> {
    field(line, k)->0
}

/// Decodes the field of the entry `name`. A field that is not there is a
/// missing entry; one that is no number of the kind asked for is a
/// conversion error that holds the field.
pub fn parse<T: Field>(name: &str, text: Option<&str>) -> (r: Result<T, ParseError>)
    ensures
        match text {
            None => r is Err && r->Err_0@ == Fault::MissingEntry(name@),
            Some(t) => if T::accepts(t@) {
                r is Ok && T::denotes(t@, r->Ok_0)
            } else {
                r is Err && r->Err_0@ == Fault::ConversionError(t@)
            },
        },
{
    match text {
        None => Err(ParseError::MissingEntry(String::from_str(name))),
        Some(t) => match T::decode(t) {
            Some(value) => Ok(value),
            None => Err(ParseError::ConversionError(String::from_str(t))),
        },
    }
}

/// Puts the decimal digits of `n` at the end of `s`.
pub fn push_decimal(s: &mut String, n: u32)
    ensures
        final(s)@ == old(s)@ + decimal(n as nat),
    decreases n,
{
    if n >= 10 {
        push_decimal(s, n / 10);
    }
    let digit = digit_for((n % 10) as u8);
    let one = [digit];
    append_chars(s, one.as_slice());
    assert(one@ == seq![digit]);
    assert(final(s)@ == old(s)@ + decimal(n as nat)) by {
        if n >= 10 {
            assert(decimal(n as nat) == decimal((n / 10) as nat).push(digit));
        }
    }
}

/// The decimal digit for `d`.
fn digit_for(d: u8) -> (c: char)
    requires
        d <= 9,
    ensures
        c == digit_char(d as nat),
{
    if d == 0 {
        '0'
    } else if d == 1 {
        '1'
    } else if d == 2 {
        '2'
    } else if d == 3 {
        '3'
    } else if d == 4 {
        '4'
    } else if d == 5 {
        '5'
    } else if d == 6 {
        '6'
    } else if d == 7 {
        '7'
    } else if d == 8 {
        '8'
    } else {
        '9'
    }
}

/// Decodes the field of an entry of a table, which is named by `base`, the
/// row and `rest` as `entry_name` says.
pub fn parse_entry<T: Field>(base: &str, row: u32, rest: &str, text: Option<&str>) -> (r: Result<
    T,
    ParseError,
>)
    ensures
        match text {
            None => r is Err && r->Err_0@ == Fault::MissingEntry(entry_name(base@, row as nat, rest@)),
            Some(t) => if T::accepts(t@) {
                r is Ok && T::denotes(t@, r->Ok_0)
            } else {
                r is Err && r->Err_0@ == Fault::ConversionError(t@)
            },
        },
{
    match text {
        None => {
            let mut name = String::from_str(base);
            name.append("(");
            push_decimal(&mut name, row);
            name.append(rest);
            name.append(")");
            Err(ParseError::MissingEntry(name))
        },
        Some(_) => parse::<T>(base, text),
    }
}

} // verus!
