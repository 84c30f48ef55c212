//! Amounts of money as exact decimals.
//!
//! An amount is held as a signed count of hundredths of a unit, the
//! precision at which amounts are displayed. This module reads an amount
//! from a table cell and renders one with a magnitude suffix.

use crate::text::{chars_of, push_char};
use vstd::prelude::*;

verus! {

/// The greatest count of hundredths that an amount can hold.
pub open spec fn amount_limit() -> int {
    0x7fff_ffff_ffff_ffff
}

/// Whether `c` is one of the ten decimal digits.
pub open spec fn is_digit(c: char) -> bool {
    48 <= c as u32 <= 57
}

/// The number that a decimal digit stands for.
pub open spec fn digit_value(c: char) -> int {
    c as u32 - 48
}

/// Whether every character of `s` is a decimal digit.
pub open spec fn all_digits(s: Seq<char>) -> bool {
    forall|i: int| 0 <= i < s.len() ==> is_digit(#[trigger] s[i])
}

/// The number that a run of decimal digits stands for; 0 for no digit.
pub open spec fn digits_value(s: Seq<char>) -> int
    decreases s.len(),
{
    if s.len() == 0 {
        0
    } else {
        digits_value(s.drop_last()) * 10 + digit_value(s.last())
    }
}

/// Ten to the power `n`.
pub open spec fn pow10(n: nat) -> int
    decreases n,
{
    if n == 0 {
        1
    } else {
        10 * pow10((n - 1) as nat)
    }
}

/// The position of the first `a` or `b` in `s`, or the length of `s`
/// where it holds neither.
pub open spec fn mark_position(s: Seq<char>, a: char, b: char) -> int
    decreases s.len(),
{
    if s.len() == 0 {
        0
    } else {
        let before = mark_position(s.drop_last(), a, b);
        if before < s.len() - 1 {
            before
        } else if s.last() == a || s.last() == b {
            s.len() - 1
        } else {
            s.len() as int
        }
    }
}

/// The number written by `digits` with the decimal point after the first
/// `places` of them, rounded to a whole number with a half rounded up:
/// the digits before the point (followed by zeros where the point lies
/// beyond the last digit, none where it lies before the first), and one
/// more where the digit after the point is 5 or above.
pub open spec fn scaled(digits: Seq<char>, places: int) -> int {
    let whole = if places <= 0 {
        0
    } else if places >= digits.len() {
        digits_value(digits) * pow10((places - digits.len()) as nat)
    } else {
        digits_value(digits.take(places))
    };
    let carry: int = if 0 <= places < digits.len() && digit_value(digits[places]) >= 5 {
        1
    } else {
        0
    };
    whole + carry
}

/// Whether a text starts with a sign.
pub open spec fn has_sign(text: Seq<char>) -> bool {
    text.len() > 0 && (text[0] == '-' || text[0] == '+')
}

/// A text without its sign.
pub open spec fn unsigned_part(text: Seq<char>) -> Seq<char> {
    if has_sign(text) {
        text.drop_first()
    } else {
        text
    }
}

/// Whether a cell holds an exponent mark, `e` or `E`.
pub open spec fn has_exponent(cell: Seq<char>) -> bool {
    mark_position(cell, 'e', 'E') < cell.len()
}

/// The part of a cell before its exponent mark.
pub open spec fn mantissa(cell: Seq<char>) -> Seq<char> {
    cell.take(mark_position(cell, 'e', 'E'))
}

/// The part of a cell after its exponent mark; empty where it has none.
pub open spec fn exponent_text(cell: Seq<char>) -> Seq<char> {
    if has_exponent(cell) {
        cell.skip(mark_position(cell, 'e', 'E') + 1)
    } else {
        Seq::empty()
    }
}

/// The digits before the point of an unsigned decimal.
pub open spec fn whole_part(body: Seq<char>) -> Seq<char> {
    body.take(mark_position(body, '.', '.'))
}

/// The digits after the point of an unsigned decimal; none where it has
/// no point.
pub open spec fn fraction_part(body: Seq<char>) -> Seq<char> {
    if mark_position(body, '.', '.') < body.len() {
        body.skip(mark_position(body, '.', '.') + 1)
    } else {
        Seq::empty()
    }
}

/// The power of ten that a cell's exponent stands for; 0 without one.
pub open spec fn exponent_value(cell: Seq<char>) -> int {
    let text = exponent_text(cell);
    if text.len() > 0 && text[0] == '-' {
        -digits_value(unsigned_part(text))
    } else {
        digits_value(unsigned_part(text))
    }
}

/// Whether a cell is a decimal number: an optional sign, digits, and
/// optionally a point and more digits, with a digit on at least one side
/// of the point; then optionally an exponent: `e` or `E`, an optional
/// sign and at least one digit.
pub open spec fn is_decimal(cell: Seq<char>) -> bool {
    let body = unsigned_part(mantissa(cell));
    &&& all_digits(whole_part(body))
    &&& all_digits(fraction_part(body))
    &&& whole_part(body).len() + fraction_part(body).len() > 0
    &&& has_exponent(cell) ==> {
        &&& unsigned_part(exponent_text(cell)).len() > 0
        &&& all_digits(unsigned_part(exponent_text(cell)))
    }
}

/// The hundredths that a decimal cell stands for, before its sign,
/// rounded to the nearest hundredth with a half rounded up.
pub open spec fn decimal_magnitude(cell: Seq<char>) -> int {
    let body = unsigned_part(mantissa(cell));
    scaled(
        whole_part(body) + fraction_part(body),
        whole_part(body).len() + exponent_value(cell) + 2,
    )
}

/// The amount that a cell stands for, in hundredths: `None` where the
/// cell is not a decimal number or stands for more than an amount can
/// hold.
pub open spec fn cell_amount(cell: Seq<char>) -> Option<int> {
    if is_decimal(cell) && decimal_magnitude(cell) <= amount_limit() {
        if cell.len() > 0 && cell[0] == '-' {
            Some(-decimal_magnitude(cell))
        } else {
            Some(decimal_magnitude(cell))
        }
    } else {
        None
    }
}

proof fn lemma_mark_position(s: Seq<char>, a: char, b: char)
    ensures
        0 <= mark_position(s, a, b) <= s.len(),
        mark_position(s, a, b) < s.len() ==> s[mark_position(s, a, b)] == a || s[mark_position(
            s,
            a,
            b,
        )] == b,
        forall|j: int| 0 <= j < mark_position(s, a, b) ==> s[j] != a && s[j] != b,
    decreases s.len(),
{
    if s.len() > 0 {
        let rest = s.drop_last();
        lemma_mark_position(rest, a, b);
        assert forall|j: int| 0 <= j < mark_position(s, a, b) implies s[j] != a && s[j] != b by {
            if j < rest.len() {
                assert(rest[j] == s[j]);
            }
        }
        if mark_position(rest, a, b) < rest.len() {
            assert(rest[mark_position(rest, a, b)] == s[mark_position(rest, a, b)]);
        }
    }
}

/// A position that holds a mark, with no mark before it, is the mark's
/// position; so is the length where no position holds one.
proof fn lemma_mark_found(s: Seq<char>, a: char, b: char, k: int)
    requires
        0 <= k <= s.len(),
        forall|j: int| 0 <= j < k ==> s[j] != a && s[j] != b,
        k < s.len() ==> s[k] == a || s[k] == b,
    ensures
        mark_position(s, a, b) == k,
{
    lemma_mark_position(s, a, b);
    let p = mark_position(s, a, b);
    if p < k {
        assert(s[p] == a || s[p] == b);
    } else if p > k {
        assert(s[k] != a && s[k] != b);
    }
}

proof fn lemma_digits_value_bounds(s: Seq<char>)
    requires
        all_digits(s),
    ensures
        digits_value(s) >= 0,
        s.len() > 0 ==> digits_value(s) >= digits_value(s.drop_last()),
    decreases s.len(),
{
    if s.len() > 0 {
        assert(is_digit(s.last()));
        assert(all_digits(s.drop_last())) by {
            assert forall|i: int| 0 <= i < s.drop_last().len() implies is_digit(
                #[trigger] s.drop_last()[i],
            ) by {
                assert(s.drop_last()[i] == s[i]);
            }
        }
        lemma_digits_value_bounds(s.drop_last());
    }
}

proof fn lemma_pow10_grows(a: nat, b: nat)
    requires
        a <= b,
    ensures
        1 <= pow10(a) <= pow10(b),
    decreases b,
{
    if a < b {
        lemma_pow10_grows(a, (b - 1) as nat);
    } else if a > 0 {
        lemma_pow10_grows((a - 1) as nat, (b - 1) as nat);
    }
}

proof fn lemma_pow10_19()
    ensures
        pow10(19) == 10_000_000_000_000_000_000,
{
    assert(pow10(0) == 1);
    assert(pow10(1) == 10);
    assert(pow10(2) == 100);
    assert(pow10(3) == 1_000);
    assert(pow10(4) == 10_000);
    assert(pow10(5) == 100_000);
    assert(pow10(6) == 1_000_000);
    assert(pow10(7) == 10_000_000);
    assert(pow10(8) == 100_000_000);
    assert(pow10(9) == 1_000_000_000);
    assert(pow10(10) == 10_000_000_000);
    assert(pow10(11) == 100_000_000_000);
    assert(pow10(12) == 1_000_000_000_000);
    assert(pow10(13) == 10_000_000_000_000);
    assert(pow10(14) == 100_000_000_000_000);
    assert(pow10(15) == 1_000_000_000_000_000);
    assert(pow10(16) == 10_000_000_000_000_000);
    assert(pow10(17) == 100_000_000_000_000_000);
    assert(pow10(18) == 1_000_000_000_000_000_000);
}

/// The position of the first `a` or `b` from `from` up to `to`, or `to`.
fn mark_index(chars: &Vec<char>, from: usize, to: usize, a: char, b: char) -> (at: usize)
    requires
        from <= to <= chars.len(),
    ensures
        from <= at <= to,
        mark_position(chars@.subrange(from as int, to as int), a, b) == at - from,
{
    let ghost part = chars@.subrange(from as int, to as int);
    let mut i: usize = from;
    while i < to && chars[i] != a && chars[i] != b
        invariant
            from <= i <= to <= chars.len(),
            part == chars@.subrange(from as int, to as int),
            forall|j: int| 0 <= j < i - from ==> part[j] != a && part[j] != b,
        decreases to - i,
    {
        i += 1;
    }
    proof {
        lemma_mark_found(part, a, b, i - from);
    }
    i
}

/// What reading a run of digits gave.
struct DigitRun {
    /// Whether every character was a digit.
    valid: bool,
    /// Whether the number exceeds the cap.
    over: bool,
    /// The number, where it does not exceed the cap.
    value: u128,
}

/// Reads the characters from `from` up to `to` as a decimal number no
/// greater than `cap`.
fn read_digits(chars: &Vec<char>, from: usize, to: usize, cap: u128) -> (run: DigitRun)
    requires
        from <= to <= chars.len(),
        cap <= 1_000_000_000_000_000_000_000_000_000_000_000_000,
    ensures
        run.valid == all_digits(chars@.subrange(from as int, to as int)),
        run.valid && !run.over ==> run.value == digits_value(
            chars@.subrange(from as int, to as int),
        ) && run.value <= cap,
        run.valid && run.over ==> digits_value(chars@.subrange(from as int, to as int)) > cap,
{
    let ghost run = chars@.subrange(from as int, to as int);
    let mut value: u128 = 0;
    let mut over = false;
    let mut i: usize = from;
    while i < to
        invariant
            from <= i <= to <= chars.len(),
            cap <= 1_000_000_000_000_000_000_000_000_000_000_000_000,
            run == chars@.subrange(from as int, to as int),
            all_digits(run.take(i - from)),
            !over ==> value == digits_value(run.take(i - from)) && value <= cap,
            over ==> digits_value(run.take(i - from)) > cap,
        decreases to - i,
    {
        let c = chars[i];
        let code: u32 = c as u32;
        let ghost next = run.take(i - from + 1);
        proof {
            assert(next.drop_last() == run.take(i - from));
            assert(next.last() == c);
        }
        if code < 48 || code > 57 {
            assert(run[i - from] == c);
            assert(!is_digit(run[i - from]));
            return DigitRun { valid: false, over: false, value: 0 };
        }
        proof {
            assert forall|j: int| 0 <= j < next.len() implies is_digit(#[trigger] next[j]) by {
                if j < next.len() - 1 {
                    assert(next[j] == run.take(i - from)[j]);
                }
            }
            lemma_digits_value_bounds(next);
        }
        if !over {
            let d: u128 = (code - 48) as u128;
            value = value * 10 + d;
            if value > cap {
                over = true;
            }
        }
        i += 1;
    }
    assert(run.take(to - from) == run);
    DigitRun { valid: true, over, value }
}

/// Computes `scaled` for digits and a number of places, as far as an
/// amount can hold the result.
fn scale_digits(digits: &Vec<char>, places: i128) -> (r: Option<u64>)
    requires
        all_digits(digits@),
        -0x2000_0000_0000_0000_0000_0000_0000 <= places <= 0x2000_0000_0000_0000_0000_0000_0000,
    ensures
        match r {
            Some(v) => scaled(digits@, places as int) == v && v <= amount_limit(),
            None => scaled(digits@, places as int) > amount_limit(),
        },
{
    let n = digits.len();
    if places <= 0 {
        if places == 0 && n > 0 && digits[0] as u32 >= 53 {
            assert(is_digit(digits@[0]));
            return Some(1);
        }
        if places == 0 && n > 0 {
            assert(is_digit(digits@[0]));
        }
        return Some(0);
    }
    if places >= n as i128 {
        assert(digits@.subrange(0, n as int) == digits@);
        let run = read_digits(digits, 0, n, 0x7fff_ffff_ffff_ffff);
        let ghost number = digits_value(digits@);
        let ghost zeros = (places - n) as nat;
        proof {
            lemma_digits_value_bounds(digits@);
            lemma_pow10_grows(0, zeros);
        }
        if run.over {
            assert(number * pow10(zeros) >= number) by (nonlinear_arith)
                requires
                    number >= 0,
                    pow10(zeros) >= 1,
            ;
            return None;
        }
        let mut value: u128 = run.value;
        if value == 0 {
            assert(number * pow10(zeros) == 0) by (nonlinear_arith)
                requires
                    number == 0,
            ;
            return Some(0);
        }
        let mut added: i128 = 0;
        let more: i128 = places - n as i128;
        assert(number * pow10(0) == number) by (nonlinear_arith)
            requires
                pow10(0) == 1,
        ;
        while added < more
            invariant
                0 <= added <= more,
                more == zeros,
                number >= 1,
                scaled(digits@, places as int) == number * pow10(zeros),
                value == number * pow10(added as nat),
                value <= 0x7fff_ffff_ffff_ffff,
            decreases more - added,
        {
            let ghost next = (added + 1) as nat;
            proof {
                assert(number * pow10(next) == number * pow10(added as nat) * 10)
                    by (nonlinear_arith)
                    requires
                        pow10(next) == 10 * pow10(added as nat),
                ;
            }
            value = value * 10;
            if value > 0x7fff_ffff_ffff_ffff {
                proof {
                    lemma_pow10_grows(next, zeros);
                    assert(number * pow10(zeros) >= number * pow10(next)) by (nonlinear_arith)
                        requires
                            number >= 1,
                            pow10(zeros) >= pow10(next),
                    ;
                }
                return None;
            }
            added += 1;
        }
        return Some(value as u64);
    }
    let cut: usize = places as usize;
    assert(digits@.subrange(0, cut as int) == digits@.take(cut as int));
    let run = read_digits(digits, 0, cut, 0x7fff_ffff_ffff_ffff);
    assert(all_digits(digits@.take(cut as int))) by {
        assert forall|j: int| 0 <= j < cut implies is_digit(#[trigger] digits@.take(cut as int)[j]) by {
            assert(is_digit(digits@[j]));
        }
    }
    assert(is_digit(digits@[cut as int]));
    if run.over {
        return None;
    }
    let carry: u128 = if digits[cut] as u32 >= 53 {
        1
    } else {
        0
    };
    let total: u128 = run.value + carry;
    if total > 0x7fff_ffff_ffff_ffff {
        None
    } else {
        Some(total as u64)
    }
}

/// The amount that the parts of a cell stand for: the sign, the digits
/// before and after the point, and the digits and the sign of the
/// exponent, if there is one.
pub open spec fn assembled(
    negative: bool,
    whole: Seq<char>,
    fraction: Seq<char>,
    has_exponent: bool,
    exponent: Seq<char>,
    negative_exponent: bool,
) -> Option<int> {
    let power = if negative_exponent {
        -digits_value(exponent)
    } else {
        digits_value(exponent)
    };
    let magnitude = scaled(whole + fraction, whole.len() + power + 2);
    if all_digits(whole) && all_digits(fraction) && whole.len() + fraction.len() > 0 && (
    has_exponent ==> exponent.len() > 0 && all_digits(exponent)) && magnitude <= amount_limit() {
        if negative {
            Some(-magnitude)
        } else {
            Some(magnitude)
        }
    } else {
        None
    }
}

/// A cell's amount is the one assembled from its parts, which lie in the
/// cell where its exponent mark, its signs and its first point put them.
proof fn lemma_cell_layout(
    cell: Seq<char>,
    mark: int,
    start: int,
    dot: int,
    frac_start: int,
    exp_start: int,
)
    requires
        0 <= mark <= cell.len(),
        mark == mark_position(cell, 'e', 'E'),
        start == if mark > 0 && (cell[0] == '-' || cell[0] == '+') {
            1int
        } else {
            0int
        },
        start <= dot <= mark,
        mark_position(cell.subrange(start, mark), '.', '.') == dot - start,
        frac_start == if dot < mark {
            dot + 1
        } else {
            mark
        },
        exp_start == if mark + 1 < cell.len() && (cell[mark + 1] == '-' || cell[mark + 1] == '+') {
            mark + 2
        } else if mark < cell.len() {
            mark + 1
        } else {
            mark
        },
    ensures
        cell_amount(cell) == assembled(
            cell.len() > 0 && cell[0] == '-',
            cell.subrange(start, dot),
            cell.subrange(frac_start, mark),
            mark < cell.len(),
            cell.subrange(exp_start, cell.len() as int),
            mark + 1 < cell.len() && cell[mark + 1] == '-',
        ),
{
    let body = unsigned_part(mantissa(cell));
    assert(body =~= cell.subrange(start, mark));
    assert(whole_part(body) =~= cell.subrange(start, dot));
    assert(fraction_part(body) =~= cell.subrange(frac_start, mark));
    assert(unsigned_part(exponent_text(cell)) =~= cell.subrange(exp_start, cell.len() as int));
    assert(exponent_text(cell).len() > 0 && exponent_text(cell)[0] == '-' <==> mark + 1
        < cell.len() && cell[mark + 1] == '-');
}

/// The digits from `a` up to `b` followed by those from `c` up to `d`.
fn join_digits(chars: &Vec<char>, a: usize, b: usize, c: usize, d: usize) -> (digits: Vec<char>)
    requires
        a <= b <= chars.len(),
        c <= d <= chars.len(),
    ensures
        digits@ == chars@.subrange(a as int, b as int) + chars@.subrange(c as int, d as int),
{
    let mut digits: Vec<char> = Vec::new();
    let mut i: usize = a;
    while i < b
        invariant
            a <= i <= b <= chars.len(),
            digits@ == chars@.subrange(a as int, i as int),
        decreases b - i,
    {
        digits.push(chars[i]);
        assert(chars@.subrange(a as int, i + 1) == chars@.subrange(a as int, i as int).push(
            chars@[i as int],
        ));
        i += 1;
    }
    let mut k: usize = c;
    while k < d
        invariant
            c <= k <= d <= chars.len(),
            digits@ == chars@.subrange(a as int, b as int) + chars@.subrange(c as int, k as int),
        decreases d - k,
    {
        digits.push(chars[k]);
        assert(chars@.subrange(c as int, k + 1) == chars@.subrange(c as int, k as int).push(
            chars@[k as int],
        ));
        assert(chars@.subrange(a as int, b as int) + chars@.subrange(c as int, k + 1) =~= (
        chars@.subrange(a as int, b as int) + chars@.subrange(c as int, k as int)).push(
            chars@[k as int],
        ));
        k += 1;
    }
    assert(chars@.subrange(a as int, b as int) + chars@.subrange(c as int, c as int)
        =~= chars@.subrange(a as int, b as int));
    digits
}

/// Digits joined from two runs of digits are digits.
proof fn lemma_joined_digits(a: Seq<char>, b: Seq<char>)
    requires
        all_digits(a),
        all_digits(b),
    ensures
        all_digits(a + b),
{
    assert forall|i: int| 0 <= i < (a + b).len() implies is_digit(#[trigger] (a + b)[i]) by {
        if i < a.len() {
            assert(is_digit(a[i]));
        } else {
            assert(is_digit(b[i - a.len()]));
        }
    }
}

/// The magnitude of a number whose exponent is beyond every length:
/// nothing where the exponent is negative; where it is positive, nothing
/// for the digits of zero and more than an amount can hold for any other.
fn scale_far(digits: &Vec<char>, negative: bool, places: Ghost<int>) -> (r: Option<u64>)
    requires
        all_digits(digits@),
        negative ==> places@ < 0,
        !negative ==> places@ >= digits.len() + 19,
    ensures
        match r {
            Some(v) => scaled(digits@, places@) == v && v <= amount_limit(),
            None => scaled(digits@, places@) > amount_limit(),
        },
{
    if negative {
        return Some(0);
    }
    let n = digits.len();
    assert(digits@.subrange(0, n as int) == digits@);
    let run = read_digits(digits, 0, n, 0x7fff_ffff_ffff_ffff);
    let ghost number = digits_value(digits@);
    let ghost zeros = (places@ - n) as nat;
    proof {
        lemma_digits_value_bounds(digits@);
        lemma_pow10_grows(19, zeros);
        lemma_pow10_19();
    }
    if !run.over && run.value == 0 {
        assert(number * pow10(zeros) == 0) by (nonlinear_arith)
            requires
                number == 0,
        ;
        Some(0)
    } else {
        assert(number * pow10(zeros) >= pow10(zeros)) by (nonlinear_arith)
            requires
                number >= 1,
                pow10(zeros) >= 1,
        ;
        None
    }
}

/// Reads the amount that the parts of a cell stand for.
fn assemble(
    chars: &Vec<char>,
    start: usize,
    dot: usize,
    frac_start: usize,
    mark: usize,
    exp_start: usize,
    negative: bool,
    negative_exponent: bool,
) -> (r: Option<i64>)
    requires
        start <= dot <= mark <= chars.len(),
        dot <= frac_start <= mark,
        mark <= exp_start <= chars.len(),
    ensures
        match r {
            Some(v) => assembled(
                negative,
                chars@.subrange(start as int, dot as int),
                chars@.subrange(frac_start as int, mark as int),
                mark < chars.len(),
                chars@.subrange(exp_start as int, chars.len() as int),
                negative_exponent,
            ) == Some(v as int),
            None => assembled(
                negative,
                chars@.subrange(start as int, dot as int),
                chars@.subrange(frac_start as int, mark as int),
                mark < chars.len(),
                chars@.subrange(exp_start as int, chars.len() as int),
                negative_exponent,
            ) is None,
        },
{
    let n = chars.len();
    let whole = read_digits(chars, start, dot, 0);
    if !whole.valid {
        return None;
    }
    let fraction = read_digits(chars, frac_start, mark, 0);
    if !fraction.valid {
        return None;
    }
    if (dot - start) + (mark - frac_start) == 0 {
        return None;
    }
    let exponent = read_digits(chars, exp_start, n, 1_000_000_000_000_000_000_000_000_000_000);
    if mark < n && (!exponent.valid || exp_start == n) {
        return None;
    }
    let digits = join_digits(chars, start, dot, frac_start, mark);
    let ghost power = if negative_exponent {
        -digits_value(chars@.subrange(exp_start as int, n as int))
    } else {
        digits_value(chars@.subrange(exp_start as int, n as int))
    };
    proof {
        lemma_joined_digits(
            chars@.subrange(start as int, dot as int),
            chars@.subrange(frac_start as int, mark as int),
        );
        if !exponent.valid {
            // Only a cell without an exponent gets here: it has no
            // exponent digits.
            assert(chars@.subrange(exp_start as int, n as int).len() == 0);
        }
    }
    let magnitude = if exponent.valid && exponent.over {
        scale_far(&digits, negative_exponent, Ghost((dot - start) + power + 2))
    } else {
        let size: i128 = if exponent.valid {
            exponent.value as i128
        } else {
            0
        };
        let shift: i128 = if negative_exponent {
            -size
        } else {
            size
        };
        scale_digits(&digits, (dot - start) as i128 + shift + 2)
    };
    match magnitude {
        Some(m) => {
            if negative {
                Some(-(m as i64))
            } else {
                Some(m as i64)
            }
        },
        None => None,
    }
}

/// Reads the amount that a cell stands for.
pub fn parse_amount(cell: &str) -> (r: Option<i64>)
    ensures
        match r {
            Some(v) => cell_amount(cell@) == Some(v as int),
            None => cell_amount(cell@) is None,
        },
{
    let chars = chars_of(cell);
    let n = chars.len();
    assert(chars@.subrange(0, n as int) == chars@);
    let mark = mark_index(&chars, 0, n, 'e', 'E');
    let negative = n > 0 && chars[0] == '-';
    let start: usize = if mark > 0 && (chars[0] == '-' || chars[0] == '+') {
        1
    } else {
        0
    };
    let dot = mark_index(&chars, start, mark, '.', '.');
    let frac_start: usize = if dot < mark {
        dot + 1
    } else {
        mark
    };
    let signed_exponent = mark < n && mark + 1 < n && (chars[mark + 1] == '-' || chars[mark + 1]
        == '+');
    let negative_exponent = mark < n && mark + 1 < n && chars[mark + 1] == '-';
    let exp_start: usize = if signed_exponent {
        mark + 2
    } else if mark < n {
        mark + 1
    } else {
        mark
    };
    proof {
        lemma_cell_layout(
            cell@,
            mark as int,
            start as int,
            dot as int,
            frac_start as int,
            exp_start as int,
        );
    }
    assemble(&chars, start, dot, frac_start, mark, exp_start, negative, negative_exponent)
}

/// The character of a decimal digit.
pub open spec fn digit_char(d: int) -> char {
    if d == 0 {
        '0'
    } else if d == 1 {
        '1'
    } else if d == 2 {
        '2'
    } else if d == 3 {
        '3'
    } else if d == 4 {
        '4'
    } else if d == 5 {
        '5'
    } else if d == 6 {
        '6'
    } else if d == 7 {
        '7'
    } else if d == 8 {
        '8'
    } else {
        '9'
    }
}

/// A natural number in decimal notation, without leading zeros.
pub open spec fn decimal(n: nat) -> Seq<char>
    decreases n,
{
    if n < 10 {
        seq![digit_char(n as int)]
    } else {
        decimal(n / 10).push(digit_char((n % 10) as int))
    }
}

/// A count of hundredths in decimal notation with two decimal places.
pub open spec fn fixed2(q: int) -> Seq<char> {
    let m = if q < 0 {
        -q
    } else {
        q
    };
    let sign = if q < 0 {
        seq!['-']
    } else {
        Seq::<char>::empty()
    };
    sign + decimal((m / 100) as nat) + seq!['.', digit_char(m / 10 % 10), digit_char(m % 10)]
}

/// `v / d` rounded to the nearest integer, a half rounded up.
pub open spec fn rounded_div(v: int, d: int) -> int {
    (v + d / 2) / d
}

/// An amount with two decimal places and the suffix of its magnitude:
/// in units of 10^12 from 10^12 on, of 10^9 from 10^9 on, of 10^6 from
/// 10^6 on, and as it is below that. `v` is in hundredths.
pub open spec fn magnitude_text(v: int) -> Seq<char> {
    if v >= 100_000_000_000_000 {
        fixed2(rounded_div(v, 1_000_000_000_000)) + " bln USD"@
    } else if v >= 100_000_000_000 {
        fixed2(rounded_div(v, 1_000_000_000)) + " mld USD"@
    } else if v >= 100_000_000 {
        fixed2(rounded_div(v, 1_000_000)) + " mln USD"@
    } else {
        fixed2(v) + " USD"@
    }
}

fn digit_of(d: u64) -> (c: char)
    requires
        d <= 9,
    ensures
        c == digit_char(d as int),
{
    if d == 0 {
        '0'
    } else if d == 1 {
        '1'
    } else if d == 2 {
        '2'
    } else if d == 3 {
        '3'
    } else if d == 4 {
        '4'
    } else if d == 5 {
        '5'
    } else if d == 6 {
        '6'
    } else if d == 7 {
        '7'
    } else if d == 8 {
        '8'
    } else {
        '9'
    }
}

/// Appends `n` in decimal notation.
pub fn push_decimal(s: &mut String, n: u64)
    ensures
        final(s)@ == old(s)@ + decimal(n as nat),
    decreases n,
{
    if n >= 10 {
        push_decimal(s, n / 10);
    }
    push_char(s, digit_of(n % 10));
    assert(final(s)@ =~= old(s)@ + decimal(n as nat));
}

/// Appends a count of hundredths with two decimal places.
fn push_fixed2(s: &mut String, negative: bool, m: u64)
    ensures
        final(s)@ == old(s)@ + fixed2(
            if negative && m > 0 {
                -(m as int)
            } else {
                m as int
            },
        ),
{
    if negative && m > 0 {
        push_char(s, '-');
    }
    push_decimal(s, m / 100);
    push_char(s, '.');
    push_char(s, digit_of(m / 10 % 10));
    push_char(s, digit_of(m % 10));
    let ghost q = if negative && m > 0 {
        -(m as int)
    } else {
        m as int
    };
    assert(final(s)@ =~= old(s)@ + fixed2(q));
}

/// Renders an amount, given in hundredths, with two decimal places and
/// the suffix of its magnitude.
pub fn format_amount(value: i64) -> (text: String)
    ensures
        text@ == magnitude_text(value as int),
{
    let mut text = String::new();
    if value >= 100_000_000_000_000 {
        let v = value as u64;
        push_fixed2(&mut text, false, (v + 500_000_000_000) / 1_000_000_000_000);
        text.append(" bln USD");
    } else if value >= 100_000_000_000 {
        let v = value as u64;
        push_fixed2(&mut text, false, (v + 500_000_000) / 1_000_000_000);
        text.append(" mld USD");
    } else if value >= 100_000_000 {
        let v = value as u64;
        push_fixed2(&mut text, false, (v + 500_000) / 1_000_000);
        text.append(" mln USD");
    } else if value >= 0 {
        push_fixed2(&mut text, false, value as u64);
        text.append(" USD");
    } else {
        let m: u64 = (-(value as i128)) as u64;
        push_fixed2(&mut text, true, m);
        text.append(" USD");
    }
    assert(text@ =~= magnitude_text(value as int));
    text
}

} // verus!
