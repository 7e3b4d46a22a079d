//! Decimal numerals as text, and rounding them down to whole numbers.
//!
//! Coordinates travel through this crate as decimal text: an optional minus
//! sign, one or more digits, and optionally a point followed by one or more
//! digits. Any other text (the name of an infinity, say) is passed on as it
//! is.

use vstd::prelude::*;
use crate::text::chars_of;

verus! {

/// One of the ten digits `0` to `9`.
pub open spec fn is_digit(c: char) -> bool {
    '0' <= c <= '9'
}

/// The end of the stretch of digits that starts at `from`.
pub open spec fn digit_run_end(s: Seq<char>, from: int) -> int
    decreases s.len() - from,
{
    if 0 <= from < s.len() && is_digit(s[from]) {
        digit_run_end(s, from + 1)
    } else {
        from
    }
}

/// The text begins with a minus sign.
pub open spec fn negative(s: Seq<char>) -> bool {
    s.len() > 0 && s[0] == '-'
}

/// Where the digits before the point begin.
pub open spec fn whole_start(s: Seq<char>) -> int {
    if negative(s) {
        1
    } else {
        0
    }
}

/// Where the digits before the point end.
pub open spec fn whole_end(s: Seq<char>) -> int {
    digit_run_end(s, whole_start(s))
}

/// `s` is a decimal numeral.
pub open spec fn is_numeral(s: Seq<char>) -> bool {
    &&& whole_start(s) < whole_end(s)
    &&& whole_end(s) < s.len() ==> {
        &&& s[whole_end(s)] == '.'
        &&& whole_end(s) + 1 < s.len()
        &&& digit_run_end(s, whole_end(s) + 1) == s.len()
    }
}

/// The numeral has a digit other than zero behind its point.
pub open spec fn has_fraction(s: Seq<char>) -> bool {
    exists|i: int| whole_end(s) < i < s.len() && s[i] != '0'
}

/// The digit after `c`, for a digit below nine.
pub open spec fn next_digit(c: char) -> char {
    ((c as u8) + 1) as char
}

/// The digits of the number that is one more than the number written with
/// the digits `d`.
pub open spec fn succ_digits(d: Seq<char>) -> Seq<char>
    decreases d.len(),
{
    if d.len() == 0 {
        seq!['1']
    } else if d.last() == '9' {
        succ_digits(d.drop_last()).push('0')
    } else {
        d.drop_last().push(next_digit(d.last()))
    }
}

/// The number that the digits `d` write in base ten.
pub open spec fn digits_value(d: Seq<char>) -> nat
    decreases d.len(),
{
    if d.len() == 0 {
        0
    } else {
        (digits_value(d.drop_last()) * 10 + (d.last() as u8 - '0' as u8)) as nat
    }
}

/// The numeral rounded down to a whole number. A numeral without a
/// fraction loses its point and the zeros behind it; a positive one with a
/// fraction loses the fraction; a negative one with a fraction moves one
/// further from zero. Text that is no numeral stays as it is.
pub open spec fn floored(s: Seq<char>) -> Seq<char> {
    if !is_numeral(s) {
        s
    } else if negative(s) && has_fraction(s) {
        seq!['-'] + succ_digits(s.subrange(1, whole_end(s)))
    } else {
        s.subrange(0, whole_end(s))
    }
}

/// A plus or a minus sign.
pub open spec fn is_sign(c: char) -> bool {
    c == '+' || c == '-'
}

/// From `at` to its end the text is an exponent: the letter `e`, small or
/// capital, an optional sign, and one or more digits.
pub open spec fn is_exponent(s: Seq<char>, at: int) -> bool {
    let digits = if at + 1 < s.len() && is_sign(s[at + 1]) {
        at + 2
    } else {
        at + 1
    };
    &&& 0 <= at < s.len()
    &&& s[at] == 'e' || s[at] == 'E'
    &&& digits < s.len()
    &&& digit_run_end(s, digits) == s.len()
}

/// From `start` to its end the text is a number in decimal notation:
/// digits with at most one point among them, at least one digit before or
/// behind the point, and optionally an exponent.
pub open spec fn is_decimal(s: Seq<char>, start: int) -> bool {
    let whole_end = digit_run_end(s, start);
    let point = whole_end < s.len() && s[whole_end] == '.';
    let fraction_end = if point {
        digit_run_end(s, whole_end + 1)
    } else {
        whole_end
    };
    let digits = if point {
        fraction_end - start - 1
    } else {
        whole_end - start
    };
    &&& digits > 0
    &&& fraction_end == s.len() || is_exponent(s, fraction_end)
}

/// The text writes a decimal number: an optional sign, then a number in
/// decimal notation. Words such as the names of infinities write no
/// number.
pub open spec fn is_number(s: Seq<char>) -> bool {
    let start: int = if s.len() > 0 && is_sign(s[0]) {
        1
    } else {
        0
    };
    is_decimal(s, start)
}

/// Every character is a digit.
pub open spec fn all_digits(d: Seq<char>) -> bool {
    forall|i: int| 0 <= i < d.len() ==> is_digit(#[trigger] d[i])
}

/// Whether `c` is a digit.
pub fn digit(c: char) -> (b: bool)
    ensures
        b == is_digit(c),
{
    '0' <= c && c <= '9'
}

/// The end of the stretch of digits of `chars` that starts at `from`.
fn digits_until(chars: &Vec<char>, from: usize) -> (end: usize)
    requires
        from <= chars.len(),
    ensures
        end == digit_run_end(chars@, from as int),
        from <= end <= chars.len(),
{
    let mut end: usize = from;
    while end < chars.len() && digit(chars[end])
        invariant
            from <= end <= chars.len(),
            forall|i: int| from <= i < end ==> is_digit(#[trigger] chars@[i]),
        decreases chars.len() - end,
    {
        end += 1;
    }
    proof {
        lemma_digit_run(chars@, from as int, end as int);
    }
    end
}

/// `count` zeros.
pub open spec fn zeros(count: int) -> Seq<char> {
    Seq::new(count as nat, |i: int| '0')
}

/// The next number keeps the digits before the last digit below nine,
/// raises that digit by one and turns the nines behind it into zeros; a
/// number written with nines alone becomes a one with as many zeros.
proof fn lemma_succ_digits_shape(d: Seq<char>, k: int)
    requires
        0 <= k <= d.len(),
        forall|i: int| k <= i < d.len() ==> #[trigger] d[i] == '9',
        k > 0 ==> d[k - 1] != '9',
    ensures
        succ_digits(d) == (if k == 0 {
            seq!['1']
        } else {
            d.take(k - 1).push(next_digit(d[k - 1]))
        }) + zeros(d.len() - k),
    decreases d.len() - k,
{
    let front = if k == 0 {
        seq!['1']
    } else {
        d.take(k - 1).push(next_digit(d[k - 1]))
    };
    if k == d.len() {
        assert(front + zeros(0) =~= front);
        if k > 0 {
            assert(d.take(k - 1) == d.drop_last());
        }
    } else {
        let rest = d.drop_last();
        assert(d.last() == '9');
        assert forall|i: int| k <= i < rest.len() implies #[trigger] rest[i] == '9' by {
            assert(rest[i] == d[i]);
        }
        lemma_succ_digits_shape(rest, k);
        if k > 0 {
            assert(rest.take(k - 1) == d.take(k - 1));
        }
        assert((front + zeros(rest.len() - k)).push('0') =~= front + zeros(d.len() - k));
    }
}

/// Appends to `out` the digits of the number after the one that
/// `chars[from..to]` writes.
fn push_succ_digits(out: &mut String, chars: &Vec<char>, from: usize, to: usize)
    requires
        from <= to <= chars.len(),
        forall|i: int| from <= i < to ==> is_digit(#[trigger] chars@[i]),
    ensures
        final(out)@ == old(out)@ + succ_digits(chars@.subrange(from as int, to as int)),
{
    let ghost d = chars@.subrange(from as int, to as int);
    let ghost before = out@;
    let mut k: usize = to;
    while k > from && chars[k - 1] == '9'
        invariant
            from <= k <= to <= chars.len(),
            forall|i: int| k <= i < to ==> #[trigger] chars@[i] == '9',
        decreases k,
    {
        k -= 1;
    }
    proof {
        assert forall|i: int| k - from <= i < d.len() implies #[trigger] d[i] == '9' by {
            assert(d[i] == chars@[i + from]);
        }
        lemma_succ_digits_shape(d, k - from);
    }
    if k == from {
        out.push('1');
    } else {
        let mut i: usize = from;
        while i < k - 1
            invariant
                from <= i <= k - 1,
                k <= to <= chars.len(),
                out@ == before + d.take(i - from),
                d == chars@.subrange(from as int, to as int),
            decreases k - 1 - i,
        {
            out.push(chars[i]);
            i += 1;
            assert(d.take(i - from) == d.take(i - 1 - from).push(chars@[i - 1]));
        }
        let c = chars[k - 1];
        assert(is_digit(c) && c != '9');
        assert(c == d[k - 1 - from]);
        let up = ((c as u8) + 1) as char;
        out.push(up);
    }
    let ghost front = out@;
    let mut z: usize = k;
    while z < to
        invariant
            k <= z <= to,
            out@ == front + zeros(z - k),
        decreases to - z,
    {
        out.push('0');
        z += 1;
        assert(zeros(z - k) =~= zeros(z - 1 - k).push('0'));
    }
    assert(front + zeros(0) =~= front);
    assert(out@ =~= before + succ_digits(d));
}

/// Whether the text from `at` to its end is an exponent.
fn exponent_at(chars: &Vec<char>, at: usize) -> (b: bool)
    requires
        at <= chars.len(),
    ensures
        b == is_exponent(chars@, at as int),
{
    let n = chars.len();
    if at >= n || (chars[at] != 'e' && chars[at] != 'E') {
        return false;
    }
    let digits: usize = if at + 1 < n && (chars[at + 1] == '+' || chars[at + 1] == '-') {
        at + 2
    } else {
        at + 1
    };
    if digits >= n {
        return false;
    }
    digits_until(chars, digits) == n
}

/// Whether the text from `start` to its end is a number in decimal
/// notation.
fn decimal_at(chars: &Vec<char>, start: usize) -> (b: bool)
    requires
        start <= chars.len(),
    ensures
        b == is_decimal(chars@, start as int),
{
    let n = chars.len();
    let whole_end = digits_until(chars, start);
    let point = whole_end < n && chars[whole_end] == '.';
    let fraction_end = if point {
        digits_until(chars, whole_end + 1)
    } else {
        whole_end
    };
    let digits = if point {
        fraction_end - start - 1
    } else {
        whole_end - start
    };
    if digits == 0 {
        return false;
    }
    fraction_end == n || exponent_at(chars, fraction_end)
}

/// Whether the text writes a decimal number.
pub fn writes_number(text: &str) -> (b: bool)
    ensures
        b == is_number(text@),
{
    let chars = chars_of(text);
    let start: usize = if chars.len() > 0 && (chars[0] == '+' || chars[0] == '-') {
        1
    } else {
        0
    };
    decimal_at(&chars, start)
}

/// Rounds a decimal numeral down to a whole number; any other text comes
/// back unchanged.
pub fn floor_numeral(text: &str) -> (out: String)
    ensures
        out@ == floored(text@),
{
    let chars = chars_of(text);
    let n = chars.len();
    let neg = n > 0 && chars[0] == '-';
    let start: usize = if neg {
        1
    } else {
        0
    };
    let end = digits_until(&chars, start);
    let mut numeral = end > start;
    if numeral && end < n {
        if chars[end] != '.' || end + 1 >= n {
            numeral = false;
        } else {
            let fraction_end = digits_until(&chars, end + 1);
            numeral = fraction_end == n;
        }
    }
    assert(numeral == is_numeral(text@));
    if !numeral {
        return text.to_owned();
    }
    let mut fraction = false;
    let mut i: usize = end;
    while i < n
        invariant
            end <= i <= n,
            n == chars@.len(),
            fraction == (exists|j: int| end < j < i && chars@[j] != '0'),
        decreases n - i,
    {
        if i > end && chars[i] != '0' {
            fraction = true;
        }
        i += 1;
    }
    assert(fraction == has_fraction(text@));
    let mut out = String::new();
    if neg && fraction {
        out.push('-');
        proof {
            lemma_digit_run_bounds(chars@, start as int);
        }
        push_succ_digits(&mut out, &chars, 1, end);
        assert(out@ =~= floored(text@));
    } else {
        let mut j: usize = 0;
        while j < end
            invariant
                0 <= j <= end <= chars.len(),
                out@ == chars@.take(j as int),
            decreases end - j,
        {
            out.push(chars[j]);
            j += 1;
            assert(chars@.take(j as int) == chars@.take(j - 1).push(chars@[j - 1]));
        }
        assert(chars@.take(end as int) == chars@.subrange(0, end as int));
    }
    out
}

/// A stretch of digits ends where it is told to end: at the first
/// character that is no digit, or at the end of the text.
pub proof fn lemma_digit_run(s: Seq<char>, from: int, end: int)
    requires
        0 <= from <= end <= s.len(),
        forall|i: int| from <= i < end ==> is_digit(#[trigger] s[i]),
        end < s.len() ==> !is_digit(s[end]),
    ensures
        digit_run_end(s, from) == end,
    decreases end - from,
{
    if from < end {
        lemma_digit_run(s, from + 1, end);
    }
}

/// Everything between `from` and the end of its stretch of digits is a
/// digit, and the stretch ends inside the text.
pub proof fn lemma_digit_run_bounds(s: Seq<char>, from: int)
    requires
        0 <= from <= s.len(),
    ensures
        from <= digit_run_end(s, from) <= s.len(),
        forall|i: int| from <= i < digit_run_end(s, from) ==> is_digit(#[trigger] s[i]),
        digit_run_end(s, from) < s.len() ==> !is_digit(s[digit_run_end(s, from)]),
    decreases s.len() - from,
{
    if from < s.len() && is_digit(s[from]) {
        lemma_digit_run_bounds(s, from + 1);
    }
}

/// One more than a number has digits only, and at least one.
pub proof fn lemma_succ_digits_are_digits(d: Seq<char>)
    requires
        all_digits(d),
    ensures
        all_digits(succ_digits(d)),
        succ_digits(d).len() >= 1,
        succ_digits(d).len() >= d.len(),
    decreases d.len(),
{
    if d.len() == 0 {
    } else if d.last() == '9' {
        assert(all_digits(d.drop_last())) by {
            assert forall|i: int| 0 <= i < d.drop_last().len() implies is_digit(
                #[trigger] d.drop_last()[i],
            ) by {
                assert(d.drop_last()[i] == d[i]);
            }
        }
        lemma_succ_digits_are_digits(d.drop_last());
    } else {
        let c = d.last();
        assert(is_digit(c));
        assert(is_digit(next_digit(c)));
        assert forall|i: int| 0 <= i < succ_digits(d).len() implies is_digit(
            #[trigger] succ_digits(d)[i],
        ) by {
            if i < d.len() - 1 {
                assert(succ_digits(d)[i] == d[i]);
            }
        }
    }
}

/// The digits that `succ_digits` gives write the next number.
pub proof fn lemma_succ_digits_value(d: Seq<char>)
    requires
        all_digits(d),
    ensures
        digits_value(succ_digits(d)) == digits_value(d) + 1,
    decreases d.len(),
{
    if d.len() == 0 {
        let one = seq!['1'];
        assert(one.len() == 1);
        assert(one.last() == '1');
        assert(one.drop_last().len() == 0);
        assert(digits_value(one.drop_last()) == 0);
        assert(digits_value(one) == 1);
    } else if d.last() == '9' {
        assert(all_digits(d.drop_last())) by {
            assert forall|i: int| 0 <= i < d.drop_last().len() implies is_digit(
                #[trigger] d.drop_last()[i],
            ) by {
                assert(d.drop_last()[i] == d[i]);
            }
        }
        lemma_succ_digits_value(d.drop_last());
        let r = succ_digits(d.drop_last()).push('0');
        assert(r.drop_last() == succ_digits(d.drop_last()));
        assert(r.last() == '0');
    } else {
        let c = d.last();
        assert(is_digit(c));
        let r = d.drop_last().push(next_digit(c));
        assert(r.drop_last() == d.drop_last());
        assert(r.last() == next_digit(c));
    }
}

/// The whole number before the point of a numeral, with its sign.
pub open spec fn whole_part(s: Seq<char>) -> int {
    let digits = digits_value(s.subrange(whole_start(s), whole_end(s)));
    if negative(s) {
        -digits
    } else {
        digits as int
    }
}

/// Rounding down gives the whole number at or below the numeral: the
/// number before the point, and one less where the numeral is negative and
/// has a fraction.
pub proof fn lemma_floored_value(s: Seq<char>)
    requires
        is_numeral(s),
    ensures
        is_numeral(floored(s)),
        !has_fraction(floored(s)),
        whole_end(floored(s)) == floored(s).len(),
        whole_part(floored(s)) == if negative(s) && has_fraction(s) {
            whole_part(s) - 1
        } else {
            whole_part(s)
        },
{
    let r = floored(s);
    let end = whole_end(s);
    lemma_digit_run_bounds(s, whole_start(s));
    if negative(s) && has_fraction(s) {
        let d = s.subrange(1, end);
        assert(all_digits(d)) by {
            assert forall|i: int| 0 <= i < d.len() implies is_digit(#[trigger] d[i]) by {
                assert(d[i] == s[i + 1]);
            }
        }
        lemma_succ_digits_are_digits(d);
        lemma_succ_digits_value(d);
        assert(r[0] == '-');
        assert forall|i: int| 1 <= i < r.len() implies is_digit(#[trigger] r[i]) by {
            assert(r[i] == succ_digits(d)[i - 1]);
        }
        lemma_digit_run(r, 1, r.len() as int);
        assert(r.subrange(1, r.len() as int) =~= succ_digits(d));
    } else {
        assert forall|i: int| whole_start(s) <= i < r.len() implies is_digit(#[trigger] r[i]) by {
            assert(r[i] == s[i]);
        }
        assert(negative(r) == negative(s));
        lemma_digit_run(r, whole_start(r), r.len() as int);
        assert(r.subrange(whole_start(r), r.len() as int) =~= s.subrange(whole_start(s), end));
    }
}

/// The text holds no space.
pub open spec fn spaceless(s: Seq<char>) -> bool {
    forall|i: int| 0 <= i < s.len() ==> #[trigger] s[i] != ' '
}

/// Rounding down brings no space into a text that holds none.
pub proof fn lemma_floored_spaceless(s: Seq<char>)
    requires
        spaceless(s),
    ensures
        spaceless(floored(s)),
{
    let r = floored(s);
    if is_numeral(s) {
        lemma_floored_value(s);
        lemma_digit_run_bounds(r, whole_start(r));
        assert forall|i: int| 0 <= i < r.len() implies #[trigger] r[i] != ' ' by {
            if i >= whole_start(r) {
                assert(is_digit(r[i]));
            }
        }
    }
}

/// Rounding down twice is rounding down once.
pub proof fn lemma_floored_idempotent(s: Seq<char>)
    ensures
        floored(floored(s)) == floored(s),
{
    if is_numeral(s) {
        let r = floored(s);
        lemma_floored_value(s);
        assert(r.subrange(0, r.len() as int) == r);
    }
}

} // verus!
