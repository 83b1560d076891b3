//! What holds of text and numbers: what is written reads back, and what is read was
//! written.

use vstd::prelude::*;
use crate::text::{
    decimal, digit_char, digit_value, digits_value, hex4, number, pad_end, pad_start, repeated, trim_end,
    trim_start, trimmed, white_space,
};

verus! {

/// The value of a character as a digit of some radix up to sixteen, going by its code;
/// sixteen for a character that is no digit.
pub open spec fn face_value(c: char) -> int {
    let code = c as int;
    if 48 <= code <= 57 {
        code - 48
    } else if 97 <= code <= 102 {
        code - 87
    } else if 65 <= code <= 70 {
        code - 55
    } else {
        16
    }
}

/// Are all characters digits of the radix?
pub open spec fn all_digits(s: Seq<char>, radix: int) -> bool {
    forall|i: int| 0 <= i < s.len() ==> face_value(#[trigger] s[i]) < radix
}

/// The value of a run of digits, read from the left.
pub open spec fn reading(s: Seq<char>, radix: int) -> int
    decreases s.len(),
{
    if s.len() == 0 {
        0
    } else {
        reading(s.drop_last(), radix) * radix + face_value(s.last())
    }
}

/// A number in decimal reads back as the number. It has at least one digit, and no zero
/// in front unless it is zero.
pub proof fn decimal_reads_back(n: nat)
    ensures
        decimal(n).len() > 0,
        all_digits(decimal(n), 10),
        reading(decimal(n), 10) == n,
        n > 0 ==> face_value(decimal(n)[0]) > 0,
        n < 10 ==> decimal(n).len() == 1,
    decreases n,
{
    let s = decimal(n);
    if n < 10 {
        assert(s.drop_last() =~= Seq::<char>::empty());
        assert(reading(s.drop_last(), 10) == 0);
    } else {
        decimal_reads_back(n / 10);
        assert(s.drop_last() =~= decimal(n / 10));
        assert forall|i: int| 0 <= i < s.len() implies face_value(#[trigger] s[i]) < 10 by {
            if i < s.len() - 1 {
                assert(s[i] == decimal(n / 10)[i]);
            }
        }
        assert(s[0] == decimal(n / 10)[0]);
    }
}

/// A number has as many digits in decimal as it needs: below a power of ten, no more
/// than that power's zeros.
pub proof fn decimal_is_short(n: nat)
    ensures
        n < 100 ==> decimal(n).len() <= 2,
        n < 1_000 ==> decimal(n).len() <= 3,
        n < 100_000 ==> decimal(n).len() <= 5,
{
    reveal_with_fuel(decimal, 6);
}

proof fn lemma_digit_shows(d: int)
    requires
        0 <= d < 16,
    ensures
        face_value(digit_char(d)) == d,
        !('A' <= digit_char(d) <= 'F'),
{
}

/// Four hexadecimal digits read back as the number they show, in lower case.
pub proof fn hex4_reads_back(x: u16)
    ensures
        hex4(x).len() == 4,
        all_digits(hex4(x), 16),
        reading(hex4(x), 16) == x,
        forall|i: int| 0 <= i < 4 ==> !('A' <= #[trigger] hex4(x)[i] <= 'F'),
{
    let (a, b, c, d) = (
        x as int / 0x1000,
        x as int / 0x100 % 0x10,
        x as int / 0x10 % 0x10,
        x as int % 0x10,
    );
    lemma_digit_shows(a);
    lemma_digit_shows(b);
    lemma_digit_shows(c);
    lemma_digit_shows(d);
    let none = Seq::<char>::empty();
    let one = none.push(digit_char(a));
    let two = one.push(digit_char(b));
    let three = two.push(digit_char(c));
    reading_goes_on(none, digit_char(a), 16);
    reading_goes_on(one, digit_char(b), 16);
    reading_goes_on(two, digit_char(c), 16);
    reading_goes_on(three, digit_char(d), 16);
    assert(hex4(x) =~= three.push(digit_char(d)));
    assert(((a * 16 + b) * 16 + c) * 16 + d == x);
}

/// Reading a text and more digits behind it is reading on.
pub proof fn reading_goes_on(s: Seq<char>, c: char, radix: int)
    ensures
        reading(s.push(c), radix) == reading(s, radix) * radix + face_value(c),
{
    assert(s.push(c).drop_last() =~= s);
}

/// Zeros in front do not change what a number reads as.
pub proof fn zeros_in_front_read_as_nothing(s: Seq<char>, n: int, radix: int)
    ensures
        reading(repeated('0', n) + s, radix) == reading(s, radix),
    decreases s.len(), n,
{
    let t = repeated('0', n) + s;
    if s.len() > 0 {
        assert(t.drop_last() =~= repeated('0', n) + s.drop_last());
        zeros_in_front_read_as_nothing(s.drop_last(), n, radix);
    } else if n > 0 {
        assert(t.drop_last() =~= repeated('0', n - 1) + s);
        zeros_in_front_read_as_nothing(s, n - 1, radix);
        assert(t.last() == '0');
        assert(0 * radix == 0) by (nonlinear_arith);
    } else {
        assert(t =~= s);
    }
}

/// Filling up in front keeps the text behind the fill, and makes it as wide as asked
/// for, no wider.
pub proof fn padding_in_front_is_all_it_adds(s: Seq<char>, c: char, width: nat)
    ensures
        ({
            let t = pad_start(s, c, width);
            let fill = t.len() - s.len();
            &&& t.len() == if s.len() < width { width } else { s.len() }
            &&& t.skip(fill) == s
            &&& forall|i: int| 0 <= i < fill ==> #[trigger] t[i] == c
        }),
{
    let t = pad_start(s, c, width);
    assert(t.skip(t.len() - s.len()) =~= s);
}

/// Filling up behind keeps the text in front of the fill, and makes it as wide as asked
/// for, no wider.
pub proof fn padding_behind_is_all_it_adds(s: Seq<char>, c: char, width: nat)
    ensures
        ({
            let t = pad_end(s, c, width);
            &&& t.len() == if s.len() < width { width } else { s.len() }
            &&& t.take(s.len() as int) == s
            &&& forall|i: int| s.len() <= i < t.len() ==> #[trigger] t[i] == c
        }),
{
    let t = pad_end(s, c, width);
    assert(t.take(s.len() as int) =~= s);
}

/// A number filled up with zeros reads as the number.
pub proof fn padded_numbers_read_back(n: nat, width: nat)
    ensures
        all_digits(pad_start(decimal(n), '0', width), 10),
        reading(pad_start(decimal(n), '0', width), 10) == n,
        pad_start(decimal(n), '0', width).len() >= 1,
{
    decimal_reads_back(n);
    let s = decimal(n);
    let t = pad_start(s, '0', width);
    zeros_in_front_read_as_nothing(s, width - s.len(), 10);
    assert forall|i: int| 0 <= i < t.len() implies face_value(#[trigger] t[i]) < 10 by {
        let fill = t.len() - s.len();
        if i >= fill {
            assert(t[i] == s[i - fill]);
        }
    }
}

/// Digits are read for what they show: a text has a value exactly if all its characters
/// are digits of the radix, and the value is what they read as.
pub proof fn digits_read_as_they_show(s: Seq<char>, radix: nat)
    requires
        2 <= radix <= 16,
    ensures
        digits_value(s, radix) is Some <==> all_digits(s, radix as int),
        all_digits(s, radix as int) ==> digits_value(s, radix)->Some_0 == reading(s, radix as int),
    decreases s.len(),
{
    if s.len() > 0 {
        let f = s.drop_last();
        digits_read_as_they_show(f, radix);
        let n = s.len() - 1;
        if all_digits(s, radix as int) {
            assert forall|i: int| 0 <= i < f.len() implies face_value(#[trigger] f[i])
                < radix as int by {
                assert(face_value(s[i]) < radix);
            }
            assert(face_value(s[n]) < radix);
        }
        if all_digits(f, radix as int) && face_value(s[n]) < radix {
            assert forall|i: int| 0 <= i < s.len() implies face_value(#[trigger] s[i])
                < radix as int by {
                if i < n {
                    assert(face_value(f[i]) < radix);
                }
            }
        }
        assert(digit_value(s.last(), radix) is Some <==> face_value(s.last()) < radix);
    }
}

/// A number is read if and only if it is one: after an optional plus sign, at least one
/// digit, nothing else, and a value within the limit. It is then that value.
pub proof fn a_number_is_read_as_it_shows(s: Seq<char>, radix: nat, max: nat)
    requires
        2 <= radix <= 16,
    ensures
        ({
            let body = if s.len() > 0 && s[0] == '+' { s.skip(1) } else { s };
            let good = body.len() > 0 && all_digits(body, radix as int) && reading(
                body,
                radix as int,
            ) <= max;
            &&& number(s, radix, max) is Some <==> good
            &&& good ==> number(s, radix, max)->Some_0 == reading(body, radix as int)
        }),
{
    let body = if s.len() > 0 && s[0] == '+' {
        s.skip(1)
    } else {
        s
    };
    assert(s.len() > 0 ==> s.drop_first() =~= s.skip(1));
    digits_read_as_they_show(body, radix);
}

/// The number that a text shows: digits, with or without a plus sign in front.
pub open spec fn shown(s: Seq<char>, radix: int) -> Option<int> {
    let body = if s.len() > 0 && s[0] == '+' {
        s.skip(1)
    } else {
        s
    };
    if body.len() > 0 && all_digits(body, radix) {
        Some(reading(body, radix))
    } else {
        None
    }
}

/// What is written in decimal is read back, if it is within the limit.
pub proof fn a_written_number_is_read(n: nat, max: nat)
    ensures
        number(decimal(n), 10, max) == if n <= max { Some(n) } else { None::<nat> },
{
    decimal_reads_back(n);
    a_number_is_read_as_it_shows(decimal(n), 10, max);
    assert(face_value(decimal(n)[0]) < 10);
}

proof fn lemma_trim_start(s: Seq<char>) -> (a: int)
    ensures
        0 <= a <= s.len(),
        trim_start(s) == s.skip(a),
        forall|i: int| 0 <= i < a ==> white_space(#[trigger] s[i]),
        a < s.len() ==> !white_space(s[a]),
    decreases s.len(),
{
    if s.len() > 0 && white_space(s[0]) {
        let rest = s.drop_first();
        let a = lemma_trim_start(rest);
        assert(rest.skip(a) =~= s.skip(a + 1));
        assert forall|i: int| 0 <= i < a + 1 implies white_space(#[trigger] s[i]) by {
            if i > 0 {
                assert(white_space(rest[i - 1]));
            }
        }
        a + 1
    } else {
        assert(s.skip(0) =~= s);
        0
    }
}

proof fn lemma_trim_end(s: Seq<char>) -> (b: int)
    ensures
        0 <= b <= s.len(),
        trim_end(s) == s.take(b),
        forall|i: int| b <= i < s.len() ==> white_space(#[trigger] s[i]),
        b > 0 ==> !white_space(s[b - 1]),
    decreases s.len(),
{
    if s.len() > 0 && white_space(s.last()) {
        let front = s.drop_last();
        let b = lemma_trim_end(front);
        assert(front.take(b) =~= s.take(b));
        assert forall|i: int| b <= i < s.len() implies white_space(#[trigger] s[i]) by {
            if i < s.len() - 1 {
                assert(white_space(front[i]));
            }
        }
        b
    } else {
        assert(s.take(s.len() as int) =~= s);
        s.len() as int
    }
}

/// Twenty-five characters are white space: by their codes the controls from tab to
/// carriage return and next line, the spaces and the separators.
pub proof fn white_space_goes_by_the_code(c: char)
    ensures
        white_space(c) <==> ({
            let code = c as int;
            ||| 9 <= code <= 13
            ||| code == 32
            ||| code == 133
            ||| code == 160
            ||| code == 5760
            ||| 8192 <= code <= 8202
            ||| 8232 <= code <= 8233
            ||| code == 8239
            ||| code == 8287
            ||| code == 12288
        }),
{
}

/// Trimming takes white space off both ends, all of it and nothing else: what is left
/// is a stretch of the text that neither begins nor ends with white space, and what
/// stands around it is white space.
pub proof fn trimming_takes_only_white_space(s: Seq<char>) -> (ends: (int, int))
    ensures
        0 <= ends.0 <= ends.1 <= s.len(),
        trimmed(s) == s.subrange(ends.0, ends.1),
        forall|i: int|
            0 <= i < s.len() && (i < ends.0 || ends.1 <= i) ==> white_space(#[trigger] s[i]),
        ends.0 < ends.1 ==> !white_space(s[ends.0]) && !white_space(s[ends.1 - 1]),
{
    let a = lemma_trim_start(s);
    let rest = s.skip(a);
    let n = lemma_trim_end(rest);
    assert(rest.take(n) =~= s.subrange(a, a + n));
    assert forall|i: int| 0 <= i < s.len() && (i < a || a + n <= i) implies white_space(
        #[trigger] s[i],
    ) by {
        if i >= a {
            assert(white_space(rest[i - a]));
        }
    }
    if n > 0 {
        assert(rest[n - 1] == s[a + n - 1]);
    }
    (a, a + n)
}

/// Where trimming begins is the first character that is no white space.
pub proof fn trimming_the_front_stops_at_text(s: Seq<char>) -> (a: int)
    ensures
        0 <= a <= s.len(),
        trim_start(s) == s.skip(a),
        forall|i: int| 0 <= i < a ==> white_space(#[trigger] s[i]),
        a < s.len() ==> !white_space(s[a]),
{
    lemma_trim_start(s)
}

} // verus!
