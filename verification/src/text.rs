//! Text: trimming, and numbers as operators and logs write them.

use vstd::prelude::*;

verus! {

/// `String::push` appends one character.
pub assume_specification[ String::push ](s: &mut String, c: char)
    ensures
        final(s)@ == old(s)@.push(c),
;

/// The characters with the Unicode property `White_Space`.
pub open spec fn white_space(c: char) -> bool {
    ||| '\u{9}' <= c <= '\u{d}'
    ||| c == ' '
    ||| c == '\u{85}'
    ||| c == '\u{a0}'
    ||| c == '\u{1680}'
    ||| '\u{2000}' <= c <= '\u{200a}'
    ||| c == '\u{2028}'
    ||| c == '\u{2029}'
    ||| c == '\u{202f}'
    ||| c == '\u{205f}'
    ||| c == '\u{3000}'
}

/// Does `c` have the Unicode property `White_Space`?
pub fn is_white_space(c: char) -> (r: bool)
    ensures
        r == white_space(c),
{
    ('\u{9}' <= c && c <= '\u{d}') || c == ' ' || c == '\u{85}' || c == '\u{a0}' || c == '\u{1680}'
        || ('\u{2000}' <= c && c <= '\u{200a}') || c == '\u{2028}' || c == '\u{2029}' || c
        == '\u{202f}' || c == '\u{205f}' || c == '\u{3000}'
}

/// `s` without the white space in front.
pub open spec fn trim_start(s: Seq<char>) -> Seq<char>
    decreases s.len(),
{
    if s.len() > 0 && white_space(s.first()) {
        trim_start(s.drop_first())
    } else {
        s
    }
}

/// `s` without the white space at the end.
pub open spec fn trim_end(s: Seq<char>) -> Seq<char>
    decreases s.len(),
{
    if s.len() > 0 && white_space(s.last()) {
        trim_end(s.drop_last())
    } else {
        s
    }
}

/// `s` without the white space at either end.
pub open spec fn trimmed(s: Seq<char>) -> Seq<char> {
    trim_end(trim_start(s))
}

/// The characters of a string, one by one.
pub fn chars_of(s: &str) -> (out: Vec<char>)
    ensures
        out@ == s@,
{
    let mut out: Vec<char> = Vec::new();
    for c in it: s.chars()
        invariant
            it.seq() == s@,
            out@ == s@.take(it.index() as int),
    {
        assert(s@.take(it.index() as int).push(c) =~= s@.take(it.index() as int + 1));
        out.push(c);
    }
    assert(s@.take(s@.len() as int) =~= s@);
    out
}

/// The characters from `from` up to `to` as a string.
pub fn string_of(chars: &Vec<char>, from: usize, to: usize) -> (out: String)
    requires
        from <= to <= chars@.len(),
    ensures
        out@ == chars@.subrange(from as int, to as int),
{
    let mut out: String = String::new();
    let mut i: usize = from;
    while i < to
        invariant
            from <= i <= to <= chars@.len(),
            out@ == chars@.subrange(from as int, i as int),
        decreases to - i,
    {
        out.push(chars[i]);
        i = i + 1;
        assert(chars@.subrange(from as int, i as int) =~= chars@.subrange(
            from as int,
            i as int - 1,
        ).push(chars@[i as int - 1]));
    }
    out
}

/// The text without the white space at either end.
pub fn trim(s: &str) -> (out: String)
    ensures
        out@ == trimmed(s@),
{
    let chars: Vec<char> = chars_of(s);
    let ghost all = chars@;
    let mut from: usize = 0;
    assert(all.subrange(0, all.len() as int) =~= all);
    while from < chars.len() && is_white_space(chars[from])
        invariant
            from <= chars@.len(),
            chars@ == all,
            trim_start(all.subrange(from as int, all.len() as int)) == trim_start(all),
        decreases chars.len() - from,
    {
        assert(all.subrange(from as int, all.len() as int).drop_first() =~= all.subrange(
            from as int + 1,
            all.len() as int,
        ));
        from = from + 1;
    }
    let ghost rest = all.subrange(from as int, all.len() as int);
    assert(trim_start(rest) == rest);
    let mut to: usize = chars.len();
    while from < to && is_white_space(chars[to - 1])
        invariant
            from <= to <= chars@.len(),
            chars@ == all,
            rest == all.subrange(from as int, all.len() as int),
            trim_end(all.subrange(from as int, to as int)) == trim_end(rest),
        decreases to,
    {
        assert(all.subrange(from as int, to as int).drop_last() =~= all.subrange(
            from as int,
            to as int - 1,
        ));
        to = to - 1;
    }
    string_of(&chars, from, to)
}

/// The digit `d`, below sixteen, in lower case.
pub open spec fn digit_char(d: int) -> char {
    if d < 10 {
        (d + '0' as int) as char
    } else {
        (d - 10 + 'a' as int) as char
    }
}

/// `n` in decimal, without leading zeros.
pub open spec fn decimal(n: nat) -> Seq<char>
    decreases n,
{
    if n < 10 {
        seq![digit_char(n as int)]
    } else {
        decimal(n / 10).push(digit_char(n as int % 10))
    }
}

/// `x` as four hexadecimal digits.
pub open spec fn hex4(x: u16) -> Seq<char> {
    seq![
        digit_char(x as int / 0x1000),
        digit_char(x as int / 0x100 % 0x10),
        digit_char(x as int / 0x10 % 0x10),
        digit_char(x as int % 0x10),
    ]
}

fn digit(d: u64) -> (c: char)
    requires
        d < 16,
    ensures
        c == digit_char(d as int),
{
    if d < 10 {
        (d as u8 + '0' as u8) as char
    } else {
        (d as u8 - 10 + 'a' as u8) as char
    }
}

/// Append `n` in decimal.
pub fn push_decimal(out: &mut String, n: u64)
    ensures
        final(out)@ == old(out)@ + decimal(n as nat),
    decreases n,
{
    if n >= 10 {
        push_decimal(out, n / 10);
    }
    out.push(digit(n % 10));
    assert(out@ =~= old(out)@ + decimal(n as nat));
}

/// Append `x` as four hexadecimal digits.
pub fn push_hex4(out: &mut String, x: u16)
    ensures
        final(out)@ == old(out)@ + hex4(x),
{
    out.push(digit((x / 0x1000) as u64));
    out.push(digit((x / 0x100 % 0x10) as u64));
    out.push(digit((x / 0x10 % 0x10) as u64));
    out.push(digit((x % 0x10) as u64));
    assert(out@ =~= old(out)@ + hex4(x));
}

/// Append a piece of text.
pub fn push_text(out: &mut String, s: &str)
    ensures
        final(out)@ == old(out)@ + s@,
{
    out.append(s);
}

/// The value of the digit `c` in a radix of at most sixteen, in either case.
pub open spec fn digit_value(c: char, radix: nat) -> Option<nat> {
    let v = if '0' <= c <= '9' {
        c as int - '0' as int
    } else if 'a' <= c <= 'f' {
        c as int - 'a' as int + 10
    } else if 'A' <= c <= 'F' {
        c as int - 'A' as int + 10
    } else {
        radix as int
    };
    if v < radix {
        Some(v as nat)
    } else {
        None
    }
}

/// The value of a run of digits; `None` if a character is no digit.
pub open spec fn digits_value(s: Seq<char>, radix: nat) -> Option<nat>
    decreases s.len(),
{
    if s.len() == 0 {
        Some(0)
    } else {
        match (digits_value(s.drop_last(), radix), digit_value(s.last(), radix)) {
            (Some(high), Some(low)) => Some(high * radix + low),
            _ => None,
        }
    }
}

/// `s` without a leading `+`.
pub open spec fn without_plus(s: Seq<char>) -> Seq<char> {
    if s.len() > 0 && s[0] == '+' {
        s.drop_first()
    } else {
        s
    }
}

/// A number as it is written: an optional `+`, then at least one digit, with a
/// value of at most `max`.
pub open spec fn number(s: Seq<char>, radix: nat, max: nat) -> Option<nat> {
    let body = without_plus(s);
    match digits_value(body, radix) {
        Some(v) => if body.len() > 0 && v <= max {
            Some(v)
        } else {
            None
        },
        None => None,
    }
}

proof fn lemma_prefix_bounds(s: Seq<char>, i: int, radix: nat)
    requires
        0 <= i <= s.len(),
        radix >= 2,
        digits_value(s, radix) is Some,
    ensures
        digits_value(s.take(i), radix) is Some,
        digits_value(s.take(i), radix)->Some_0 <= digits_value(s, radix)->Some_0,
    decreases s.len() - i,
{
    if i == s.len() {
        assert(s.take(i) =~= s);
    } else {
        lemma_prefix_bounds(s, i + 1, radix);
        assert(s.take(i + 1).drop_last() =~= s.take(i));
        let high = digits_value(s.take(i), radix)->Some_0;
        assert(high <= high * radix) by (nonlinear_arith)
            requires
                radix >= 2,
        ;
    }
}

fn value_of_digit(c: char, radix: u32) -> (r: Option<u32>)
    requires
        2 <= radix <= 16,
    ensures
        match (r, digit_value(c, radix as nat)) {
            (Some(a), Some(b)) => a == b && a < radix,
            (None, None) => true,
            _ => false,
        },
{
    let v: u32 = if '0' <= c && c <= '9' {
        c as u32 - '0' as u32
    } else if 'a' <= c && c <= 'f' {
        c as u32 - 'a' as u32 + 10
    } else if 'A' <= c && c <= 'F' {
        c as u32 - 'A' as u32 + 10
    } else {
        radix
    };
    if v < radix {
        Some(v)
    } else {
        None
    }
}

/// Read a number in the given radix, of at most `max`.
pub fn parse_number(s: &str, radix: u32, max: u64) -> (r: Option<u64>)
    requires
        2 <= radix <= 16,
    ensures
        match (r, number(s@, radix as nat, max as nat)) {
            (Some(a), Some(b)) => a == b,
            (None, None) => true,
            _ => false,
        },
{
    let chars: Vec<char> = chars_of(s);
    let start: usize = if chars.len() > 0 && chars[0] == '+' {
        1
    } else {
        0
    };
    let ghost body = without_plus(s@);
    assert(body =~= chars@.skip(start as int));
    if start == chars.len() {
        return None;
    }
    let mut value: u64 = 0;
    let mut i: usize = start;
    assert(body.take(0) =~= Seq::<char>::empty());
    while i < chars.len()
        invariant
            start <= i <= chars@.len(),
            body == without_plus(s@),
            body == chars@.skip(start as int),
            2 <= radix <= 16,
            value <= max,
            digits_value(body.take(i - start), radix as nat) == Some(value as nat),
        decreases chars.len() - i,
    {
        let ghost k = i - start;
        assert(body.take(k + 1).drop_last() =~= body.take(k));
        assert(body.take(k + 1).last() == chars@[i as int]);
        let d: u32 = match value_of_digit(chars[i], radix) {
            Some(d) => d,
            None => {
                proof {
                    if digits_value(body, radix as nat) is Some {
                        lemma_prefix_bounds(body, k + 1, radix as nat);
                    }
                }
                return None;
            },
        };
        assert(value as int * radix as int <= u64::MAX * 16) by (nonlinear_arith)
            requires
                value <= u64::MAX,
                2 <= radix <= 16,
        ;
        assert(0 <= value as int * radix as int) by (nonlinear_arith)
            requires
                2 <= radix <= 16,
        ;
        let next: u128 = value as u128 * radix as u128 + d as u128;
        assert(digits_value(body.take(k + 1), radix as nat) == Some(next as nat));
        if next > max as u128 {
            proof {
                if digits_value(body, radix as nat) is Some {
                    lemma_prefix_bounds(body, k + 1, radix as nat);
                }
            }
            return None;
        }
        value = next as u64;
        i = i + 1;
    }
    assert(body.take(body.len() as int) =~= body);
    Some(value)
}

/// `n` times the character `c`.
pub open spec fn repeated(c: char, n: int) -> Seq<char> {
    Seq::new(
        if n > 0 {
            n as nat
        } else {
            0
        },
        |i: int| c,
    )
}

/// `s` filled up with `c` in front, to at least `width` characters.
pub open spec fn pad_start(s: Seq<char>, c: char, width: nat) -> Seq<char> {
    repeated(c, width - s.len()) + s
}

/// `s` filled up with `c` behind, to at least `width` characters.
pub open spec fn pad_end(s: Seq<char>, c: char, width: nat) -> Seq<char> {
    s + repeated(c, width - s.len())
}

fn push_fill(out: &mut String, c: char, len: usize, width: usize)
    ensures
        final(out)@ == old(out)@ + repeated(c, width - len),
{
    let ghost was = out@;
    let mut n: usize = len;
    assert(out@ =~= was + repeated(c, 0));
    while n < width
        invariant
            len <= n,
            n <= width || n == len,
            out@ == was + repeated(c, n - len),
        decreases width - n,
    {
        out.push(c);
        n = n + 1;
        assert(out@ =~= was + repeated(c, n - len));
    }
    assert(repeated(c, n - len) =~= repeated(c, width - len));
}

/// Append `s`, filled up with `c` in front.
pub fn push_pad_start(out: &mut String, s: &str, c: char, width: usize)
    ensures
        final(out)@ == old(out)@ + pad_start(s@, c, width as nat),
{
    push_fill(out, c, s.unicode_len(), width);
    push_text(out, s);
    assert(out@ =~= old(out)@ + pad_start(s@, c, width as nat));
}

/// Append `s`, filled up with `c` behind.
pub fn push_pad_end(out: &mut String, s: &str, c: char, width: usize)
    ensures
        final(out)@ == old(out)@ + pad_end(s@, c, width as nat),
{
    push_text(out, s);
    push_fill(out, c, s.unicode_len(), width);
    assert(out@ =~= old(out)@ + pad_end(s@, c, width as nat));
}

/// `n` in decimal.
pub fn decimal_text(n: u64) -> (out: String)
    ensures
        out@ == decimal(n as nat),
{
    let mut out: String = String::new();
    push_decimal(&mut out, n);
    assert(out@ =~= decimal(n as nat));
    out
}

} // verus!
