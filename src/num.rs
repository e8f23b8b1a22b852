//! Decimal integers as text: reading them the way Rust's `FromStr` does
//! for signed integers, and writing them.
use vstd::prelude::*;
use vstd::string::*;

verus! {

/// Whether `c` is an ASCII decimal digit.
pub open spec fn is_digit(c: char) -> bool {
    '0' <= c <= '9'
}

/// Whether `s` is made of ASCII decimal digits only.
pub open spec fn all_digits(s: Seq<char>) -> bool {
    forall|i: int| 0 <= i < s.len() ==> is_digit(#[trigger] s[i])
}

/// The value of a digit character.
pub open spec fn digit_value(c: char) -> nat {
    (c as int - '0' as int) as nat
}

/// The value of a run of decimal digits, most significant first.
pub open spec fn digits_value(s: Seq<char>) -> nat
    decreases s.len(),
{
    if s.len() == 0 {
        0
    } else {
        digits_value(s.drop_last()) * 10 + digit_value(s.last())
    }
}

/// The integer that `s` spells: an optional `+` or `-`, then one or more
/// ASCII digits, and nothing else.
pub open spec fn int_value(s: Seq<char>) -> Option<int> {
    if s.len() > 0 && (s[0] == '-' || s[0] == '+') {
        let d = s.subrange(1, s.len() as int);
        if d.len() > 0 && all_digits(d) {
            Some(
                if s[0] == '-' {
                    -digits_value(d)
                } else {
                    digits_value(d) as int
                },
            )
        } else {
            None
        }
    } else if s.len() > 0 && all_digits(s) {
        Some(digits_value(s) as int)
    } else {
        None
    }
}

/// What reading `s` as an `i64` gives: its value where it spells one in range.
pub open spec fn i64_value(s: Seq<char>) -> Option<i64> {
    match int_value(s) {
        Some(v) => if i64::MIN <= v <= i64::MAX {
            Some(v as i64)
        } else {
            None
        },
        None => None,
    }
}

/// What reading `s` as an `i32` gives: its value where it spells one in range.
pub open spec fn i32_value(s: Seq<char>) -> Option<i32> {
    match int_value(s) {
        Some(v) => if i32::MIN <= v <= i32::MAX {
            Some(v as i32)
        } else {
            None
        },
        None => None,
    }
}

/// Reads the digits of `s` from `start` on, or `None` where one is not a
/// digit, or where there are none, or where the value exceeds `limit`.
fn read_digits(s: &str, start: usize, limit: u64) -> (r: Option<u64>)
    requires
        start <= s@.len(),
    ensures
        match r {
            Some(v) => s@.len() > start && all_digits(s@.subrange(start as int, s@.len() as int)) && v
                == digits_value(s@.subrange(start as int, s@.len() as int)) && v <= limit,
            None => !(s@.len() > start && all_digits(s@.subrange(start as int, s@.len() as int))
                && digits_value(s@.subrange(start as int, s@.len() as int)) <= limit),
        },
{
    let n = s.unicode_len();
    if n <= start {
        return None;
    }
    let mut value: u64 = 0;
    let mut over = false;
    let mut i: usize = start;
    while i < n
        invariant
            n == s@.len(),
            start <= i <= n,
            all_digits(s@.subrange(start as int, i as int)),
            !over ==> value == digits_value(s@.subrange(start as int, i as int)) && value <= limit,
            over ==> digits_value(s@.subrange(start as int, i as int)) > limit,
        decreases n - i,
    {
        let c = s.get_char(i);
        if !('0' <= c && c <= '9') {
            assert(s@.subrange(start as int, n as int)[i - start] == c);
            return None;
        }
        let ghost prev = s@.subrange(start as int, i as int);
        let ghost next = s@.subrange(start as int, i + 1);
        assert(next.drop_last() =~= prev);
        assert(next.last() == c);
        let d = (c as u32 - '0' as u32) as u64;
        if !over {
            if d > limit || value > (limit - d) / 10 {
                over = true;
                assert(digits_value(next) > limit) by (nonlinear_arith)
                    requires
                        d > limit || value > (limit - d) / 10,
                        digits_value(next) == value * 10 + d,
                        d <= 9,
                        value >= 0,
                        limit >= 0,
                ;
            } else {
                assert(value * 10 + d <= limit) by (nonlinear_arith)
                    requires
                        value <= (limit - d) / 10,
                        d <= 9,
                        d <= limit,
                ;
                value = value * 10 + d;
            }
        } else {
            assert(digits_value(next) >= digits_value(prev));
        }
        assert forall|j: int| 0 <= j < next.len() implies is_digit(#[trigger] next[j]) by {
            if j < prev.len() {
                assert(next[j] == prev[j]);
            }
        }
        i = i + 1;
    }
    if over {
        None
    } else {
        Some(value)
    }
}

/// Reads `s` as a signed integer of at most `limit` in magnitude when
/// positive and `limit + 1` when negative.
fn parse_signed(s: &str, limit: u64) -> (r: Option<i128>)
    requires
        limit < u64::MAX,
    ensures
        match int_value(s@) {
            Some(v) => if -(limit as int) - 1 <= v <= limit {
                r == Some(v as i128)
            } else {
                r is None
            },
            None => r is None,
        },
{
    let n = s.unicode_len();
    if n == 0 {
        return None;
    }
    let c = s.get_char(0);
    if c == '-' || c == '+' {
        let bound = if c == '-' {
            limit + 1
        } else {
            limit
        };
        match read_digits(s, 1, bound) {
            Some(v) => Some(
                if c == '-' {
                    -(v as i128)
                } else {
                    v as i128
                },
            ),
            None => None,
        }
    } else {
        assert(s@.subrange(0, s@.len() as int) =~= s@);
        match read_digits(s, 0, limit) {
            Some(v) => Some(v as i128),
            None => None,
        }
    }
}

/// Reads `s` the way Rust reads an `i64`.
pub fn parse_i64(s: &str) -> (r: Option<i64>)
    ensures
        r == i64_value(s@),
{
    match parse_signed(s, 0x7fff_ffff_ffff_ffff) {
        Some(v) => Some(v as i64),
        None => None,
    }
}

/// Reads `s` the way Rust reads an `i32`.
pub fn parse_i32(s: &str) -> (r: Option<i32>)
    ensures
        r == i32_value(s@),
{
    match parse_signed(s, 0x7fff_ffff) {
        Some(v) => Some(v as i32),
        None => None,
    }
}

/// The character of a digit value below 16, lowercase for 10 to 15.
pub open spec fn digit_char(d: nat) -> char {
    if d == 0 { '0' } else if d == 1 { '1' } else if d == 2 { '2' } else if d == 3 { '3' }
    else if d == 4 { '4' } else if d == 5 { '5' } else if d == 6 { '6' } else if d == 7 { '7' }
    else if d == 8 { '8' } else if d == 9 { '9' } else if d == 10 { 'a' } else if d == 11 { 'b' }
    else if d == 12 { 'c' } else if d == 13 { 'd' } else if d == 14 { 'e' } else { 'f' }
}

/// `n` in decimal, without leading zeros.
pub open spec fn decimal(n: nat) -> Seq<char>
    decreases n,
{
    if n < 10 {
        seq![digit_char(n)]
    } else {
        decimal(n / 10).push(digit_char(n % 10))
    }
}

/// `n` in lowercase hexadecimal, without leading zeros.
pub open spec fn hex(n: nat) -> Seq<char>
    decreases n,
{
    if n < 16 {
        seq![digit_char(n)]
    } else {
        hex(n / 16).push(digit_char(n % 16))
    }
}

/// The value of a lowercase hexadecimal digit, if `c` is one.
pub open spec fn hex_digit_value(c: char) -> Option<nat> {
    if '0' <= c <= '9' {
        Some((c as int - '0' as int) as nat)
    } else if 'a' <= c <= 'f' {
        Some((c as int - 'a' as int + 10) as nat)
    } else {
        None
    }
}

/// The value of a run of lowercase hexadecimal digits, if `s` is one.
pub open spec fn hex_value(s: Seq<char>) -> Option<nat>
    decreases s.len(),
{
    if s.len() == 0 {
        None
    } else if s.len() == 1 {
        hex_digit_value(s[0])
    } else {
        match (hex_value(s.drop_last()), hex_digit_value(s.last())) {
            (Some(v), Some(d)) => Some(v * 16 + d),
            _ => None,
        }
    }
}

/// A decimal digit's character is a digit of that value.
proof fn lemma_digit_char(d: nat)
    requires
        d < 10,
    ensures
        is_digit(digit_char(d)),
        digit_value(digit_char(d)) == d,
{
    if d == 0 { assert(digit_value('0') == 0); } else if d == 1 { assert(digit_value('1') == 1); }
    else if d == 2 { assert(digit_value('2') == 2); } else if d == 3 { assert(digit_value('3') == 3); }
    else if d == 4 { assert(digit_value('4') == 4); } else if d == 5 { assert(digit_value('5') == 5); }
    else if d == 6 { assert(digit_value('6') == 6); } else if d == 7 { assert(digit_value('7') == 7); }
    else if d == 8 { assert(digit_value('8') == 8); } else { assert(digit_value('9') == 9); }
}

/// Decimal text reads back as the number it was written from.
pub proof fn lemma_decimal_value(n: nat)
    ensures
        decimal(n).len() > 0,
        all_digits(decimal(n)),
        digits_value(decimal(n)) == n,
        int_value(decimal(n)) == Some(n as int),
    decreases n,
{
    lemma_digit_char(n % 10);
    if n >= 10 {
        lemma_decimal_value(n / 10);
        let s = decimal(n);
        assert(s.drop_last() =~= decimal(n / 10));
        assert forall|i: int| 0 <= i < s.len() implies is_digit(#[trigger] s[i]) by {
            if i < s.len() - 1 {
                assert(s[i] == decimal(n / 10)[i]);
            }
        }
        assert(s[0] == decimal(n / 10)[0]);
        assert(is_digit(s[0]));
        assert(s.last() == digit_char(n % 10));
        assert(digits_value(s) == digits_value(decimal(n / 10)) * 10 + digit_value(s.last()));
        assert((n / 10) * 10 + n % 10 == n);
        assert(s[0] != '-' && s[0] != '+');
    } else {
        assert(decimal(n).drop_last() =~= Seq::<char>::empty());
        assert(is_digit(decimal(n)[0]));
        assert(digits_value(decimal(n)) == digits_value(Seq::<char>::empty()) * 10 + digit_value(digit_char(n)));
        assert(decimal(n)[0] != '-' && decimal(n)[0] != '+');
    }
}

/// Hexadecimal text reads back as the number it was written from.
pub proof fn lemma_hex_value(n: nat)
    ensures
        hex(n).len() > 0,
        hex_value(hex(n)) == Some(n),
        !hex(n).contains(':'),
        !hex(n).contains('.'),
    decreases n,
{
    if n >= 16 {
        lemma_hex_value(n / 16);
        let s = hex(n);
        assert(s.drop_last() =~= hex(n / 16));
        assert(!s.contains(':')) by {
            if s.contains(':') {
                let i = choose|i: int| 0 <= i < s.len() && s[i] == ':';
                if i < s.len() - 1 {
                    assert(s[i] == hex(n / 16)[i]);
                }
            }
        }
        assert(!s.contains('.')) by {
            if s.contains('.') {
                let i = choose|i: int| 0 <= i < s.len() && s[i] == '.';
                if i < s.len() - 1 {
                    assert(s[i] == hex(n / 16)[i]);
                }
            }
        }
    } else {
        assert(!hex(n).contains(':')) by {
            if hex(n).contains(':') {
                let i = choose|i: int| 0 <= i < hex(n).len() && hex(n)[i] == ':';
                assert(i == 0);
            }
        }
        assert(!hex(n).contains('.')) by {
            if hex(n).contains('.') {
                let i = choose|i: int| 0 <= i < hex(n).len() && hex(n)[i] == '.';
                assert(i == 0);
            }
        }
    }
}

/// Decimal text holds no dot.
pub proof fn lemma_decimal_no_dot(n: nat)
    ensures
        !decimal(n).contains('.'),
{
    lemma_decimal_value(n);
    if decimal(n).contains('.') {
        let i = choose|i: int| 0 <= i < decimal(n).len() && decimal(n)[i] == '.';
        assert(is_digit(decimal(n)[i]));
    }
}

/// The character of a digit value below 16.
fn digit_of(d: u64) -> (c: char)
    requires
        d < 16,
    ensures
        c == digit_char(d as nat),
{
    if d == 0 { '0' } else if d == 1 { '1' } else if d == 2 { '2' } else if d == 3 { '3' }
    else if d == 4 { '4' } else if d == 5 { '5' } else if d == 6 { '6' } else if d == 7 { '7' }
    else if d == 8 { '8' } else if d == 9 { '9' } else if d == 10 { 'a' } else if d == 11 { 'b' }
    else if d == 12 { 'c' } else if d == 13 { 'd' } else if d == 14 { 'e' } else { 'f' }
}

/// Appends `n` in decimal to `out`.
pub fn push_decimal(out: &mut String, n: u64)
    ensures
        final(out)@ == old(out)@ + decimal(n as nat),
    decreases n,
{
    if n >= 10 {
        push_decimal(out, n / 10);
    }
    crate::text::push_char(out, digit_of(n % 10));
    proof {
        if n >= 10 {
            assert(old(out)@ + decimal(n as nat) =~= (old(out)@ + decimal((n / 10) as nat)).push(digit_char((n % 10) as nat)));
        } else {
            assert(old(out)@ + decimal(n as nat) =~= old(out)@.push(digit_char(n as nat)));
        }
    }
}

/// Appends `n` in lowercase hexadecimal to `out`.
pub fn push_hex(out: &mut String, n: u64)
    ensures
        final(out)@ == old(out)@ + hex(n as nat),
    decreases n,
{
    if n >= 16 {
        push_hex(out, n / 16);
    }
    crate::text::push_char(out, digit_of(n % 16));
    proof {
        if n >= 16 {
            assert(old(out)@ + hex(n as nat) =~= (old(out)@ + hex((n / 16) as nat)).push(digit_char((n % 16) as nat)));
        } else {
            assert(old(out)@ + hex(n as nat) =~= old(out)@.push(digit_char(n as nat)));
        }
    }
}

/// `n` in decimal.
pub fn decimal_text(n: u64) -> (r: String)
    ensures
        r@ == decimal(n as nat),
{
    let mut r = String::new();
    push_decimal(&mut r, n);
    assert(r@ =~= decimal(n as nat));
    r
}

/// Reads `s` as lowercase hexadecimal of at most `0xffff`.
pub fn parse_hex_u16(s: &str) -> (r: Option<u16>)
    ensures
        match hex_value(s@) {
            Some(v) => if v <= 0xffff {
                r == Some(v as u16)
            } else {
                r is None
            },
            None => r is None,
        },
{
    let n = s.unicode_len();
    if n == 0 {
        return None;
    }
    let mut value: u64 = 0;
    let mut i: usize = 0;
    while i < n
        invariant
            n == s@.len(),
            0 < n,
            i <= n,
            i > 0 ==> hex_value(s@.subrange(0, i as int)) == Some(value as nat),
            i == 0 ==> value == 0,
            value <= 0xffff,
        decreases n - i,
    {
        let c = s.get_char(i);
        let ghost prefix = s@.subrange(0, i + 1);
        assert(prefix.drop_last() =~= s@.subrange(0, i as int));
        assert(prefix.last() == c);
        let d: u64 = if '0' <= c && c <= '9' {
            (c as u32 - '0' as u32) as u64
        } else if 'a' <= c && c <= 'f' {
            (c as u32 - 'a' as u32 + 10) as u64
        } else {
            proof {
                lemma_hex_invalid_rest(s@, i as int);
            }
            return None;
        };
        if i > 0 && value > 0xfff {
            proof {
                lemma_hex_large_rest(s@, i as int, value as nat);
            }
            return None;
        }
        if i == 0 {
            assert(prefix =~= seq![c]);
        }
        value = value * 16 + d;
        i = i + 1;
    }
    assert(s@.subrange(0, n as int) =~= s@);
    Some(value as u16)
}

/// A text with a non-digit at `i` has no hexadecimal value.
proof fn lemma_hex_invalid_rest(s: Seq<char>, i: int)
    requires
        0 <= i < s.len(),
        hex_digit_value(s[i]) is None,
    ensures
        hex_value(s) is None,
    decreases s.len(),
{
    if s.len() > 1 && i < s.len() - 1 {
        assert(s.drop_last()[i] == s[i]);
        lemma_hex_invalid_rest(s.drop_last(), i);
    }
}

/// A prefix whose value exceeds `0xfff` leaves a longer text above `0xffff`,
/// or with no value.
proof fn lemma_hex_large_rest(s: Seq<char>, i: int, v: nat)
    requires
        0 < i < s.len(),
        hex_value(s.subrange(0, i)) == Some(v),
        v > 0xfff,
    ensures
        match hex_value(s) {
            Some(w) => w > 0xffff,
            None => true,
        },
    decreases s.len(),
{
    if s.len() - 1 > i {
        assert(s.drop_last().subrange(0, i) =~= s.subrange(0, i));
        lemma_hex_large_rest(s.drop_last(), i, v);
        assert(s.drop_last().len() > 1);
    } else {
        assert(s.drop_last() =~= s.subrange(0, i));
    }
}

/// What reading `s` as plain decimal digits gives, where it fits in `u64`.
pub open spec fn u64_value(s: Seq<char>) -> Option<u64> {
    if s.len() > 0 && all_digits(s) && digits_value(s) <= u64::MAX {
        Some(digits_value(s) as u64)
    } else {
        None
    }
}

/// Reads `s` as plain decimal digits into a `u64`.
pub fn read_u64(s: &str) -> (r: Option<u64>)
    ensures
        r == u64_value(s@),
{
    let r = read_digits(s, 0, u64::MAX);
    assert(s@.subrange(0, s@.len() as int) =~= s@);
    r
}

} // verus!
