//! Numbers held between bounds, and written in decimal and in hexadecimal.
use vstd::prelude::*;

verus! {

/// A number held between two others.
pub open spec fn held(n: int, low: int, high: int) -> int {
    if n < low {
        low
    } else if n > high {
        high
    } else {
        n
    }
}

/// The decimal digit `n`.
pub open spec fn digit(n: nat) -> char {
    ('0' as int + n) as char
}

/// `n` in decimal, without leading zeros.
pub open spec fn decimal(n: nat) -> Seq<char>
    decreases n,
{
    if n < 10 {
        seq![digit(n)]
    } else {
        decimal(n / 10).push(digit(n % 10))
    }
}

/// `n` in decimal, with a leading zero where it has one digit only.
pub open spec fn two_digits(n: nat) -> Seq<char> {
    if n < 10 {
        seq!['0', digit(n)]
    } else {
        decimal(n)
    }
}

/// The hexadecimal digit `n`, in lower case.
pub open spec fn hex_digit(n: nat) -> char {
    if n < 10 {
        digit(n)
    } else {
        ('a' as int + (n - 10)) as char
    }
}

/// The last `width` hexadecimal digits of `n`, the leading zeros kept.
pub open spec fn hex(n: nat, width: nat) -> Seq<char>
    decreases width,
{
    if width == 0 {
        Seq::empty()
    } else {
        hex(n / 16, (width - 1) as nat).push(hex_digit(n % 16))
    }
}

/// The number of values that `width` hexadecimal digits can write.
pub open spec fn hex_range(width: nat) -> nat
    decreases width,
{
    if width == 0 {
        1
    } else {
        16 * hex_range((width - 1) as nat)
    }
}

/// `n` in decimal.
pub fn decimal_text(n: u64) -> (r: String)
    ensures
        r@ == decimal(n as nat),
    decreases n,
{
    if n < 10 {
        let mut r = String::new();
        r.push(('0' as u8 + n as u8) as char);
        proof {
            assert(r@ =~= seq![digit(n as nat)]);
        }
        r
    } else {
        let mut r = decimal_text(n / 10);
        r.push(('0' as u8 + (n % 10) as u8) as char);
        r
    }
}

/// `n` in decimal, with a leading zero where it has one digit only.
pub fn two_digit_text(n: u64) -> (r: String)
    ensures
        r@ == two_digits(n as nat),
{
    if n < 10 {
        let mut r = String::new();
        r.push('0');
        r.push(('0' as u8 + n as u8) as char);
        proof {
            assert(r@ =~= seq!['0', digit(n as nat)]);
        }
        r
    } else {
        decimal_text(n)
    }
}

/// The last `width` hexadecimal digits of `n`, the leading zeros kept.
pub fn hex_text(n: u64, width: usize) -> (r: String)
    ensures
        r@ == hex(n as nat, width as nat),
    decreases width,
{
    if width == 0 {
        String::new()
    } else {
        let mut r = hex_text(n / 16, width - 1);
        let low: u8 = (n % 16) as u8;
        r.push(
            if low < 10 {
                ('0' as u8 + low) as char
            } else {
                ('a' as u8 + (low - 10)) as char
            },
        );
        r
    }
}

/// `width` hexadecimal digits are `width` characters.
pub proof fn lemma_hex_length(n: nat, width: nat)
    ensures
        hex(n, width).len() == width,
    decreases width,
{
    if width > 0 {
        lemma_hex_length(n / 16, (width - 1) as nat);
    }
}

/// Two numbers that fit into `width` hexadecimal digits and are written alike
/// are equal.
pub proof fn lemma_hex_injective(a: nat, b: nat, width: nat)
    requires
        a < hex_range(width),
        b < hex_range(width),
        hex(a, width) == hex(b, width),
    ensures
        a == b,
    decreases width,
{
    if width > 0 {
        let rest = (width - 1) as nat;
        lemma_hex_length(a / 16, rest);
        lemma_hex_length(b / 16, rest);
        assert(hex(a, width).drop_last() =~= hex(a / 16, rest));
        assert(hex(b, width).drop_last() =~= hex(b / 16, rest));
        assert(hex(a, width).last() == hex_digit(a % 16));
        assert(hex(b, width).last() == hex_digit(b % 16));
        lemma_hex_injective(a / 16, b / 16, rest);
    }
}

// ---------------------------------------------------------------------------
// Reading numbers back
// ---------------------------------------------------------------------------

/// The number that decimal digits write.
pub open spec fn read_decimal(text: Seq<char>) -> int
    decreases text.len(),
{
    if text.len() == 0 {
        0
    } else {
        10 * read_decimal(text.drop_last()) + (text.last() as int - '0' as int)
    }
}

/// The number that hexadecimal digits write.
pub open spec fn read_hex(text: Seq<char>) -> int
    decreases text.len(),
{
    if text.len() == 0 {
        0
    } else {
        let last = text.last();
        16 * read_hex(text.drop_last()) + if '0' <= last <= '9' {
            last as int - '0' as int
        } else {
            last as int - 'a' as int + 10
        }
    }
}

/// A number in decimal is made of digits, without a zero at its start unless it is
/// zero, and is read back. So different numbers are written differently.
pub proof fn law_decimal_is_read_back(n: nat)
    ensures
        decimal(n).len() > 0,
        forall|i: int| 0 <= i < decimal(n).len() ==> '0' <= #[trigger] decimal(n)[i] <= '9',
        decimal(n)[0] == '0' ==> n == 0 && decimal(n).len() == 1,
        read_decimal(decimal(n)) == n,
    decreases n,
{
    reveal_with_fuel(read_decimal, 2);
    let text = decimal(n);
    if n >= 10 {
        law_decimal_is_read_back(n / 10);
        let rest = decimal(n / 10);
        assert(text.drop_last() =~= rest);
        assert forall|i: int| 0 <= i < text.len() implies '0' <= #[trigger] text[i] <= '9' by {
            if i < rest.len() {
                assert(text[i] == rest[i]);
            }
        }
        assert(text[0] == rest[0]);
    } else {
        assert(text.drop_last() =~= Seq::empty());
    }
}

/// Different numbers are written differently.
pub proof fn law_decimal_tells_numbers_apart(a: nat, b: nat)
    ensures
        decimal(a) == decimal(b) ==> a == b,
{
    law_decimal_is_read_back(a);
    law_decimal_is_read_back(b);
}

/// What is written for a number in decimal is read back as that number, and is made
/// of digits without leading zeros.
pub proof fn law_decimal_text(n: u64, r: String)
    requires
        call_ensures(decimal_text, (n,), r),
    ensures
        read_decimal(r@) == n,
        forall|i: int| 0 <= i < r@.len() ==> '0' <= #[trigger] r@[i] <= '9',
        r@.len() > 1 ==> r@[0] != '0',
        r@.len() > 0,
{
    law_decimal_is_read_back(n as nat);
}

/// What is written for a number with two digits is read back as that number. It has
/// two digits where the number has no more.
pub proof fn law_two_digit_text(n: u64, r: String)
    requires
        call_ensures(two_digit_text, (n,), r),
    ensures
        read_decimal(r@) == n,
        forall|i: int| 0 <= i < r@.len() ==> '0' <= #[trigger] r@[i] <= '9',
        n < 100 ==> r@.len() == 2,
        n >= 100 ==> r@[0] != '0',
{
    law_decimal_is_read_back(n as nat);
    reveal_with_fuel(read_decimal, 3);
    if n < 10 {
        assert(r@.drop_last() =~= seq!['0']);
        assert(r@.drop_last().drop_last() =~= Seq::empty());
    } else if n < 100 {
        assert(decimal((n / 10) as nat).len() == 1);
    }
}

/// What is written for a number in hexadecimal has the wanted number of digits, in
/// lower case, and is read back as the number modulo what these can write.
pub proof fn law_hex_text(n: u64, width: usize, r: String)
    requires
        call_ensures(hex_text, (n, width), r),
    ensures
        r@.len() == width,
        forall|i: int|
            0 <= i < r@.len() ==> ('0' <= #[trigger] r@[i] <= '9' || 'a' <= r@[i] <= 'f'),
        n < hex_range(width as nat) ==> read_hex(r@) == n,
{
    lemma_hex_length(n as nat, width as nat);
    lemma_hex_read(n as nat, width as nat);
}

/// Hexadecimal digits are read back.
pub proof fn lemma_hex_read(n: nat, width: nat)
    ensures
        forall|i: int|
            0 <= i < hex(n, width).len() ==> ('0' <= #[trigger] hex(n, width)[i] <= '9' || 'a'
                <= hex(n, width)[i] <= 'f'),
        n < hex_range(width) ==> read_hex(hex(n, width)) == n,
    decreases width,
{
    if width > 0 {
        let text = hex(n, width);
        let rest = hex(n / 16, (width - 1) as nat);
        lemma_hex_read(n / 16, (width - 1) as nat);
        assert(text.drop_last() =~= rest);
        assert forall|i: int| 0 <= i < text.len() implies ('0' <= #[trigger] text[i] <= '9' || 'a'
            <= text[i] <= 'f') by {
            if i < rest.len() {
                assert(text[i] == rest[i]);
            }
        }
    }
}

/// A number held between two others is the nearest to it of those between.
pub proof fn law_held_is_nearest(n: int, low: int, high: int, other: int)
    requires
        low <= high,
        low <= other <= high,
    ensures
        low <= held(n, low, high) <= high,
        n <= other ==> n <= held(n, low, high) <= other || held(n, low, high) == n,
        other <= n ==> other <= held(n, low, high) <= n || held(n, low, high) == n,
        low <= n <= high ==> held(n, low, high) == n,
{
}

} // verus!
