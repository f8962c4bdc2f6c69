//! Number formatting used in diagnostics and entity tags: lower-case
//! hexadecimal (optionally zero-padded) and decimal renderings.

use vstd::prelude::*;
use vstd::string::{StrSliceExecFns, StringExecFns};
use crate::text::push_char;

verus! {

/// The character for one digit value below 16 (`0-9`, then `a-f`).
pub open spec fn digit_char(d: nat) -> char {
    if d < 10 {
        (48 + d) as char
    } else {
        (87 + d) as char
    }
}

/// Digits of `v` in base `base` (most significant first), as `{:x}` or
/// `{}` renders an unsigned integer: no leading zeros, `0` for zero.
pub open spec fn digits(v: nat, base: nat) -> Seq<char>
    recommends
        2 <= base <= 16,
    decreases v,
{
    if base < 2 || v < base {
        seq![digit_char(v % 16)]
    } else {
        proof {
            assert(v / base < v) by (nonlinear_arith)
                requires
                    v >= base,
                    base >= 2,
            ;
        }
        digits(v / base, base).push(digit_char(v % base))
    }
}

/// Lower-case hexadecimal rendering of `v`, as `format!("{:x}", v)`.
pub open spec fn hex(v: nat) -> Seq<char> {
    digits(v, 16)
}

/// Decimal rendering of `v`, as `format!("{}", v)`.
pub open spec fn decimal(v: nat) -> Seq<char> {
    digits(v, 10)
}

/// `s` left-padded with `'0'` to at least `width` characters, as `{:0w}`.
pub open spec fn zero_pad(s: Seq<char>, width: nat) -> Seq<char> {
    if s.len() >= width {
        s
    } else {
        Seq::new((width - s.len()) as nat, |i: int| '0') + s
    }
}

fn digit_to_char(d: u64) -> (c: char)
    requires
        d < 16,
    ensures
        c == digit_char(d as nat),
{
    let b: u8 = if d < 10 {
        48 + d as u8
    } else {
        87 + d as u8
    };
    b as char
}

/// Append the base-`base` digits of `v` to `s`.
fn push_digits(s: &mut String, v: u64, base: u64)
    requires
        2 <= base <= 16,
    ensures
        final(s)@ == old(s)@ + digits(v as nat, base as nat),
    decreases v,
{
    if v >= base {
        proof {
            assert(v / base < v) by (nonlinear_arith)
                requires
                    v >= base,
                    base >= 2,
            ;
        }
        push_digits(s, v / base, base);
        let d = v % base;
        push_char(s, digit_to_char(d));
        proof {
            assert(old(s)@ + digits(v as nat, base as nat) =~= old(s)@ + digits(
                (v / base) as nat,
                base as nat,
            ) + seq![digit_char((v % base) as nat)]);
        }
    } else {
        push_char(s, digit_to_char(v % 16));
        proof {
            assert(old(s)@ + digits(v as nat, base as nat) =~= old(s)@.push(
                digit_char((v % 16) as nat),
            ));
        }
    }
}

/// Append the base-`base` digits of `v`, left-padded with zeros to
/// `width` characters.
fn push_padded(s: &mut String, v: u64, base: u64, width: usize)
    requires
        2 <= base <= 16,
    ensures
        final(s)@ == old(s)@ + zero_pad(digits(v as nat, base as nat), width as nat),
{
    let mut rendered = String::new();
    push_digits(&mut rendered, v, base);
    proof {
        assert(rendered@ =~= digits(v as nat, base as nat));
    }
    let n = rendered.as_str().unicode_len();
    let ghost start = s@;
    if n < width {
        let mut k: usize = 0;
        while k < width - n
            invariant
                k <= width - n,
                s@ == start + Seq::new(k as nat, |i: int| '0'),
            decreases width - n - k,
        {
            push_char(s, '0');
            k += 1;
            proof {
                assert(s@ =~= start + Seq::new(k as nat, |i: int| '0'));
            }
        }
    }
    s.append(rendered.as_str());
    proof {
        assert(s@ =~= start + zero_pad(digits(v as nat, base as nat), width as nat));
    }
}

/// Append `v` in lower-case hexadecimal, zero-padded to `width` characters.
pub fn push_hex(s: &mut String, v: u64, width: usize)
    ensures
        final(s)@ == old(s)@ + zero_pad(hex(v as nat), width as nat),
{
    push_padded(s, v, 16, width);
}

/// Append `v` in decimal, zero-padded to `width` characters.
pub fn push_decimal_padded(s: &mut String, v: u64, width: usize)
    ensures
        final(s)@ == old(s)@ + zero_pad(decimal(v as nat), width as nat),
{
    push_padded(s, v, 10, width);
}

/// Append `v` in decimal.
pub fn push_decimal(s: &mut String, v: u64)
    ensures
        final(s)@ == old(s)@ + decimal(v as nat),
{
    push_digits(s, v, 10);
}


/// The value of a hexadecimal digit character.
pub open spec fn hex_digit_value(c: char) -> int {
    if (c as int) < 58 {
        c as int - 48
    } else {
        c as int - 87
    }
}

/// The value of a string of hexadecimal digits, most significant first.
pub open spec fn hex_value(s: Seq<char>) -> int
    decreases s.len(),
{
    if s.len() == 0 {
        0
    } else {
        hex_value(s.drop_last()) * 16 + hex_digit_value(s.last())
    }
}

/// The hexadecimal rendering of `v` is a non-empty string of the digits
/// `0-9` and `a-f` whose value is `v`.
pub proof fn lemma_hex_renders_value(v: nat)
    ensures
        hex(v).len() >= 1,
        hex_value(hex(v)) == v,
        forall|i: int|
            0 <= i < hex(v).len() ==> (48 <= (#[trigger] hex(v)[i]) as int <= 57 || 97 <= hex(v)[i] as int <= 102),
    decreases v,
{
    if v < 16 {
        let c = digit_char(v % 16);
        assert(hex(v) == seq![c]);
        assert(seq![c].drop_last() =~= Seq::<char>::empty());
        assert(hex_value(Seq::<char>::empty()) == 0);
        assert(hex_digit_value(c) == v);
        assert(hex_value(seq![c]) == hex_value(seq![c].drop_last()) * 16 + hex_digit_value(c));
    } else {
        assert(v / 16 < v);
        lemma_hex_renders_value(v / 16);
        let c = digit_char(v % 16);
        assert(hex(v) == hex(v / 16).push(c));
        assert(hex(v).drop_last() =~= hex(v / 16));
        assert(v == (v / 16) * 16 + v % 16);
        assert(hex_digit_value(c) == v % 16);
        assert(hex_value(hex(v)) == hex_value(hex(v / 16)) * 16 + hex_digit_value(c));
        assert forall|i: int| 0 <= i < hex(v).len() implies (48 <= (#[trigger] hex(v)[i]) as int <= 57 || 97
            <= hex(v)[i] as int <= 102) by {
            if i < hex(v / 16).len() {
                assert(hex(v)[i] == hex(v / 16)[i]);
            }
        }
    }
}

/// Distinct numbers have distinct hexadecimal renderings.
pub proof fn lemma_hex_injective(v: nat, w: nat)
    requires
        hex(v) == hex(w),
    ensures
        v == w,
{
    lemma_hex_renders_value(v);
    lemma_hex_renders_value(w);
}

} // verus!
