use vstd::arithmetic::div_mod::{lemma_mod_breakdown, lemma_small_mod};
use vstd::prelude::*;

verus! {

/// Sixteen to the power `k`.
pub open spec fn p16(k: nat) -> int
    decreases k,
{
    if k == 0 {
        1int
    } else {
        16 * p16((k - 1) as nat)
    }
}

pub proof fn lemma_p16_pos(k: nat)
    ensures
        p16(k) >= 1,
    decreases k,
{
    if k > 0 {
        lemma_p16_pos((k - 1) as nat);
    }
}

pub proof fn lemma_p16_mono(a: nat, b: nat)
    requires
        a <= b,
    ensures
        p16(a) <= p16(b),
    decreases b,
{
    if a < b {
        lemma_p16_mono(a, (b - 1) as nat);
        lemma_p16_pos((b - 1) as nat);
    }
}

/// The value of sixteen hexadecimal digits is the full 64-bit space.
pub proof fn lemma_p16_16()
    ensures
        p16(16) == 0x1_0000_0000_0000_0000,
{
    reveal_with_fuel(p16, 17);
}

/// The lowercase hexadecimal digit byte for a value below sixteen.
pub open spec fn hex_byte_of(d: int) -> u8 {
    if d < 10 {
        (0x30 + d) as u8
    } else {
        (0x57 + d) as u8
    }
}

/// Whether a byte is a lowercase hexadecimal digit.
pub open spec fn is_hex_byte(b: u8) -> bool {
    (0x30 <= b <= 0x39) || (0x61 <= b <= 0x66)
}

/// The numeric value of a lowercase hexadecimal digit byte.
pub open spec fn hex_val_of(b: u8) -> int {
    if b <= 0x39 {
        b - 0x30
    } else {
        b - 0x57
    }
}

/// The `count` trailing lowercase hexadecimal digits of `n`, most
/// significant digit first.
pub open spec fn hex_digits(n: int, count: nat) -> Seq<u8>
    decreases count,
{
    if count == 0 {
        Seq::empty()
    } else {
        hex_digits(n / 16, (count - 1) as nat).push(hex_byte_of(n % 16))
    }
}

/// The value of a big-endian sequence of hexadecimal digit bytes.
pub open spec fn hex_value(s: Seq<u8>) -> int
    decreases s.len(),
{
    if s.len() == 0 {
        0int
    } else {
        hex_value(s.drop_last()) * 16 + hex_val_of(s.last())
    }
}

pub proof fn lemma_hex_digits_shape(n: int, count: nat)
    requires
        n >= 0,
    ensures
        hex_digits(n, count).len() == count,
        forall|i: int|
            0 <= i < count ==> is_hex_byte(#[trigger] hex_digits(n, count)[i]),
    decreases count,
{
    if count > 0 {
        lemma_hex_digits_shape(n / 16, (count - 1) as nat);
        assert(0 <= n % 16 < 16);
        assert(is_hex_byte(hex_byte_of(n % 16)));
    }
}

/// Reading back the digits of `n` recovers `n` modulo the width encoded.
pub proof fn lemma_hex_digits_value(n: int, count: nat)
    requires
        n >= 0,
    ensures
        hex_value(hex_digits(n, count)) == n % p16(count),
    decreases count,
{
    if count == 0 {
        assert(n % 1 == 0) by {
            lemma_small_mod(0, 1);
            assert(n % 1 == (n - n * 1) % 1) by {
                vstd::arithmetic::div_mod::lemma_mod_multiples_vanish(n, 0, 1);
            }
        }
    } else {
        let c1 = (count - 1) as nat;
        lemma_hex_digits_value(n / 16, c1);
        lemma_hex_digits_shape(n / 16, c1);
        let s = hex_digits(n, count);
        assert(s.drop_last() =~= hex_digits(n / 16, c1));
        assert(s.last() == hex_byte_of(n % 16));
        assert(0 <= n % 16 < 16);
        assert(hex_val_of(hex_byte_of(n % 16)) == n % 16);
        lemma_p16_pos(c1);
        lemma_mod_breakdown(n, 16, p16(c1));
        assert(n % (16 * p16(c1)) == 16 * ((n / 16) % p16(c1)) + n % 16);
        assert(hex_value(s) == ((n / 16) % p16(c1)) * 16 + n % 16);
        assert(16 * ((n / 16) % p16(c1)) == ((n / 16) % p16(c1)) * 16) by {
            vstd::arithmetic::mul::lemma_mul_is_commutative(16, (n / 16) % p16(c1));
        }
    }
}

/// The value of hexadecimal digit bytes is bounded by the width.
pub proof fn lemma_hex_value_bound(s: Seq<u8>)
    requires
        forall|i: int| 0 <= i < s.len() ==> is_hex_byte(#[trigger] s[i]),
    ensures
        0 <= hex_value(s) < p16(s.len() as nat),
    decreases s.len(),
{
    if s.len() == 0 {
    } else {
        let d = s.drop_last();
        assert(forall|i: int| 0 <= i < d.len() ==> is_hex_byte(#[trigger] d[i]));
        lemma_hex_value_bound(d);
        assert(is_hex_byte(s.last()));
        assert(0 <= hex_val_of(s.last()) < 16);
        let h = hex_value(d);
        let pl = p16(d.len() as nat);
        assert(h * 16 <= (pl - 1) * 16) by {
            vstd::arithmetic::mul::lemma_mul_inequality(h, pl - 1, 16);
        }
        assert(p16(s.len() as nat) == 16 * pl);
        assert((pl - 1) * 16 == 16 * pl - 16) by {
            vstd::arithmetic::mul::lemma_mul_is_distributive_sub_other_way(16, pl, 1);
        }
    }
}

/// The lowercase hexadecimal digit byte for a value below sixteen.
pub fn hex_byte(d: u8) -> (r: u8)
    requires
        d < 16,
    ensures
        r == hex_byte_of(d as int),
{
    if d < 10 {
        0x30 + d
    } else {
        0x57 + d
    }
}

/// Whether a byte is a lowercase hexadecimal digit.
pub fn is_hex(b: u8) -> (r: bool)
    ensures
        r == is_hex_byte(b),
{
    (0x30 <= b && b <= 0x39) || (0x61 <= b && b <= 0x66)
}

/// The `count` trailing lowercase hexadecimal digits of `n`, most
/// significant digit first.
pub fn hex_digits_of(n: u64, count: usize) -> (r: Vec<u8>)
    ensures
        r@ == hex_digits(n as int, count as nat),
    decreases count,
{
    if count == 0 {
        Vec::new()
    } else {
        let mut v = hex_digits_of(n / 16, count - 1);
        v.push(hex_byte((n % 16) as u8));
        v
    }
}

/// Parses the sixteen hexadecimal digit bytes at `start`, most significant
/// first, or reports that some byte there is not a hexadecimal digit.
pub fn parse_hex16(v: &Vec<u8>, start: usize) -> (r: Option<u64>)
    requires
        start + 16 <= v@.len(),
    ensures
        ({
            let w = v@.subrange(start as int, start as int + 16);
            match r {
                Some(n) => (forall|i: int| 0 <= i < 16 ==> is_hex_byte(#[trigger] w[i])) && n as int
                    == hex_value(w),
                None => !(forall|i: int| 0 <= i < 16 ==> is_hex_byte(#[trigger] w[i])),
            }
        }),
{
    let ghost w = v@.subrange(start as int, start as int + 16);
    let n = v.len();
    let mut acc: u64 = 0;
    let mut j: usize = 0;
    while j < 16
        invariant
            n == v@.len(),
            start + 16 <= v@.len(),
            0 <= j <= 16,
            w == v@.subrange(start as int, start as int + 16),
            forall|i: int| 0 <= i < j ==> is_hex_byte(#[trigger] w[i]),
            acc as int == hex_value(w.take(j as int)),
        decreases 16 - j,
    {
        let b = v[start + j];
        assert(b == w[j as int]);
        if !is_hex(b) {
            return None;
        }
        let d: u8 = if b <= 0x39 {
            b - 0x30
        } else {
            b - 0x57
        };
        assert(d as int == hex_val_of(b));
        proof {
            lemma_hex_value_bound(w.take(j as int));
            lemma_p16_mono(j as nat, 15);
            lemma_p16_16();
            assert(p16(15) == 0x1000_0000_0000_0000) by {
                reveal_with_fuel(p16, 17);
            }
            assert(acc as int * 16 + d < 0x1_0000_0000_0000_0000) by {
                vstd::arithmetic::mul::lemma_mul_inequality(
                    acc as int,
                    0x1000_0000_0000_0000 - 1,
                    16,
                );
            }
        }
        acc = acc * 16 + d as u64;
        proof {
            assert(w.take(j + 1int).drop_last() =~= w.take(j as int));
            assert(w.take(j + 1int).last() == w[j as int]);
        }
        j += 1;
    }
    assert(w.take(16int) =~= w);
    Some(acc)
}

} // verus!
