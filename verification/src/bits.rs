//! Bits, most significant first: how integers and bytes are laid out in a bit stream.
use vstd::arithmetic::power2;
use vstd::prelude::*;

verus! {

/// `value` in `width` bits, most significant bit first. A value that needs more bits loses its
/// high ones.
pub open spec fn field(width: nat, value: nat) -> Seq<bool>
    decreases width,
{
    if width == 0 {
        Seq::empty()
    } else {
        field((width - 1) as nat, value / 2).push(value % 2 == 1)
    }
}

/// The integer that `bits` spell, most significant bit first.
pub open spec fn bits_value(bits: Seq<bool>) -> nat
    decreases bits.len(),
{
    if bits.len() == 0 {
        0
    } else {
        2 * bits_value(bits.drop_last()) + if bits.last() { 1nat } else { 0nat }
    }
}

/// `value` can be written in `width` bits without loss.
pub open spec fn fits(width: nat, value: nat) -> bool {
    value < power2::pow2(width)
}

/// `count` copies of `bit`.
pub open spec fn fill(bit: bool, count: nat) -> Seq<bool> {
    Seq::new(count, |i: int| bit)
}

/// The bits of `bytes`, byte after byte.
pub open spec fn bits_of(bytes: Seq<u8>) -> Seq<bool> {
    Seq::new(8 * bytes.len(), |i: int| field(8, bytes[i / 8] as nat)[i % 8])
}

/// The whole bytes in `bits`; up to seven bits at the end are left out.
pub open spec fn bytes_of(bits: Seq<bool>) -> Seq<u8> {
    Seq::new(bits.len() / 8, |i: int| bits_value(bits.subrange(8 * i, 8 * i + 8)) as u8)
}

/// The integer in the `width` bits of `bits` from `from` on.
pub open spec fn value_at(bits: Seq<bool>, from: int, width: nat) -> nat {
    bits_value(bits.subrange(from, from + width))
}

/// How many units bring `len` up to a multiple of `unit`.
pub open spec fn padding_len(len: nat, unit: nat) -> nat {
    ((unit - len % unit) % unit as int) as nat
}

pub proof fn lemma_field_len(width: nat, value: nat)
    ensures
        field(width, value).len() == width,
    decreases width,
{
    if width > 0 {
        lemma_field_len((width - 1) as nat, value / 2);
    }
}

/// Reading a field gives back the value that was written into it.
pub proof fn lemma_field_value(width: nat, value: nat)
    requires
        fits(width, value),
    ensures
        bits_value(field(width, value)) == value,
    decreases width,
{
    if width == 0 {
        power2::lemma2_to64();
    } else {
        power2::lemma_pow2_unfold(width);
        lemma_field_len((width - 1) as nat, value / 2);
        lemma_field_value((width - 1) as nat, value / 2);
        assert(field(width, value).drop_last() =~= field((width - 1) as nat, value / 2));
    }
}

/// Writing the value of some bits gives back those bits.
pub proof fn lemma_value_field(bits: Seq<bool>)
    ensures
        fits(bits.len(), bits_value(bits)),
        field(bits.len(), bits_value(bits)) == bits,
    decreases bits.len(),
{
    if bits.len() == 0 {
        power2::lemma2_to64();
        assert(field(bits.len(), bits_value(bits)) =~= bits);
    } else {
        power2::lemma_pow2_unfold(bits.len());
        lemma_value_field(bits.drop_last());
        assert(bits_value(bits) / 2 == bits_value(bits.drop_last()));
        assert(field(bits.len(), bits_value(bits)) =~= bits.drop_last().push(bits.last()));
        assert(bits.drop_last().push(bits.last()) =~= bits);
    }
}

pub proof fn lemma_field_zero(width: nat)
    ensures
        field(width, 0) == fill(false, width),
    decreases width,
{
    if width > 0 {
        lemma_field_zero((width - 1) as nat);
        assert(field(width, 0) =~= fill(false, width));
    } else {
        assert(field(width, 0) =~= fill(false, width));
    }
}

pub proof fn lemma_bits_of_concat(a: Seq<u8>, b: Seq<u8>)
    ensures
        bits_of(a + b) == bits_of(a) + bits_of(b),
{
    assert forall|i: int| 0 <= i < 8 * (a + b).len() implies bits_of(a + b)[i] == (bits_of(a)
        + bits_of(b))[i] by {
        if i >= 8 * a.len() {
            let j = i - 8 * a.len();
            assert(j / 8 == i / 8 - a.len() && j % 8 == i % 8);
        }
    }
    assert(bits_of(a + b) =~= bits_of(a) + bits_of(b));
}

pub proof fn lemma_bits_of_subrange(s: Seq<u8>, i: int, j: int)
    requires
        0 <= i <= j <= s.len(),
    ensures
        bits_of(s.subrange(i, j)) == bits_of(s).subrange(8 * i, 8 * j),
{
    let part = s.subrange(i, j);
    assert forall|k: int| 0 <= k < 8 * part.len() implies bits_of(part)[k] == bits_of(s).subrange(
        8 * i,
        8 * j,
    )[k] by {
        assert((8 * i + k) / 8 == i + k / 8 && (8 * i + k) % 8 == k % 8);
    }
    assert(bits_of(part) =~= bits_of(s).subrange(8 * i, 8 * j));
}

/// The bits of one byte, as a field.
pub proof fn lemma_bits_of_byte(s: Seq<u8>, i: int)
    requires
        0 <= i < s.len(),
    ensures
        bits_of(s).subrange(8 * i, 8 * i + 8) == field(8, s[i] as nat),
        value_at(bits_of(s), 8 * i, 8) == s[i],
{
    lemma_field_len(8, s[i] as nat);
    power2::lemma2_to64();
    lemma_field_value(8, s[i] as nat);
    assert forall|k: int| 0 <= k < 8 implies bits_of(s).subrange(8 * i, 8 * i + 8)[k] == field(
        8,
        s[i] as nat,
    )[k] by {
        assert((8 * i + k) / 8 == i && (8 * i + k) % 8 == k);
    }
    assert(bits_of(s).subrange(8 * i, 8 * i + 8) =~= field(8, s[i] as nat));
}

/// Bytes survive the way to bits and back, whatever bits follow them.
pub proof fn lemma_bytes_of_bits_of(s: Seq<u8>, tail: Seq<bool>)
    ensures
        bytes_of(bits_of(s) + tail) == s + bytes_of(tail),
{
    let all = bits_of(s) + tail;
    assert(all.len() / 8 == s.len() + tail.len() / 8);
    assert forall|i: int| 0 <= i < all.len() / 8 implies bytes_of(all)[i] == (s + bytes_of(
        tail,
    ))[i] by {
        if i < s.len() {
            lemma_bits_of_byte(s, i);
            assert(all.subrange(8 * i, 8 * i + 8) =~= bits_of(s).subrange(8 * i, 8 * i + 8));
        } else {
            let j = i - s.len();
            assert(all.subrange(8 * i, 8 * i + 8) =~= tail.subrange(8 * j, 8 * j + 8));
        }
    }
    assert(bytes_of(all) =~= s + bytes_of(tail));
}

/// Whole bytes of bits survive the way to bytes and back.
pub proof fn lemma_bits_of_bytes_of(bits: Seq<bool>)
    requires
        bits.len() % 8 == 0,
    ensures
        bits_of(bytes_of(bits)) == bits,
{
    let bytes = bytes_of(bits);
    assert forall|k: int| 0 <= k < bits.len() implies bits_of(bytes)[k] == bits[k] by {
        let i = k / 8;
        let byte = bits.subrange(8 * i, 8 * i + 8);
        lemma_value_field(byte);
        power2::lemma2_to64();
        assert(bytes[i] == bits_value(byte));
        assert(byte[k % 8] == bits[k]);
    }
    assert(bits_of(bytes) =~= bits);
}

/// Distinct byte strings have distinct bits.
pub proof fn lemma_bits_of_injective(a: Seq<u8>, b: Seq<u8>)
    requires
        bits_of(a) == bits_of(b),
    ensures
        a == b,
{
    let none = Seq::<bool>::empty();
    lemma_bytes_of_bits_of(a, none);
    lemma_bytes_of_bits_of(b, none);
    assert(bytes_of(none) =~= Seq::empty());
    assert(a + bytes_of(none) =~= a);
    assert(b + bytes_of(none) =~= b);
}

/// What comes before a whole number of units needs no padding of its own.
pub proof fn lemma_padding_offset(base: nat, len: nat)
    requires
        base % 8 == 0,
    ensures
        padding_len(base + len, 8) == padding_len(len, 8),
{
}

/// Padding is what is missing to a whole number of units, and less than a unit.
pub proof fn lemma_padding_len(len: nat, unit: nat, missing: nat)
    requires
        unit > 0,
    ensures
        padding_len(len, unit) < unit,
        (len + padding_len(len, unit)) % unit == 0,
        missing < unit && (len + missing) % unit == 0 ==> padding_len(len, unit) == missing,
{
    let u = unit as int;
    let r = len as int % u;
    let q = len as int / u;
    vstd::arithmetic::div_mod::lemma_fundamental_div_mod(len as int, u);
    let padding = padding_len(len, unit) as int;
    assert((q + 1) * u == u * q + u) by (nonlinear_arith);
    assert(q * u == u * q) by (nonlinear_arith);
    if r == 0 {
        vstd::arithmetic::div_mod::lemma_mod_self_0(u);
        assert(padding == 0);
    } else {
        vstd::arithmetic::div_mod::lemma_small_mod((u - r) as nat, unit);
        assert(padding == u - r);
        vstd::arithmetic::div_mod::lemma_fundamental_div_mod_converse(len + padding, u, q + 1, 0);
    }
    if missing < unit && (len + missing) % unit == 0 {
        if r + missing < u {
            vstd::arithmetic::div_mod::lemma_fundamental_div_mod_converse(
                (len + missing) as int,
                u,
                q,
                r + missing,
            );
        } else {
            vstd::arithmetic::div_mod::lemma_fundamental_div_mod_converse(
                (len + missing) as int,
                u,
                q + 1,
                r + missing - u,
            );
        }
    }
}

/// Padding to bytes and then to words of four bytes is padding to words.
pub proof fn lemma_padding_steps(len: nat)
    ensures
        (len + padding_len(len, 8)) % 8 == 0,
        padding_len(len, 8) + padding_len(len + padding_len(len, 8), 32) == padding_len(len, 32),
{
    lemma_padding_len(len, 8, 0);
    let bytes = len + padding_len(len, 8);
    lemma_padding_len(bytes, 32, 0);
    let more = padding_len(bytes, 32);
    assert(more % 8 == 0 && more <= 24);
    lemma_padding_len(len, 32, padding_len(len, 8) + more);
}

/// Padding to words of four bytes, counted in bytes.
pub proof fn lemma_padding_bytes(len: nat)
    ensures
        ({
            let at = (len + padding_len(len, 8)) / 8;
            8 * (at + padding_len(at, 4)) == len + padding_len(len, 32)
        }),
{
    lemma_padding_len(len, 8, 0);
    let at = (len + padding_len(len, 8)) / 8;
    lemma_padding_len(at, 4, 0);
    let words = (at + padding_len(at, 4)) / 4;
    assert(len + padding_len(len, 8) + 8 * padding_len(at, 4) == 32 * words);
    lemma_padding_len(len, 32, padding_len(len, 8) + 8 * padding_len(at, 4));
}

/// Byte by byte, words of four bytes are whole exactly when all of the padding is there.
pub proof fn lemma_padding_progress(len: nat, done: nat)
    requires
        len % 8 == 0,
        done % 8 == 0,
        done <= padding_len(len, 32),
    ensures
        ((len + done) / 8) % 4 == 0 <==> done == padding_len(len, 32),
        done < padding_len(len, 32) ==> done + 8 <= padding_len(len, 32),
{
    lemma_padding_len(len, 32, done);
    assert(padding_len(len, 32) % 8 == 0);
}

} // verus!
