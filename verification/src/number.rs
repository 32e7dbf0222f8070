use vstd::prelude::*;

verus! {

/// Every byte is a decimal digit.
pub open spec fn all_digits(ds: Seq<u8>) -> bool {
    forall|i: int| 0 <= i < ds.len() ==> 48 <= #[trigger] ds[i] <= 57
}

/// The number that a sequence of decimal digits writes.
pub open spec fn digits_value(ds: Seq<u8>) -> nat
    decreases ds.len(),
{
    if ds.len() == 0 {
        0
    } else {
        digits_value(ds.drop_last()) * 10 + (ds.last() - 48) as nat
    }
}

/// The integer that a decimal lexeme writes: digits, with `-` in front for a
/// negative one. `None` for any other text.
pub open spec fn decimal_spec(text: Seq<u8>) -> Option<int> {
    if text.len() > 1 && text[0] == 45 && all_digits(text.drop_first()) {
        Some(-(digits_value(text.drop_first()) as int))
    } else if text.len() > 0 && all_digits(text) {
        Some(digits_value(text) as int)
    } else {
        None
    }
}

/// The decimal digits of a natural number, without leading zeros.
pub open spec fn digits_of(n: nat) -> Seq<u8>
    decreases n,
{
    if n < 10 {
        seq![(48 + n) as u8]
    } else {
        digits_of(n / 10).push((48 + n % 10) as u8)
    }
}

/// The decimal lexeme of an integer.
pub open spec fn decimal_text(v: int) -> Seq<u8> {
    if v < 0 {
        seq![45u8] + digits_of((-v) as nat)
    } else {
        digits_of(v as nat)
    }
}

/// The integer with a given sign and magnitude.
pub open spec fn signed(negative: bool, magnitude: nat) -> int {
    if negative {
        -(magnitude as int)
    } else {
        magnitude as int
    }
}

/// The digits of a number are digits, and write that number.
pub proof fn lemma_digits_of(n: nat)
    ensures
        digits_of(n).len() > 0,
        all_digits(digits_of(n)),
        digits_value(digits_of(n)) == n,
    decreases n,
{
    if n < 10 {
        let s = digits_of(n);
        assert(s.drop_last() =~= Seq::<u8>::empty());
        assert(digits_value(s.drop_last()) == 0);
    } else {
        lemma_digits_of(n / 10);
        let s = digits_of(n);
        assert(s.drop_last() =~= digits_of(n / 10));
    }
}

/// Reading the decimal lexeme of an integer gives the integer.
pub proof fn law_decimal_round_trip(v: int)
    ensures
        decimal_spec(decimal_text(v)) == Some(v),
{
    if v < 0 {
        lemma_digits_of((-v) as nat);
        let t = decimal_text(v);
        assert(t.drop_first() =~= digits_of((-v) as nat));
    } else {
        lemma_digits_of(v as nat);
        let t = decimal_text(v);
        assert(t[0] != 45);
    }
}

/// A prefix of a digit sequence writes no more than the whole.
proof fn lemma_prefix_value(ds: Seq<u8>, k: int)
    requires
        0 <= k <= ds.len(),
        all_digits(ds),
    ensures
        digits_value(ds.take(k)) <= digits_value(ds),
    decreases ds.len() - k,
{
    if k < ds.len() {
        lemma_prefix_value(ds, k + 1);
        assert(ds.take(k + 1).drop_last() =~= ds.take(k));
    } else {
        assert(ds.take(k) =~= ds);
    }
}

/// Reads a run of decimal digits; `None` where a byte is no digit or the
/// number exceeds 128 bits.
pub fn parse_digits(ds: &[u8]) -> (r: Option<u128>)
    ensures
        match r {
            Some(v) => all_digits(ds@) && digits_value(ds@) == v,
            None => !all_digits(ds@) || digits_value(ds@) > u128::MAX,
        },
{
    let mut acc: u128 = 0;
    let mut i: usize = 0;
    while i < ds.len()
        invariant
            i <= ds.len(),
            all_digits(ds@.take(i as int)),
            acc == digits_value(ds@.take(i as int)),
        decreases ds.len() - i,
    {
        let c = ds[i];
        if c < 48 || c > 57 {
            return None;
        }
        let d = (c - 48) as u128;
        proof {
            assert(ds@.take(i + 1).drop_last() =~= ds@.take(i as int));
            assert(all_digits(ds@.take(i + 1))) by {
                assert forall|j: int| 0 <= j < i + 1 implies 48 <= #[trigger] ds@.take(i + 1)[j] <= 57 by {
                    if j < i {
                        assert(ds@.take(i as int)[j] == ds@[j]);
                    }
                }
            }
        }
        if acc > (u128::MAX - d) / 10 {
            proof {
                if all_digits(ds@) {
                    lemma_prefix_value(ds@, i + 1);
                }
            }
            return None;
        }
        acc = acc * 10 + d;
        i += 1;
    }
    assert(ds@.take(i as int) =~= ds@);
    Some(acc)
}

/// Reads a decimal lexeme as a sign and a magnitude. `None` where the text is
/// no decimal lexeme or its magnitude exceeds 128 bits.
pub fn parse_decimal(text: &[u8]) -> (r: Option<(bool, u128)>)
    ensures
        match r {
            Some((negative, magnitude)) => decimal_spec(text@) == Some(signed(negative, magnitude as nat)),
            None => match decimal_spec(text@) {
                Some(v) => v > u128::MAX || v < -(u128::MAX as int),
                None => true,
            },
        },
{
    if text.len() > 1 && text[0] == 45 {
        let rest = vstd::slice::slice_subrange(text, 1, text.len());
        assert(rest@ =~= text@.drop_first());
        match parse_digits(rest) {
            Some(v) => Some((true, v)),
            None => {
                assert(!all_digits(text@)) by {
                    if all_digits(text@) {
                        assert(48 <= text@[0]);
                    }
                }
                None
            },
        }
    } else if text.len() > 0 {
        assert(text@.len() > 1 && text@[0] == 45 ==> false);
        match parse_digits(text) {
            Some(v) => Some((false, v)),
            None => None,
        }
    } else {
        None
    }
}

/// Appends the decimal digits of a number.
pub fn push_digits(out: &mut Vec<u8>, n: u128)
    ensures
        final(out)@ == old(out)@ + digits_of(n as nat),
    decreases n,
{
    if n >= 10 {
        push_digits(out, n / 10);
    }
    out.push(48 + (n % 10) as u8);
    proof {
        if n < 10 {
            assert(final(out)@ =~= old(out)@ + digits_of(n as nat));
        } else {
            assert(final(out)@ =~= old(out)@ + digits_of(n as nat));
        }
    }
}

/// The decimal lexeme of the integer with a given sign and magnitude.
pub fn format_decimal(negative: bool, magnitude: u128) -> (r: Vec<u8>)
    requires
        negative ==> magnitude > 0,
    ensures
        r@ == decimal_text(signed(negative, magnitude as nat)),
{
    let mut out: Vec<u8> = Vec::new();
    if negative {
        out.push(45);
    }
    push_digits(&mut out, magnitude);
    assert(out@ =~= decimal_text(signed(negative, magnitude as nat)));
    out
}

/// 256 to the power `w`.
pub open spec fn pow256(w: nat) -> nat
    decreases w,
{
    if w == 0 {
        1
    } else {
        256 * pow256((w - 1) as nat)
    }
}

/// The `w` low bytes of a number, least significant first.
pub open spec fn le_bytes(n: nat, w: nat) -> Seq<u8>
    decreases w,
{
    if w == 0 {
        Seq::empty()
    } else {
        seq![(n % 256) as u8] + le_bytes(n / 256, (w - 1) as nat)
    }
}

/// The number that bytes hold, least significant first.
pub open spec fn le_value(bytes: Seq<u8>) -> nat
    decreases bytes.len(),
{
    if bytes.len() == 0 {
        0
    } else {
        bytes[0] as nat + 256 * le_value(bytes.drop_first())
    }
}

/// An integer in two's complement on `w` bytes, least significant first.
pub open spec fn int_bytes(v: int, w: nat) -> Seq<u8> {
    le_bytes((v % pow256(w) as int) as nat, w)
}

/// The signed integer that `w` bytes hold in two's complement.
pub open spec fn signed_value(bytes: Seq<u8>) -> int {
    if 2 * le_value(bytes) >= pow256(bytes.len()) {
        le_value(bytes) - pow256(bytes.len())
    } else {
        le_value(bytes) as int
    }
}

/// A power of 256 is positive.
pub proof fn lemma_pow256_positive(w: nat)
    ensures
        pow256(w) > 0,
    decreases w,
{
    if w > 0 {
        lemma_pow256_positive((w - 1) as nat);
    }
}

/// `le_bytes` has `w` bytes, and they hold the number modulo 256 to the `w`.
pub proof fn lemma_le_bytes(n: nat, w: nat)
    ensures
        le_bytes(n, w).len() == w,
        le_value(le_bytes(n, w)) == n % pow256(w),
    decreases w,
{
    lemma_pow256_positive(w);
    if w > 0 {
        lemma_le_bytes(n / 256, (w - 1) as nat);
        lemma_pow256_positive((w - 1) as nat);
        let s = le_bytes(n, w);
        assert(s.drop_first() =~= le_bytes(n / 256, (w - 1) as nat));
        let p = pow256((w - 1) as nat);
        vstd::arithmetic::div_mod::lemma_mod_breakdown(n as int, 256, p as int);
    }
}

/// Bytes hold a number below 256 to the power of their count, and writing
/// that number on as many bytes gives them back.
pub proof fn lemma_le_value(bytes: Seq<u8>)
    ensures
        le_value(bytes) < pow256(bytes.len()),
        le_bytes(le_value(bytes), bytes.len()) == bytes,
    decreases bytes.len(),
{
    if bytes.len() > 0 {
        lemma_le_value(bytes.drop_first());
        let v = le_value(bytes.drop_first());
        assert((bytes[0] as nat + 256 * v) % 256 == bytes[0] as nat) by (nonlinear_arith)
            requires
                bytes[0] < 256,
        ;
        assert((bytes[0] as nat + 256 * v) / 256 == v) by (nonlinear_arith)
            requires
                bytes[0] < 256,
        ;
        assert(le_bytes(le_value(bytes), bytes.len()) =~= bytes);
    } else {
        assert(le_bytes(le_value(bytes), bytes.len()) =~= bytes);
    }
}

/// The bytes of a number depend only on the number modulo 256 to the `w`.
pub proof fn lemma_le_bytes_mod(a: nat, b: nat, w: nat)
    requires
        a % pow256(w) == b % pow256(w),
    ensures
        le_bytes(a, w) == le_bytes(b, w),
{
    lemma_le_bytes(a, w);
    lemma_le_bytes(b, w);
    lemma_le_value(le_bytes(a, w));
    lemma_le_value(le_bytes(b, w));
}

/// The powers of 256 that are the sizes of the integer types.
pub proof fn lemma_pow256_values()
    ensures
        pow256(1) == 0x100,
        pow256(2) == 0x1_0000,
        pow256(4) == 0x1_0000_0000,
        pow256(8) == 0x1_0000_0000_0000_0000,
        pow256(16) == 0x1_0000_0000_0000_0000_0000_0000_0000_0000,
{
    reveal_with_fuel(pow256, 17);
}

/// Appends the `w` low bytes of a number, least significant first.
pub fn put_le(out: &mut Vec<u8>, value: u128, w: usize)
    ensures
        final(out)@ == old(out)@ + le_bytes(value as nat, w as nat),
{
    let mut rest: u128 = value;
    let mut i: usize = 0;
    while i < w
        invariant
            i <= w,
            out@ + le_bytes(rest as nat, (w - i) as nat) == old(out)@ + le_bytes(value as nat, w as nat),
        decreases w - i,
    {
        let ghost before = out@;
        out.push((rest % 256) as u8);
        proof {
            assert(before.push((rest % 256) as u8) + le_bytes((rest / 256) as nat, (w - i - 1) as nat) =~= before
                + le_bytes(rest as nat, (w - i) as nat));
        }
        rest = rest / 256;
        i += 1;
    }
    assert(out@ + le_bytes(rest as nat, 0) =~= out@);
}

/// Reads the number held by `w` bytes at `pos`, least significant first.
pub fn get_le(bytes: &[u8], pos: usize, w: usize) -> (r: u128)
    requires
        w <= 16,
        pos + w <= bytes.len(),
    ensures
        r == le_value(bytes@.subrange(pos as int, pos + w)),
{
    let mut acc: u128 = 0;
    let mut i: usize = w;
    proof {
        assert(bytes@.subrange(pos + w, pos + w) =~= Seq::<u8>::empty());
    }
    while i > 0
        invariant
            w <= 16,
            i <= w,
            pos + w <= bytes.len(),
            acc == le_value(bytes@.subrange(pos + i, pos + w)),
        decreases i,
    {
        i -= 1;
        proof {
            let s = bytes@.subrange(pos + i, pos + w);
            assert(s.drop_first() =~= bytes@.subrange(pos + i + 1, pos + w));
            lemma_le_value(s.drop_first());
            lemma_le_value(s);
            assert(s.len() <= 16);
            lemma_pow256_monotone(s.len(), 16);
            lemma_pow256_values();
        }
        acc = bytes[pos + i] as u128 + 256 * acc;
    }
    acc
}

/// A greater power of 256 is no smaller.
pub proof fn lemma_pow256_monotone(a: nat, b: nat)
    requires
        a <= b,
    ensures
        pow256(a) <= pow256(b),
    decreases b,
{
    lemma_pow256_positive(a);
    if a < b {
        lemma_pow256_monotone(a, (b - 1) as nat);
    }
}

/// The least integer of `w` bytes.
pub open spec fn int_min(w: nat, is_signed: bool) -> int {
    if is_signed {
        -(pow256(w) / 2) as int
    } else {
        0
    }
}

/// The greatest integer of `w` bytes.
pub open spec fn int_max(w: nat, is_signed: bool) -> int {
    if is_signed {
        pow256(w) / 2 - 1
    } else {
        pow256(w) - 1
    }
}

/// The greatest magnitude of a non-negative integer of `w` bytes.
pub fn max_magnitude(w: usize, is_signed: bool) -> (r: u128)
    requires
        w == 1 || w == 2 || w == 4 || w == 8 || w == 16,
    ensures
        r == int_max(w as nat, is_signed),
{
    proof {
        lemma_pow256_values();
    }
    let full: u128 = if w == 1 {
        0xff
    } else if w == 2 {
        0xffff
    } else if w == 4 {
        0xffff_ffff
    } else if w == 8 {
        0xffff_ffff_ffff_ffff
    } else {
        0xffff_ffff_ffff_ffff_ffff_ffff_ffff_ffff
    };
    if is_signed {
        full / 2
    } else {
        full
    }
}

/// Appends an integer with a given sign and magnitude on `w` bytes, least
/// significant first, in two's complement.
pub fn put_int(out: &mut Vec<u8>, negative: bool, magnitude: u128, w: usize)
    requires
        w == 1 || w == 2 || w == 4 || w == 8 || w == 16,
        negative ==> magnitude > 0,
    ensures
        final(out)@ == old(out)@ + int_bytes(signed(negative, magnitude as nat), w as nat),
{
    let n: u128 = if negative {
        (u128::MAX - magnitude) + 1
    } else {
        magnitude
    };
    proof {
        lemma_pow256_values();
        let x = signed(negative, magnitude as nat);
        let m = pow256(w as nat) as int;
        assert(n as int % m == x % m) by {
            if negative {
                let k = 0x1_0000_0000_0000_0000_0000_0000_0000_0000int / m;
                assert(0x1_0000_0000_0000_0000_0000_0000_0000_0000int == k * m);
                assert(n as int == x + k * m);
                vstd::arithmetic::div_mod::lemma_mod_multiples_vanish(k, x, m);
            }
        }
        lemma_le_bytes_mod(n as nat, (x % m) as nat, w as nat);
    }
    put_le(out, n, w);
}

/// Reads the integer held by `w` bytes at `pos`, in two's complement where it
/// is signed: its sign and its magnitude.
pub fn get_int(bytes: &[u8], pos: usize, w: usize, is_signed: bool) -> (r: (bool, u128))
    requires
        w == 1 || w == 2 || w == 4 || w == 8 || w == 16,
        pos + w <= bytes.len(),
    ensures
        r.0 ==> r.1 > 0,
        is_signed ==> signed(r.0, r.1 as nat) == signed_value(bytes@.subrange(pos as int, pos + w)),
        !is_signed ==> signed(r.0, r.1 as nat) == le_value(bytes@.subrange(pos as int, pos + w)),
{
    let n = get_le(bytes, pos, w);
    let hi = max_magnitude(w, true);
    proof {
        lemma_pow256_values();
        lemma_le_value(bytes@.subrange(pos as int, pos + w));
    }
    if is_signed && n > hi {
        if w == 16 {
            (true, (u128::MAX - n) + 1)
        } else {
            let modulus: u128 = 2 * (hi + 1);
            (true, modulus - n)
        }
    } else {
        (false, n)
    }
}

/// An integer within the range of `w` bytes is what its `w` bytes hold.
pub proof fn law_int_round_trip(x: int, w: nat, is_signed: bool)
    requires
        w >= 1,
        int_min(w, is_signed) <= x <= int_max(w, is_signed),
    ensures
        int_bytes(x, w).len() == w,
        is_signed ==> signed_value(int_bytes(x, w)) == x,
        !is_signed ==> le_value(int_bytes(x, w)) == x,
{
    let p = pow256(w) as int;
    lemma_pow256_positive(w);
    lemma_pow256_positive((w - 1) as nat);
    assert(p == 256 * pow256((w - 1) as nat));
    assert(p % 2 == 0);
    let n = (x % p) as nat;
    lemma_le_bytes(n, w);
    vstd::arithmetic::div_mod::lemma_small_mod(n, p as nat);
    if x >= 0 {
        vstd::arithmetic::div_mod::lemma_small_mod(x as nat, p as nat);
    } else {
        vstd::arithmetic::div_mod::lemma_small_mod((x + p) as nat, p as nat);
        vstd::arithmetic::div_mod::lemma_mod_multiples_vanish(1, x, p);
    }
}

} // verus!
