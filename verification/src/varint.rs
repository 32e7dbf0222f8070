use crate::error::ErrorKind;
use vstd::prelude::*;

verus! {

/// A number in groups of seven bits, least significant group first; every
/// byte but the last has its high bit set.
pub open spec fn varuint_bytes(n: nat) -> Seq<u8>
    decreases n,
{
    if n < 128 {
        seq![n as u8]
    } else {
        seq![(n % 128 + 128) as u8] + varuint_bytes(n / 128)
    }
}

/// Reads groups of seven bits from the front of `input`, at most `limit` of
/// them: the number and how many bytes it took.
pub open spec fn varuint_read(input: Seq<u8>, limit: nat) -> Result<(nat, nat), ErrorKind>
    decreases limit,
{
    if limit == 0 {
        Err(ErrorKind::InvalidVarint)
    } else if input.len() == 0 {
        Err(ErrorKind::TruncatedInput)
    } else if input[0] < 128 {
        Ok((input[0] as nat, 1))
    } else {
        match varuint_read(input.drop_first(), (limit - 1) as nat) {
            Ok((v, used)) => Ok(((input[0] - 128) as nat + 128 * v, used + 1)),
            Err(e) => Err(e),
        }
    }
}

/// Reads a 32-bit variable-length number from the front of `input`: at most
/// five bytes, and a value that fits 32 bits.
pub open spec fn varuint32_read(input: Seq<u8>) -> Result<(nat, nat), ErrorKind> {
    match varuint_read(input, 5) {
        Ok((v, used)) => if v > u32::MAX {
            Err(ErrorKind::InvalidVarint)
        } else {
            Ok((v, used))
        },
        Err(e) => Err(e),
    }
}

/// The zig-zag image of a signed number: 0, -1, 1, -2, ... become 0, 1, 2, 3, ...
pub open spec fn zigzag(v: int) -> nat {
    if v >= 0 {
        (2 * v) as nat
    } else {
        (-2 * v - 1) as nat
    }
}

/// The signed number of a zig-zag image.
pub open spec fn unzigzag(n: nat) -> int {
    if n % 2 == 0 {
        (n / 2) as int
    } else {
        -((n + 1) / 2) as int
    }
}

/// 128 to the power `k`.
pub open spec fn pow128(k: nat) -> nat
    decreases k,
{
    if k == 0 {
        1
    } else {
        128 * pow128((k - 1) as nat)
    }
}

/// Reading what was written gives the number and the count of bytes written,
/// whatever follows.
pub proof fn lemma_varuint_read_written(n: nat, rest: Seq<u8>, limit: nat)
    requires
        limit > 0,
        n < pow128(limit),
    ensures
        varuint_read(varuint_bytes(n) + rest, limit) == Ok::<(nat, nat), ErrorKind>(
            (n, varuint_bytes(n).len()),
        ),
        0 < varuint_bytes(n).len() <= limit,
    decreases limit,
{
    let input = varuint_bytes(n) + rest;
    if n < 128 {
        assert(input[0] == n as u8);
    } else {
        assert(input[0] == (n % 128 + 128) as u8);
        assert(input.drop_first() =~= varuint_bytes(n / 128) + rest);
        assert(limit > 1) by {
            reveal_with_fuel(pow128, 2);
        }
        lemma_varuint_read_written(n / 128, rest, (limit - 1) as nat);
    }
}

/// A 32-bit number round-trips through its variable-length form.
pub proof fn law_varuint32_round_trip(n: nat, rest: Seq<u8>)
    requires
        n <= u32::MAX,
    ensures
        varuint32_read(varuint_bytes(n) + rest) == Ok::<(nat, nat), ErrorKind>((n, varuint_bytes(n).len())),
        0 < varuint_bytes(n).len() <= 5,
{
    reveal_with_fuel(pow128, 6);
    lemma_varuint_read_written(n, rest, 5);
}

/// Zig-zag is undone by its inverse.
pub proof fn law_zigzag_round_trip(v: int)
    ensures
        unzigzag(zigzag(v)) == v,
{
}

/// What was read took at least one byte and no more than there were, and is
/// below 128 to the power of the limit.
pub proof fn lemma_varuint_read_bounds(input: Seq<u8>, limit: nat)
    ensures
        match varuint_read(input, limit) {
            Ok((v, used)) => 0 < used <= input.len() && used <= limit && v < pow128(limit),
            Err(_) => true,
        },
    decreases limit,
{
    if limit > 0 && input.len() > 0 {
        if input[0] >= 128 {
            lemma_varuint_read_bounds(input.drop_first(), (limit - 1) as nat);
        } else {
            reveal_with_fuel(pow128, 2);
            lemma_pow128_monotone(1, limit);
        }
    }
}

/// Appends a number in its variable-length form.
pub fn put_varuint(out: &mut Vec<u8>, value: u32)
    ensures
        final(out)@ == old(out)@ + varuint_bytes(value as nat),
{
    let mut rest: u32 = value;
    while rest >= 128
        invariant
            out@ + varuint_bytes(rest as nat) == old(out)@ + varuint_bytes(value as nat),
        decreases rest,
    {
        let ghost before = out@;
        out.push((rest % 128 + 128) as u8);
        proof {
            assert(before.push((rest % 128 + 128) as u8) + varuint_bytes((rest / 128) as nat) =~= before
                + varuint_bytes(rest as nat));
        }
        rest = rest / 128;
    }
    let ghost before = out@;
    out.push(rest as u8);
    assert(before.push(rest as u8) =~= before + varuint_bytes(rest as nat));
}

/// Reads groups of seven bits at `pos`, at most `limit` of them.
fn get_varuint_limited(bytes: &[u8], pos: usize, limit: u8) -> (r: Result<(u64, usize), ErrorKind>)
    requires
        pos <= bytes.len(),
        limit <= 5,
    ensures
        match r {
            Ok((v, next)) => varuint_read(bytes@.skip(pos as int), limit as nat) == Ok::<(nat, nat), ErrorKind>(
                (v as nat, (next - pos) as nat),
            ) && pos < next <= bytes.len(),
            Err(e) => varuint_read(bytes@.skip(pos as int), limit as nat) == Err::<(nat, nat), ErrorKind>(e),
        },
    decreases limit,
{
    let ghost input = bytes@.skip(pos as int);
    if limit == 0 {
        return Err(ErrorKind::InvalidVarint);
    }
    if pos >= bytes.len() {
        return Err(ErrorKind::TruncatedInput);
    }
    let b = bytes[pos];
    assert(input[0] == b);
    if b < 128 {
        return Ok((b as u64, pos + 1));
    }
    assert(input.drop_first() =~= bytes@.skip(pos + 1));
    match get_varuint_limited(bytes, pos + 1, limit - 1) {
        Ok((v, next)) => {
            proof {
                lemma_varuint_read_bounds(input.drop_first(), (limit - 1) as nat);
                reveal_with_fuel(pow128, 6);
                assert(v < pow128(4)) by {
                    lemma_pow128_monotone((limit - 1) as nat, 4);
                }
            }
            Ok(((b - 128) as u64 + 128 * v, next))
        },
        Err(e) => Err(e),
    }
}

/// Powers of 128 are positive, and a greater one is no smaller.
pub proof fn lemma_pow128_monotone(a: nat, b: nat)
    requires
        a <= b,
    ensures
        0 < pow128(a) <= pow128(b),
    decreases b,
{
    if a < b {
        lemma_pow128_monotone(a, (b - 1) as nat);
    } else if a > 0 {
        lemma_pow128_monotone((a - 1) as nat, (b - 1) as nat);
    }
}

/// Reads a 32-bit variable-length number at `pos`: the number and the
/// position after it.
pub fn get_varuint(bytes: &[u8], pos: usize) -> (r: Result<(u32, usize), ErrorKind>)
    requires
        pos <= bytes.len(),
    ensures
        match r {
            Ok((v, next)) => varuint32_read(bytes@.skip(pos as int)) == Ok::<(nat, nat), ErrorKind>(
                (v as nat, (next - pos) as nat),
            ) && pos < next <= bytes.len(),
            Err(e) => varuint32_read(bytes@.skip(pos as int)) == Err::<(nat, nat), ErrorKind>(e),
        },
{
    match get_varuint_limited(bytes, pos, 5) {
        Ok((v, next)) => {
            if v > 0xffff_ffff {
                Err(ErrorKind::InvalidVarint)
            } else {
                Ok((v as u32, next))
            }
        },
        Err(e) => Err(e),
    }
}

} // verus!
