use crate::error::ErrorKind;
use vstd::prelude::*;

verus! {

/// The position of a byte in the name alphabet `.12345abcdefghijklmnopqrstuvwxyz`.
pub open spec fn char_symbol(c: u8) -> Option<nat> {
    if c == 46 {
        Some(0)
    } else if 49 <= c <= 53 {
        Some((c - 48) as nat)
    } else if 97 <= c <= 122 {
        Some((c - 91) as nat)
    } else {
        None
    }
}

/// The byte at a position of the name alphabet.
pub open spec fn symbol_char(d: nat) -> u8 {
    if d == 0 {
        46
    } else if d <= 5 {
        (d + 48) as u8
    } else if d < 32 {
        (d + 91) as u8
    } else {
        46
    }
}

/// A name string: at most thirteen bytes, all of the alphabet.
pub open spec fn valid_name(s: Seq<u8>) -> bool {
    &&& s.len() <= 13
    &&& forall|i: int| 0 <= i < s.len() ==> (#[trigger] char_symbol(s[i])) is Some
}

/// The symbol at position `i` of `s`; positions past the end hold `.`.
pub open spec fn symbol_at(s: Seq<u8>, i: int) -> nat {
    if 0 <= i < s.len() {
        match char_symbol(s[i]) {
            Some(d) => d,
            None => 0,
        }
    } else {
        0
    }
}

/// The first `k` symbols of `s` read as a number in base 32.
pub open spec fn packed(s: Seq<u8>, k: nat) -> nat
    decreases k,
{
    if k == 0 {
        0
    } else {
        packed(s, (k - 1) as nat) * 32 + symbol_at(s, k - 1)
    }
}

/// The 64-bit value of a name string: five bits for each of the first twelve
/// symbols, from the top, and the low four bits of a thirteenth.
pub open spec fn name_value(s: Seq<u8>) -> nat {
    packed(s, 12) * 16 + symbol_at(s, 12) % 16
}

/// The number held by the first `k` symbols of the value `n`.
pub open spec fn name_prefix(n: nat, k: nat) -> nat
    decreases 12 - k,
{
    if k >= 12 {
        n / 16
    } else {
        name_prefix(n, k + 1) / 32
    }
}

/// The symbol at position `i` of the value `n`.
pub open spec fn name_symbol(n: nat, i: nat) -> nat {
    if i < 12 {
        name_prefix(n, i + 1) % 32
    } else {
        n % 16
    }
}

/// All thirteen characters of the value `n`.
pub open spec fn name_chars(n: nat) -> Seq<u8> {
    Seq::new(13, |i: int| symbol_char(name_symbol(n, i as nat)))
}

/// `s` without its trailing `.` bytes.
pub open spec fn strip_dots(s: Seq<u8>) -> Seq<u8>
    decreases s.len(),
{
    if s.len() > 0 && s.last() == 46 {
        strip_dots(s.drop_last())
    } else {
        s
    }
}

/// The canonical string of the value `n`.
pub open spec fn name_text(n: nat) -> Seq<u8> {
    strip_dots(name_chars(n))
}

/// What converting the string `s` to a name gives.
pub open spec fn string_to_name_spec(s: Seq<u8>) -> Result<u64, ErrorKind> {
    if s.len() > 13 {
        Err(ErrorKind::NameTooLong)
    } else if !valid_name(s) {
        Err(ErrorKind::InvalidNameCharacter)
    } else {
        Ok(name_value(s) as u64)
    }
}

/// 32 to the power `k`.
pub open spec fn pow32(k: nat) -> nat
    decreases k,
{
    if k == 0 {
        1
    } else {
        32 * pow32((k - 1) as nat)
    }
}

/// 32 to the power 12 is 2 to the power 60, and no smaller power exceeds it.
pub proof fn lemma_pow32_values()
    ensures
        pow32(12) == 0x1000_0000_0000_0000,
        forall|k: nat| k <= 12 ==> #[trigger] pow32(k) <= 0x1000_0000_0000_0000,
{
    reveal_with_fuel(pow32, 14);
    assert forall|k: nat| k <= 12 implies #[trigger] pow32(k) <= 0x1000_0000_0000_0000 by {
        if k == 0 {
        } else if k == 1 {
        } else if k == 2 {
        } else if k == 3 {
        } else if k == 4 {
        } else if k == 5 {
        } else if k == 6 {
        } else if k == 7 {
        } else if k == 8 {
        } else if k == 9 {
        } else if k == 10 {
        } else if k == 11 {
        } else {
            assert(k == 12);
        }
    }
}

/// The first `k` symbols hold a number below 32 to the power `k`.
pub proof fn lemma_packed_bound(s: Seq<u8>, k: nat)
    ensures
        packed(s, k) < pow32(k),
    decreases k,
{
    if k > 0 {
        lemma_packed_bound(s, (k - 1) as nat);
        assert(symbol_at(s, k - 1) < 32);
    }
}

/// A name value fits 64 bits.
pub proof fn lemma_name_value_bound(s: Seq<u8>)
    ensures
        name_value(s) <= u64::MAX,
        packed(s, 12) < 0x1000_0000_0000_0000,
{
    lemma_packed_bound(s, 12);
    lemma_pow32_values();
}

/// Converts a name string to its 64-bit value.
pub fn string_to_name(s: &[u8]) -> (r: Result<u64, ErrorKind>)
    ensures
        r == string_to_name_spec(s@),
{
    if s.len() > 13 {
        return Err(ErrorKind::NameTooLong);
    }
    let mut value: u64 = 0;
    let mut i: usize = 0;
    while i < 13
        invariant
            s.len() <= 13,
            i <= 13,
            forall|j: int| 0 <= j < i && j < s.len() ==> (#[trigger] char_symbol(s@[j])) is Some,
            i <= 12 ==> value == packed(s@, i as nat),
            i == 13 ==> value == name_value(s@),
        decreases 13 - i,
    {
        let mut d: u64 = 0;
        if i < s.len() {
            let c = s[i];
            if c == 46 {
                d = 0;
            } else if 49 <= c && c <= 53 {
                d = (c - 48) as u64;
            } else if 97 <= c && c <= 122 {
                d = (c - 91) as u64;
            } else {
                assert(char_symbol(s@[i as int]) is None);
                return Err(ErrorKind::InvalidNameCharacter);
            }
        }
        assert(d == symbol_at(s@, i as int));
        proof {
            lemma_name_value_bound(s@);
            lemma_packed_bound(s@, i as nat);
            lemma_pow32_values();
            if i < 12 {
                lemma_packed_bound(s@, (i + 1) as nat);
            }
        }
        if i < 12 {
            value = value * 32 + d;
        } else {
            value = value * 16 + d % 16;
        }
        i += 1;
    }
    Ok(value)
}

/// The alphabet byte of a symbol below 32.
fn symbol_byte(d: u64) -> (c: u8)
    requires
        d < 32,
    ensures
        c == symbol_char(d as nat),
        char_symbol(c) == Some(d as nat),
{
    if d == 0 {
        46
    } else if d <= 5 {
        (d + 48) as u8
    } else {
        (d + 91) as u8
    }
}

/// Stripping trailing dots from a prefix that ends where only dots follow
/// gives what stripping the whole gives.
proof fn lemma_strip_prefix(s: Seq<u8>, len: int)
    requires
        0 <= len <= s.len(),
        forall|j: int| len <= j < s.len() ==> s[j] == 46,
    ensures
        strip_dots(s) == strip_dots(s.take(len)),
    decreases s.len() - len,
{
    if len < s.len() {
        assert(s.last() == 46);
        lemma_strip_prefix(s.drop_last(), len);
        assert(s.drop_last().take(len) =~= s.take(len));
    } else {
        assert(s.take(len) =~= s);
    }
}

/// Writes the canonical string of a name value.
pub fn name_to_bytes(n: u64) -> (r: Vec<u8>)
    ensures
        r@ == name_text(n as nat),
{
    let mut chars: Vec<u8> = Vec::new();
    let mut k: usize = 0;
    while k < 13
        invariant
            k <= 13,
            chars@.len() == k,
        decreases 13 - k,
    {
        chars.push(46);
        k += 1;
    }
    chars.set(12, symbol_byte(n % 16));
    let mut tmp: u64 = n / 16;
    let mut i: usize = 12;
    while i > 0
        invariant
            i <= 12,
            chars@.len() == 13,
            tmp == name_prefix(n as nat, i as nat),
            forall|j: int| i <= j < 13 ==> chars@[j] == symbol_char(name_symbol(n as nat, j as nat)),
        decreases i,
    {
        i -= 1;
        chars.set(i, symbol_byte(tmp % 32));
        tmp = tmp / 32;
    }
    assert(chars@ =~= name_chars(n as nat));
    let mut len: usize = 13;
    while len > 0 && chars[len - 1] == 46
        invariant
            len <= 13,
            chars@ == name_chars(n as nat),
            forall|j: int| len <= j < 13 ==> chars@[j] == 46,
        decreases len,
    {
        len -= 1;
    }
    proof {
        lemma_strip_prefix(chars@, len as int);
        let t = chars@.take(len as int);
        assert(strip_dots(t) == t) by {
            if t.len() > 0 {
                assert(t.last() == chars@[len - 1]);
            }
        }
    }
    chars.truncate(len);
    assert(chars@ =~= name_chars(n as nat).take(len as int));
    chars
}

/// Every symbol of a canonical string is the symbol of the value at that place.
proof fn lemma_text_symbols(n: nat, i: int)
    requires
        n <= u64::MAX,
        0 <= i < 13,
    ensures
        symbol_at(name_text(n), i) == name_symbol(n, i as nat),
        valid_name(name_text(n)),
{
    let full = name_chars(n);
    lemma_strip_shape(full);
    let t = strip_dots(full);
    assert forall|j: int| 0 <= j < t.len() implies (#[trigger] char_symbol(t[j])) is Some by {
        assert(t[j] == full[j]);
        assert(name_symbol(n, j as nat) < 32);
    }
    assert(name_symbol(n, i as nat) < 32);
    if i < t.len() {
        assert(t[i] == full[i]);
    } else {
        assert(full[i] == 46);
        assert(char_symbol(symbol_char(name_symbol(n, i as nat))) == Some(name_symbol(n, i as nat)));
    }
}

/// Stripping keeps a prefix and drops only dots.
pub proof fn lemma_strip_shape(s: Seq<u8>)
    ensures
        strip_dots(s).len() <= s.len(),
        strip_dots(s) == s.take(strip_dots(s).len() as int),
        forall|j: int| strip_dots(s).len() <= j < s.len() ==> s[j] == 46,
        strip_dots(s).len() > 0 ==> strip_dots(s).last() != 46,
    decreases s.len(),
{
    if s.len() > 0 && s.last() == 46 {
        lemma_strip_shape(s.drop_last());
        let t = strip_dots(s.drop_last());
        assert(s.drop_last().take(t.len() as int) =~= s.take(t.len() as int));
        assert forall|j: int| t.len() <= j < s.len() implies s[j] == 46 by {
            if j < s.len() - 1 {
                assert(s.drop_last()[j] == s[j]);
            }
        }
    } else {
        assert(s.take(s.len() as int) =~= s);
    }
}

/// The first `k` symbols of a canonical string pack to the value's prefix.
proof fn lemma_packed_text(n: nat, k: nat)
    requires
        n <= u64::MAX,
        k <= 12,
    ensures
        packed(name_text(n), k) == name_prefix(n, k),
    decreases k,
{
    if k == 0 {
        reveal_with_fuel(name_prefix, 14);
        assert(name_prefix(n, 0) == 0);
    } else {
        lemma_packed_text(n, (k - 1) as nat);
        lemma_text_symbols(n, k - 1);
    }
}

/// Every 64-bit value has a canonical string, and that string converts back to
/// the value.
pub proof fn law_name_of_text(n: u64)
    ensures
        valid_name(name_text(n as nat)),
        string_to_name_spec(name_text(n as nat)) == Ok::<u64, ErrorKind>(n),
{
    lemma_text_symbols(n as nat, 12);
    lemma_packed_text(n as nat, 12);
}

/// The value's prefix of `k` symbols is what the string's first `k` symbols pack to.
proof fn lemma_prefix_of_value(s: Seq<u8>, k: nat)
    requires
        k <= 12,
    ensures
        name_prefix(name_value(s), k) == packed(s, k),
    decreases 12 - k,
{
    if k < 12 {
        lemma_prefix_of_value(s, k + 1);
    }
}

/// A valid string whose thirteenth symbol, if it has one, fits four bits
/// converts to a value whose canonical string is the string without its
/// trailing dots.
pub proof fn law_name_round_trip(s: Seq<u8>)
    requires
        valid_name(s),
        s.len() == 13 ==> symbol_at(s, 12) < 16,
    ensures
        name_text(name_value(s)) == strip_dots(s),
{
    let n = name_value(s);
    let full = name_chars(n);
    assert forall|i: int| 0 <= i < 13 implies full[i] == (if i < s.len() { s[i] } else { 46u8 }) by {
        if i < 12 {
            lemma_prefix_of_value(s, (i + 1) as nat);
        }
        assert(name_symbol(n, i as nat) == symbol_at(s, i));
        if i < s.len() {
            assert(char_symbol(s[i]) is Some);
        }
    }
    assert(full.take(s.len() as int) =~= s);
    lemma_strip_prefix(full, s.len() as int);
}

/// Converting a valid string to a name, the name to its canonical string and
/// that string to a name again gives the same name.
pub proof fn law_name_stable(s: Seq<u8>)
    requires
        valid_name(s),
    ensures
        string_to_name_spec(name_text(name_value(s))) == string_to_name_spec(s),
{
    lemma_name_value_bound(s);
    law_name_of_text(name_value(s) as u64);
}

} // verus!
