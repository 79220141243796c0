//! Framing of event-log records: `<crc32 as 8 lowercase hex digits>\t<json>\n`,
//! and the check that accepts exactly the records whose checksum matches.

use vstd::prelude::*;
use vstd::arithmetic::div_mod::lemma_mod_breakdown;

verus! {

/// Length of the checksum prefix with its tab.
pub const RECORD_PREFIX_LEN: usize = 9;

/// One bit of the reflected CRC-32 (IEEE) register update: shift right,
/// and fold the polynomial `0xEDB88320` back in when a one falls out.
pub open spec fn crc_shift(c: u32) -> u32 {
    if c & 1u32 == 1u32 {
        (c >> 1u32) ^ 0xEDB8_8320u32
    } else {
        c >> 1u32
    }
}

/// `n` register updates.
pub open spec fn crc_shifts(c: u32, n: nat) -> u32
    decreases n,
{
    if n == 0 {
        c
    } else {
        crc_shifts(crc_shift(c), (n - 1) as nat)
    }
}

/// The register after taking in `bytes`, each byte xored into the low bits
/// and followed by eight updates.
pub open spec fn crc_register(c: u32, bytes: Seq<u8>) -> u32
    decreases bytes.len(),
{
    if bytes.len() == 0 {
        c
    } else {
        crc_register(crc_shifts(c ^ (bytes[0] as u32), 8), bytes.skip(1))
    }
}

/// The CRC-32 (IEEE) of a byte string: the register starts all ones and
/// is complemented at the end.
pub open spec fn crc32_of(bytes: Seq<u8>) -> u32 {
    !crc_register(0xFFFF_FFFFu32, bytes)
}

/// `crc32fast::hash`: the CRC-32 (IEEE) checksum of `bytes`. Claimed: it
/// is `crc32_of`, the bitwise definition that the crate's table-driven and
/// SIMD code compute faster.
#[verifier::external_body]
fn crc32(bytes: &[u8]) -> (c: u32)
    ensures
        c == crc32_of(bytes@),
{
    crc32fast::hash(bytes)
}

/// The lowercase hexadecimal digit of `d` (below 16).
pub open spec fn hex_char(d: nat) -> u8 {
    if d < 10 {
        (48 + d) as u8
    } else {
        (87 + d) as u8
    }
}

/// The last `n` hexadecimal digits of `x`, most significant first.
pub open spec fn hex_digits(x: nat, n: nat) -> Seq<u8>
    decreases n,
{
    if n == 0 {
        Seq::empty()
    } else {
        hex_digits(x / 16, (n - 1) as nat).push(hex_char(x % 16))
    }
}

/// `format!("{x:08x}")`.
pub open spec fn hex8(x: u32) -> Seq<u8> {
    hex_digits(x as nat, 8)
}

/// Whether `b` is a hexadecimal digit (either case).
pub open spec fn is_hex_digit(b: u8) -> bool {
    (48 <= b && b <= 57) || (97 <= b && b <= 102) || (65 <= b && b <= 70)
}

/// The value of a hexadecimal digit.
pub open spec fn hex_value_of(b: u8) -> nat {
    if 48 <= b && b <= 57 {
        (b - 48) as nat
    } else if 97 <= b && b <= 102 {
        (b - 87) as nat
    } else {
        (b - 55) as nat
    }
}

/// The value of a string of hexadecimal digits.
pub open spec fn hex_value(s: Seq<u8>) -> nat
    decreases s.len(),
{
    if s.len() == 0 {
        0
    } else {
        hex_value(s.drop_last()) * 16 + hex_value_of(s.last())
    }
}

/// What `u32::from_str_radix(text, 16)` gives for ASCII text: an optional
/// `+`, then one or more hexadecimal digits whose value fits.
pub open spec fn parse_hex_u32(s: Seq<u8>) -> Option<u32> {
    let ds = hex_body(s);
    if ds.len() > 0 && all_hex(ds) && hex_value(ds) <= u32::MAX {
        Some(hex_value(ds) as u32)
    } else {
        None
    }
}

/// The text after an optional leading `+`.
pub open spec fn hex_body(s: Seq<u8>) -> Seq<u8> {
    if s.len() > 0 && s[0] == 43 {
        s.drop_first()
    } else {
        s
    }
}

/// Whether every byte is a hexadecimal digit.
pub open spec fn all_hex(s: Seq<u8>) -> bool {
    forall|i: int| 0 <= i < s.len() ==> is_hex_digit(#[trigger] s[i])
}

/// The framed record of a JSON text.
pub open spec fn framed(json: Seq<u8>) -> Seq<u8> {
    hex8(crc32_of(json)) + seq![9u8] + json + seq![10u8]
}

/// The JSON text of a record line (trailing newline included) whose
/// checksum prefix parses and matches; none otherwise.
pub open spec fn record_json(line: Seq<u8>) -> Option<Seq<u8>> {
    if line.len() > RECORD_PREFIX_LEN && line.last() == 10 && line[8] == 9 {
        match parse_hex_u32(line.take(8)) {
            Some(v) => {
                let json = line.subrange(9, line.len() - 1);
                if crc32_of(json) == v {
                    Some(json)
                } else {
                    None
                }
            },
            None => None,
        }
    } else {
        None
    }
}

/// The digit of `d`.
fn hex_char_of(d: u32) -> (b: u8)
    requires
        d < 16,
    ensures
        b == hex_char(d as nat),
{
    if d < 10 {
        (48 + d) as u8
    } else {
        (87 + d) as u8
    }
}

/// The last `n` hexadecimal digits of `x`.
fn hex_digits_exec(x: u32, n: usize) -> (r: Vec<u8>)
    ensures
        r@ == hex_digits(x as nat, n as nat),
    decreases n,
{
    if n == 0 {
        Vec::new()
    } else {
        let mut v = hex_digits_exec(x / 16, n - 1);
        v.push(hex_char_of(x % 16));
        v
    }
}

/// Frames a JSON text as a log record.
pub fn frame_record(json: &[u8]) -> (r: Vec<u8>)
    ensures
        r@ == framed(json@),
{
    let crc = crc32(json);
    let mut out = hex_digits_exec(crc, 8);
    out.push(9u8);
    let mut i: usize = 0;
    let ghost head = out@;
    while i < json.len()
        invariant
            i <= json.len(),
            head == hex8(crc32_of(json@)) + seq![9u8],
            out@ == head + json@.take(i as int),
        decreases json.len() - i,
    {
        proof {
            assert(head + json@.take(i as int + 1) =~= (head + json@.take(i as int)).push(json@[i as int]));
        }
        out.push(json[i]);
        i = i + 1;
    }
    out.push(10u8);
    proof {
        assert(json@.take(json.len() as int) =~= json@);
        assert(out@ =~= framed(json@));
    }
    out
}

/// Reads `u32::from_str_radix` of the ASCII bytes `s`.
fn parse_hex_exec(s: &[u8]) -> (r: Option<u32>)
    ensures
        r == parse_hex_u32(s@),
{
    let from: usize = if s.len() > 0 && s[0] == 43u8 { 1 } else { 0 };
    let ghost ds = hex_body(s@);
    proof {
        assert(ds =~= s@.skip(from as int));
    }
    if from == s.len() {
        return None;
    }
    let mut acc: u64 = 0;
    let mut i: usize = from;
    proof {
        assert(ds.take(0) =~= Seq::<u8>::empty());
    }
    while i < s.len()
        invariant
            from <= i <= s.len(),
            ds == s@.skip(from as int),
            ds == hex_body(s@),
            forall|j: int| 0 <= j < i - from ==> is_hex_digit(#[trigger] ds[j]),
            acc as nat == hex_value(ds.take(i - from)),
            acc <= u32::MAX,
        decreases s.len() - i,
    {
        let b = s[i];
        proof {
            assert(ds[i - from] == b);
            assert(ds.take(i - from + 1).drop_last() =~= ds.take(i - from));
        }
        let d: u64 = if 48u8 <= b && b <= 57u8 {
            (b - 48u8) as u64
        } else if 97u8 <= b && b <= 102u8 {
            (b - 87u8) as u64
        } else if 65u8 <= b && b <= 70u8 {
            (b - 55u8) as u64
        } else {
            proof {
                assert(!is_hex_digit(ds[i - from]));
                assert(!all_hex(ds));
            }
            return None;
        };
        proof {
            assert(is_hex_digit(ds[i - from]));
            assert(hex_value_of(b) == d);
            assert(ds.take(i - from + 1).last() == b);
        }
        acc = acc * 16 + d;
        proof {
            assert(hex_value(ds.take(i - from + 1)) == acc);
        }
        if acc > u32::MAX as u64 {
            proof {
                let full = ds;
                assert forall|j: int| 0 <= j < i - from + 1 implies is_hex_digit(#[trigger] ds[j]) by {}
                if all_hex(full) {
                    lemma_hex_value_prefix(full, i - from + 1);
                }
            }
            return None;
        }
        i = i + 1;
    }
    proof {
        assert(ds.take(i - from) =~= ds);
    }
    Some(acc as u32)
}

/// A prefix of a hexadecimal string never has a larger value.
proof fn lemma_hex_value_prefix(s: Seq<u8>, k: int)
    requires
        0 <= k <= s.len(),
    ensures
        hex_value(s.take(k)) <= hex_value(s),
    decreases s.len(),
{
    if k < s.len() {
        assert(s.drop_last().take(k) =~= s.take(k));
        lemma_hex_value_prefix(s.drop_last(), k);
    } else {
        assert(s.take(k) =~= s);
    }
}

/// The JSON text of a record line whose checksum matches.
pub fn verify_record(line: &[u8]) -> (r: Option<&[u8]>)
    ensures
        match r {
            Some(json) => record_json(line@) == Some(json@),
            None => record_json(line@) is None,
        },
{
    let n = line.len();
    if n == 0 || line[n - 1] != 10u8 {
        return None;
    }
    if n <= RECORD_PREFIX_LEN {
        return None;
    }
    if line[8] != 9u8 {
        return None;
    }
    let prefix = vstd::slice::slice_subrange(line, 0, 8);
    proof {
        assert(prefix@ =~= line@.take(8));
    }
    let expected = match parse_hex_exec(prefix) {
        Some(v) => v,
        None => {
            return None;
        },
    };
    let json = vstd::slice::slice_subrange(line, RECORD_PREFIX_LEN, n - 1);
    if crc32(json) != expected {
        return None;
    }
    Some(json)
}

/// The digits written for a value are hexadecimal digits reading back the
/// value modulo 16 to the number of digits.
proof fn lemma_hex_digits(x: nat, n: nat)
    ensures
        hex_digits(x, n).len() == n,
        forall|i: int| 0 <= i < n ==> is_hex_digit(#[trigger] hex_digits(x, n)[i]),
        forall|i: int| 0 <= i < n ==> #[trigger] hex_digits(x, n)[i] != 43,
        hex_value(hex_digits(x, n)) == x % pow16(n),
    decreases n,
{
    if n > 0 {
        lemma_hex_digits(x / 16, (n - 1) as nat);
        let p = hex_digits(x / 16, (n - 1) as nat);
        let h = hex_digits(x, n);
        assert(h.drop_last() =~= p);
        assert(hex_value_of(hex_char(x % 16)) == x % 16);
        assert forall|i: int| 0 <= i < n implies is_hex_digit(#[trigger] h[i]) && h[i] != 43 by {
            if i < n - 1 {
                assert(h[i] == p[i]);
            }
        }
        lemma_pow16_pos((n - 1) as nat);
        lemma_mod_breakdown(x as int, 16, pow16((n - 1) as nat) as int);
    }
}

/// Powers of sixteen.
pub open spec fn pow16(n: nat) -> nat
    decreases n,
{
    if n == 0 {
        1
    } else {
        16 * pow16((n - 1) as nat)
    }
}

proof fn lemma_pow16_pos(n: nat)
    ensures
        pow16(n) > 0,
    decreases n,
{
    if n > 0 {
        lemma_pow16_pos((n - 1) as nat);
    }
}

/// A framed record passes the check and yields its JSON text back.
pub proof fn framed_record_verifies(json: Seq<u8>)
    ensures
        record_json(framed(json)) == Some(json),
{
    let c = crc32_of(json);
    lemma_hex_digits(c as nat, 8);
    assert(pow16(8) == 0x1_0000_0000) by {
        reveal_with_fuel(pow16, 9);
    }
    let line = framed(json);
    assert(line.take(8) =~= hex8(c));
    assert(line.subrange(9, line.len() - 1) =~= json);
    assert(line[8] == 9u8);
}

/// A framed record of a JSON text without newlines is one line: its only
/// newline is the last byte, and it reads back the text.
pub proof fn framed_record_is_one_line(json: Seq<u8>)
    requires
        forall|i: int| 0 <= i < json.len() ==> json[i] != 10u8,
    ensures
        framed(json).len() == json.len() + 10,
        framed(json)[framed(json).len() - 1] == 10u8,
        forall|i: int| 0 <= i < framed(json).len() - 1 ==> framed(json)[i] != 10u8,
        record_json(framed(json)) == Some(json),
{
    let c = crc32_of(json);
    lemma_hex_digits(c as nat, 8);
    framed_record_verifies(json);
    let f = framed(json);
    assert forall|i: int| 0 <= i < f.len() - 1 implies f[i] != 10u8 by {
        if i < 8 {
            assert(f[i] == hex8(c)[i]);
            assert(is_hex_digit(hex_digits(c as nat, 8)[i]));
        } else if i == 8 {
            assert(f[i] == 9u8);
        } else {
            assert(f[i] == json[i - 9]);
        }
    }
}

} // verus!
