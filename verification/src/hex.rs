//! Hexadecimal text and the fixed-width binary values parsed from it:
//! 20-byte contract addresses and 32-byte unsigned words.

use vstd::prelude::*;

use crate::words::{be_val, pow256};

verus! {

pub open spec fn is_hex_digit(c: char) -> bool {
    ('0' <= c && c <= '9') || ('a' <= c && c <= 'f') || ('A' <= c && c <= 'F')
}

pub open spec fn hex_digit_val(c: char) -> nat {
    if '0' <= c && c <= '9' {
        (c as int - '0' as int) as nat
    } else if 'a' <= c && c <= 'f' {
        (c as int - 'a' as int + 10) as nat
    } else if 'A' <= c && c <= 'F' {
        (c as int - 'A' as int + 10) as nat
    } else {
        0
    }
}

pub open spec fn all_hex(s: Seq<char>) -> bool {
    forall|i: int| 0 <= i < s.len() ==> is_hex_digit(s[i])
}

/// The number an all-hex string denotes, most significant digit first.
pub open spec fn hex_val(s: Seq<char>) -> nat
    decreases s.len(),
{
    if s.len() == 0 {
        0
    } else {
        hex_val(s.drop_last()) * 16 + hex_digit_val(s.last())
    }
}

/// The bytes an even-length hex string denotes, two digits a byte.
pub open spec fn pair_bytes(s: Seq<char>) -> Seq<u8> {
    Seq::new(s.len() / 2, |i: int| (16 * hex_digit_val(s[2 * i]) + hex_digit_val(s[2 * i + 1])) as u8)
}

/// `s` without a leading `0x`, if it carries one.
pub open spec fn strip_0x(s: Seq<char>) -> Seq<char> {
    if s.len() >= 2 && s[0] == '0' && s[1] == 'x' {
        s.skip(2)
    } else {
        s
    }
}

/// What a well-formed contract address string (optional `0x`, then exactly
/// 40 hex digits) denotes.
pub open spec fn spec_parse_address(s: Seq<char>) -> Option<Seq<u8>> {
    let h = strip_0x(s);
    if h.len() == 40 && all_hex(h) {
        Some(pair_bytes(h))
    } else {
        None
    }
}

proof fn lemma_hex_digit_val_bound(c: char)
    requires
        is_hex_digit(c),
    ensures
        hex_digit_val(c) < 16,
{
}

/// Grouping hex digits two by two into bytes keeps the denoted number.
pub proof fn lemma_pair_bytes_val(s: Seq<char>)
    requires
        s.len() % 2 == 0,
        all_hex(s),
    ensures
        be_val(pair_bytes(s)) == hex_val(s),
    decreases s.len(),
{
    if s.len() == 0 {
        assert(pair_bytes(s) =~= Seq::<u8>::empty());
    } else {
        let n = s.len() as int;
        let t = s.take(n - 2);
        assert(t.len() % 2 == 0);
        lemma_pair_bytes_val(t);
        lemma_hex_digit_val_bound(s[n - 2]);
        lemma_hex_digit_val_bound(s[n - 1]);
        assert(pair_bytes(s).drop_last() =~= pair_bytes(t));
        let hi = hex_digit_val(s[n - 2]);
        let lo = hex_digit_val(s[n - 1]);
        assert(pair_bytes(s).last() == (16 * hi + lo) as u8);
        assert(be_val(pair_bytes(s)) == be_val(pair_bytes(t)) * 256 + 16 * hi + lo);
        assert(s.drop_last().drop_last() =~= t);
        assert(s.last() == s[n - 1]);
        assert(s.drop_last().last() == s[n - 2]);
        assert(hex_val(s.drop_last()) == hex_val(t) * 16 + hi);
        assert(hex_val(s) == (hex_val(t) * 16 + hi) * 16 + lo);
        assert((hex_val(t) * 16 + hi) * 16 == hex_val(t) * 256 + hi * 16) by (nonlinear_arith);
    }
}

pub open spec fn zero_chars(n: nat) -> Seq<char> {
    Seq::new(n, |i: int| '0')
}

proof fn lemma_hex_val_all_zero(z: Seq<char>)
    requires
        forall|i: int| 0 <= i < z.len() ==> z[i] == '0',
    ensures
        hex_val(z) == 0,
    decreases z.len(),
{
    if z.len() > 0 {
        assert(forall|i: int| 0 <= i < z.len() - 1 ==> #[trigger] z.drop_last()[i] == '0');
        lemma_hex_val_all_zero(z.drop_last());
    }
}

/// Leading zero digits do not change the denoted number.
pub proof fn lemma_hex_val_zeros_prefix(z: Seq<char>, h: Seq<char>)
    requires
        forall|i: int| 0 <= i < z.len() ==> z[i] == '0',
    ensures
        hex_val(z + h) == hex_val(h),
    decreases h.len(),
{
    if h.len() == 0 {
        assert(z + h =~= z);
        lemma_hex_val_all_zero(z);
    } else {
        assert((z + h).drop_last() =~= z + h.drop_last());
        assert((z + h).last() == h.last());
        lemma_hex_val_zeros_prefix(z, h.drop_last());
    }
}

/// The numeric value of one hex digit character.
pub fn hex_digit_value(c: char) -> (r: Option<u8>)
    ensures
        match r {
            Some(v) => is_hex_digit(c) && v as nat == hex_digit_val(c) && v < 16,
            None => !is_hex_digit(c),
        },
{
    let u = c as u32;
    if 0x30 <= u && u <= 0x39 {
        Some((u - 0x30) as u8)
    } else if 0x61 <= u && u <= 0x66 {
        Some((u - 0x61 + 10) as u8)
    } else if 0x41 <= u && u <= 0x46 {
        Some((u - 0x41 + 10) as u8)
    } else {
        None
    }
}

/// A 20-byte EVM contract or account address.
#[derive(Clone, Debug)]
pub struct EvmAddress {
    pub bytes: Vec<u8>,
}

impl EvmAddress {
    pub open spec fn wf(&self) -> bool {
        self.bytes@.len() == 20
    }

    /// A copy whose bytes are the same.
    pub fn duplicate(&self) -> (r: EvmAddress)
        ensures
            r.bytes@ == self.bytes@,
    {
        EvmAddress { bytes: vstd::slice::slice_to_vec(self.bytes.as_slice()) }
    }
}

/// Law: a 32-byte word written for a 256-bit value reads back as exactly
/// that value, for every value up to `2^256 - 1`; and the value survives
/// the downcast to the external 64-bit amount exactly when it is under
/// `2^64` — larger values are refused, never wrapped (`Uint256::to_u64`).
pub proof fn lemma_word_value_round_trip(v: nat)
    requires
        v < pow256(32),
    ensures
        be_val(crate::words::be_bytes(v, 32)) == v,
        crate::words::be_bytes(v, 32).len() == 32,
{
    crate::words::lemma_be_val_of_be_bytes(v, 32);
    crate::words::lemma_be_bytes_len(v, 32);
}

/// Parses an address string: an optional `0x` prefix followed by exactly
/// 40 hex digits, case-insensitive.
pub fn parse_evm_address(s: &str) -> (r: Option<EvmAddress>)
    ensures
        match r {
            Some(a) => a.wf() && spec_parse_address(s@) == Some(a.bytes@),
            None => spec_parse_address(s@) is None,
        },
{
    let n = s.unicode_len();
    let start: usize = if n >= 2 && s.get_char(0) == '0' && s.get_char(1) == 'x' {
        2
    } else {
        0
    };
    let ghost h = strip_0x(s@);
    proof {
        assert(h =~= s@.skip(start as int));
    }
    if n - start != 40 {
        return None;
    }
    let mut bytes: Vec<u8> = Vec::new();
    let mut i: usize = 0;
    while i < 20
        invariant
            i <= 20,
            n == s@.len(),
            start + 40 == n,
            h =~= s@.skip(start as int),
            h.len() == 40,
            forall|j: int| 0 <= j < 2 * i ==> is_hex_digit(h[j]),
            bytes@ =~= pair_bytes(h).take(i as int),
        decreases 20 - i,
    {
        proof {
            assert(h[2 * i as int] == s@[start + 2 * i]);
            assert(h[2 * i as int + 1] == s@[start + 2 * i + 1]);
        }
        let hi = match hex_digit_value(s.get_char(start + 2 * i)) {
            Some(v) => v,
            None => {
                proof {
                    assert(!is_hex_digit(h[2 * i as int]));
                }
                return None;
            },
        };
        let lo = match hex_digit_value(s.get_char(start + 2 * i + 1)) {
            Some(v) => v,
            None => {
                proof {
                    assert(!is_hex_digit(h[2 * i as int + 1]));
                }
                return None;
            },
        };
        bytes.push(hi * 16 + lo);
        proof {
            assert(h[2 * i as int] == s@[start + 2 * i]);
            assert(h[2 * i as int + 1] == s@[start + 2 * i + 1]);
            assert(bytes@ =~= pair_bytes(h).take(i as int + 1));
        }
        i = i + 1;
    }
    proof {
        assert(all_hex(h));
        assert(bytes@ =~= pair_bytes(h));
    }
    Some(EvmAddress { bytes })
}

/// A 256-bit unsigned integer, kept as its 32-byte big-endian encoding.
#[derive(Clone, Debug)]
pub struct Uint256 {
    pub bytes: Vec<u8>,
}

/// What a JSON-RPC quantity string (`0x` and one to 64 hex digits) denotes.
pub open spec fn spec_parse_quantity(s: Seq<char>) -> Option<nat> {
    if s.len() >= 3 && s[0] == '0' && s[1] == 'x' && s.len() <= 66 && all_hex(s.skip(2)) {
        Some(hex_val(s.skip(2)))
    } else {
        None
    }
}

impl Uint256 {
    pub open spec fn wf(&self) -> bool {
        self.bytes@.len() == 32
    }

    /// The number this word denotes.
    pub open spec fn value(&self) -> nat {
        be_val(self.bytes@)
    }

    pub fn from_u64(x: u64) -> (r: Uint256)
        ensures
            r.wf(),
            r.value() == x,
    {
        let mut bytes: Vec<u8> = Vec::new();
        crate::words::push_word_u64(&mut bytes, x);
        proof {
            crate::words::lemma_be_bytes_len(x as nat, 32);
            crate::words::lemma_pow256_values();
            crate::words::lemma_pow256_mono(8, 32);
            crate::words::lemma_be_val_of_be_bytes(x as nat, 32);
        }
        Uint256 { bytes }
    }

    /// Takes a raw 32-byte word; anything of another width is refused.
    pub fn from_word(data: Vec<u8>) -> (r: Option<Uint256>)
        ensures
            match r {
                Some(u) => u.wf() && u.bytes@ == data@ && u.value() == be_val(data@),
                None => data@.len() != 32,
            },
    {
        if data.len() == 32 {
            Some(Uint256 { bytes: data })
        } else {
            None
        }
    }

    /// The value as a 64-bit amount; `None` when it does not fit.
    pub fn to_u64(&self) -> (r: Option<u64>)
        requires
            self.wf(),
        ensures
            match r {
                Some(x) => self.value() < pow256(8) && x as nat == self.value(),
                None => self.value() >= pow256(8),
            },
    {
        proof {
            assert(self.bytes@.subrange(0, 32) =~= self.bytes@);
        }
        crate::words::read_word_u64(&self.bytes, 0)
    }

    /// Parses a JSON-RPC hexadecimal quantity such as `0x1a`.
    pub fn from_hex_quantity(s: &str) -> (r: Option<Uint256>)
        ensures
            match r {
                Some(u) => u.wf() && spec_parse_quantity(s@) == Some(u.value()),
                None => spec_parse_quantity(s@) is None,
            },
    {
        let n = s.unicode_len();
        if n < 3 || n > 66 || s.get_char(0) != '0' || s.get_char(1) != 'x' {
            return None;
        }
        let ghost h = s@.skip(2);
        let d = n - 2;
        let pad: usize = 64 - d;
        let ghost padded = zero_chars(pad as nat) + h;
        assert(padded.len() == 64);
        let mut bytes: Vec<u8> = Vec::new();
        let mut i: usize = 0;
        while i < 32
        invariant
            i <= 32,
            n == s@.len(),
            3 <= n <= 66,
            d == n - 2,
            pad == 64 - d,
            h =~= s@.skip(2),
            padded =~= zero_chars(pad as nat) + h,
            padded.len() == 64,
            forall|j: int| 0 <= j < 2 * i ==> is_hex_digit(#[trigger] padded[j]),
            bytes@ =~= pair_bytes(padded).take(i as int),
        decreases 32 - i,
        {
            let hi: u8 = if 2 * i < pad {
                proof {
                    assert(padded[2 * i as int] == '0');
                }
                0
            } else {
                proof {
                    assert(padded[2 * i as int] == h[2 * i - pad]);
                    assert(h[2 * i - pad] == s@[2 + 2 * i - pad]);
                }
                match hex_digit_value(s.get_char(2 + 2 * i - pad)) {
                    Some(v) => v,
                    None => {
                        return None;
                    },
                }
            };
            let lo: u8 = if 2 * i + 1 < pad {
                proof {
                    assert(padded[2 * i as int + 1] == '0');
                }
                0
            } else {
                proof {
                    assert(padded[2 * i as int + 1] == h[2 * i + 1 - pad]);
                    assert(h[2 * i + 1 - pad] == s@[2 + 2 * i + 1 - pad]);
                }
                match hex_digit_value(s.get_char(2 + 2 * i + 1 - pad)) {
                    Some(v) => v,
                    None => {
                        return None;
                    },
                }
            };
            bytes.push(hi * 16 + lo);
            proof {
                assert(hex_digit_val('0') == 0);
                assert(bytes@ =~= pair_bytes(padded).take(i as int + 1));
            }
            i = i + 1;
        }
        proof {
            assert(all_hex(padded));
            assert(forall|k: int| 0 <= k < h.len() ==> #[trigger] h[k] == padded[pad + k]);
            assert(all_hex(h));
            assert(bytes@ =~= pair_bytes(padded));
            lemma_pair_bytes_val(padded);
            lemma_hex_val_zeros_prefix(zero_chars(pad as nat), h);
        }
        Some(Uint256 { bytes })
    }
}

} // verus!
