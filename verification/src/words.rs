//! Big-endian byte-string arithmetic: the numeric value a byte string
//! denotes, fixed-width encodings, and the 64-bit reads and writes the
//! contract-call codec is built from.

use vstd::prelude::*;

verus! {

/// 256^k.
pub open spec fn pow256(k: nat) -> nat
    decreases k,
{
    if k == 0 {
        1
    } else {
        256 * pow256((k - 1) as nat)
    }
}

/// The unsigned integer a big-endian byte string denotes.
pub open spec fn be_val(s: Seq<u8>) -> nat
    decreases s.len(),
{
    if s.len() == 0 {
        0
    } else {
        be_val(s.drop_last()) * 256 + (s.last() as nat)
    }
}

/// The `len`-byte big-endian encoding of `n` (of `n % 256^len` when `n` is
/// too wide).
pub open spec fn be_bytes(n: nat, len: nat) -> Seq<u8>
    decreases len,
{
    if len == 0 {
        Seq::empty()
    } else {
        be_bytes(n / 256, (len - 1) as nat).push((n % 256) as u8)
    }
}

pub proof fn lemma_pow256_values()
    ensures
        pow256(0) == 1,
        pow256(1) == 0x100,
        pow256(2) == 0x10000,
        pow256(3) == 0x1000000,
        pow256(4) == 0x100000000,
        pow256(5) == 0x10000000000,
        pow256(6) == 0x1000000000000,
        pow256(7) == 0x100000000000000,
        pow256(8) == 0x10000000000000000,
{
    assert(pow256(0) == 1);
    assert(pow256(1) == 0x100);
    assert(pow256(2) == 0x10000);
    assert(pow256(3) == 0x1000000);
    assert(pow256(4) == 0x100000000);
    assert(pow256(5) == 0x10000000000);
    assert(pow256(6) == 0x1000000000000);
    assert(pow256(7) == 0x100000000000000);
    assert(pow256(8) == 0x10000000000000000);
}

pub proof fn lemma_pow256_positive(k: nat)
    ensures
        pow256(k) >= 1,
    decreases k,
{
    if k > 0 {
        lemma_pow256_positive((k - 1) as nat);
    }
}

pub proof fn lemma_be_bytes_len(n: nat, len: nat)
    ensures
        be_bytes(n, len).len() == len,
    decreases len,
{
    if len > 0 {
        lemma_be_bytes_len(n / 256, (len - 1) as nat);
    }
}

pub proof fn lemma_be_val_bound(s: Seq<u8>)
    ensures
        be_val(s) < pow256(s.len()),
    decreases s.len(),
{
    if s.len() == 0 {
    } else {
        lemma_be_val_bound(s.drop_last());
        lemma_pow256_positive((s.len() - 1) as nat);
        assert(be_val(s.drop_last()) <= pow256((s.len() - 1) as nat) - 1);
        assert(be_val(s.drop_last()) * 256 <= (pow256((s.len() - 1) as nat) - 1) * 256)
            by (nonlinear_arith)
            requires
                be_val(s.drop_last()) <= pow256((s.len() - 1) as nat) - 1,
                pow256((s.len() - 1) as nat) >= 1,
        ;
    }
}

pub open spec fn zero_bytes(n: nat) -> Seq<u8> {
    Seq::new(n, |i: int| 0u8)
}

pub proof fn lemma_be_bytes_zero(len: nat)
    ensures
        be_bytes(0, len) =~= zero_bytes(len),
    decreases len,
{
    if len > 0 {
        lemma_be_bytes_zero((len - 1) as nat);
        lemma_be_bytes_len(0, (len - 1) as nat);
    }
}

/// A wide encoding splits into the encoding of the high part and of the
/// low `b` bytes.
pub proof fn lemma_be_bytes_split(n: nat, a: nat, b: nat)
    ensures
        be_bytes(n, a + b) =~= be_bytes(n / pow256(b), a) + be_bytes(n, b),
    decreases b,
{
    if b == 0 {
        lemma_pow256_positive(0);
        assert(pow256(0) == 1);
        assert(n / 1 == n);
    } else {
        let b1 = (b - 1) as nat;
        lemma_be_bytes_split(n / 256, a, b1);
        lemma_pow256_positive(b1);
        assert((n / 256) / pow256(b1) == n / (256 * pow256(b1))) by {
            vstd::arithmetic::div_mod::lemma_div_denominator(n as int, 256, pow256(b1) as int);
        }
        assert(be_bytes(n, (a + b) as nat) == be_bytes(n / 256, a + b1).push((n % 256) as u8));
        assert(be_bytes(n, b) == be_bytes(n / 256, b1).push((n % 256) as u8));
    }
}

/// The value of a byte string splits at any cut point.
pub proof fn lemma_be_val_split(s: Seq<u8>, k: int)
    requires
        0 <= k <= s.len(),
    ensures
        be_val(s) == be_val(s.take(k)) * pow256((s.len() - k) as nat) + be_val(s.skip(k)),
    decreases s.len() - k,
{
    if k == s.len() {
        assert(s.take(k) =~= s);
        assert(s.skip(k) =~= Seq::<u8>::empty());
        assert(be_val(s.skip(k)) == 0);
        assert(pow256((s.len() - k) as nat) == 1);
        assert(be_val(s.take(k)) * 1 == be_val(s));
        assert(be_val(s) == be_val(s.take(k)) * pow256((s.len() - k) as nat) + be_val(s.skip(k)));
    } else {
        let d = s.drop_last();
        lemma_be_val_split(d, k);
        assert(d.take(k) =~= s.take(k));
        assert(d.skip(k) =~= s.skip(k).drop_last());
        let p = pow256((d.len() - k) as nat);
        let t = be_val(s.take(k));
        let m = be_val(s.skip(k).drop_last());
        let b = s.last() as nat;
        assert(be_val(d) == t * p + m);
        assert(be_val(s) == (t * p + m) * 256 + b);
        assert((t * p + m) * 256 + b == t * (256 * p) + (m * 256 + b)) by (nonlinear_arith);
        assert(pow256((s.len() - k) as nat) == 256 * p);
        assert(s.skip(k).len() == s.len() - k);
        assert(s.skip(k).last() == s.last());
        assert(be_val(s.skip(k)) == m * 256 + b);
        assert(be_val(s) == t * pow256((s.len() - k) as nat) + be_val(s.skip(k)));
    }
}

/// A byte string denotes zero exactly when every byte is zero.
pub proof fn lemma_be_val_zero(s: Seq<u8>)
    ensures
        be_val(s) == 0 <==> (forall|i: int| 0 <= i < s.len() ==> s[i] == 0),
    decreases s.len(),
{
    if s.len() > 0 {
        let d = s.drop_last();
        lemma_be_val_zero(d);
        assert(forall|i: int| 0 <= i < s.len() - 1 ==> #[trigger] s[i] == d[i]);
        if be_val(s) == 0 {
            assert(be_val(d) * 256 + (s.last() as nat) == 0);
            assert(be_val(d) == 0);
            assert(forall|i: int| 0 <= i < s.len() - 1 ==> s[i] == 0);
            assert(s[s.len() - 1] == 0);
        }
        if forall|i: int| 0 <= i < s.len() ==> s[i] == 0 {
            assert(forall|i: int| 0 <= i < d.len() ==> d[i] == 0);
            assert(be_val(d) == 0);
            assert(s.last() == 0);
            assert(be_val(s) == 0);
        }
    }
}

/// Leading zeroes pin the value under `pow256` of the remaining width, and
/// conversely.
pub proof fn lemma_be_val_leading_zeros(s: Seq<u8>, k: int)
    requires
        0 <= k <= s.len(),
    ensures
        (forall|i: int| 0 <= i < k ==> s[i] == 0) <==> be_val(s) < pow256((s.len() - k) as nat),
        (forall|i: int| 0 <= i < k ==> s[i] == 0) ==> be_val(s) == be_val(s.skip(k)),
{
    lemma_be_val_split(s, k);
    lemma_be_val_zero(s.take(k));
    lemma_be_val_bound(s.skip(k));
    lemma_pow256_positive((s.len() - k) as nat);
    let p = pow256((s.len() - k) as nat);
    if forall|i: int| 0 <= i < k ==> s[i] == 0 {
        assert(forall|i: int| 0 <= i < k ==> #[trigger] s.take(k)[i] == s[i]);
        assert(be_val(s.take(k)) == 0);
    } else {
        let j = choose|j: int| 0 <= j < k && s[j] != 0;
        assert(s.take(k)[j] != 0);
        assert(be_val(s.take(k)) >= 1);
        assert(be_val(s.take(k)) * p >= 1 * p) by (nonlinear_arith)
            requires
                be_val(s.take(k)) >= 1,
                p >= 1,
        ;
    }
}

pub proof fn lemma_pow256_mono(a: nat, b: nat)
    requires
        a <= b,
    ensures
        pow256(a) <= pow256(b),
    decreases b,
{
    if a < b {
        lemma_pow256_mono(a, (b - 1) as nat);
        lemma_pow256_positive((b - 1) as nat);
    }
}

pub proof fn lemma_be_bytes_index(n: nat, len: nat, i: int)
    requires
        0 <= i < len,
    ensures
        be_bytes(n, len).len() == len,
        be_bytes(n, len)[i] == ((n / pow256((len - 1 - i) as nat)) % 256) as u8,
    decreases len,
{
    lemma_be_bytes_len(n, len);
    if i == len - 1 {
        assert(pow256(0) == 1);
        assert(n / 1 == n);
    } else {
        lemma_be_bytes_index(n / 256, (len - 1) as nat, i);
        let k = (len - 2 - i) as nat;
        lemma_pow256_positive(k);
        assert((n / 256) / pow256(k) == n / (256 * pow256(k))) by {
            vstd::arithmetic::div_mod::lemma_div_denominator(n as int, 256, pow256(k) as int);
        }
        assert(pow256((len - 1 - i) as nat) == 256 * pow256(k));
        assert(be_bytes(n, len)[i] == be_bytes(n / 256, (len - 1) as nat)[i]);
    }
}

/// Round trip: reading back an encoding recovers the number.
pub proof fn lemma_be_val_of_be_bytes(n: nat, len: nat)
    requires
        n < pow256(len),
    ensures
        be_val(be_bytes(n, len)) == n,
    decreases len,
{
    if len == 0 {
    } else {
        let len1 = (len - 1) as nat;
        assert(n / 256 < pow256(len1)) by (nonlinear_arith)
            requires
                n < pow256(len),
                pow256(len) == 256 * pow256(len1),
        ;
        lemma_be_val_of_be_bytes(n / 256, len1);
        lemma_be_bytes_len(n / 256, len1);
        let s = be_bytes(n, len);
        assert(s.drop_last() =~= be_bytes(n / 256, len1));
        assert(be_val(s) == (n / 256) * 256 + n % 256);
        assert((n / 256) * 256 + n % 256 == n) by (nonlinear_arith);
    }
}

/// Appends the 32-byte big-endian encoding of `x` to `out`.
pub fn push_word_u64(out: &mut Vec<u8>, x: u64)
    ensures
        final(out)@ =~= old(out)@ + be_bytes(x as nat, 32),
{
    proof {
        lemma_pow256_values();
        lemma_be_bytes_split(x as nat, 24, 8);
        assert(x as nat / pow256(8) == 0);
        lemma_be_bytes_zero(24);
        lemma_be_bytes_len(x as nat, 8);
    }
    let ghost prefix = out@;
    let mut zeros: Vec<u8> = vec![0u8; 24];
    out.append(&mut zeros);
    assert(out@ =~= prefix + zero_bytes(24));
    let ghost mid = out@;
    out.push(((x / 0x100000000000000u64) % 256) as u8);
    out.push(((x / 0x1000000000000u64) % 256) as u8);
    out.push(((x / 0x10000000000u64) % 256) as u8);
    out.push(((x / 0x100000000u64) % 256) as u8);
    out.push(((x / 0x1000000u64) % 256) as u8);
    out.push(((x / 0x10000u64) % 256) as u8);
    out.push(((x / 0x100u64) % 256) as u8);
    out.push((x % 256) as u8);
    proof {
        let low = be_bytes(x as nat, 8);
        assert forall|i: int| 0 <= i < 8 implies low[i] == out@[mid.len() + i] by {
            lemma_be_bytes_index(x as nat, 8, i);
            lemma_pow256_values();
        }
        assert(out@ =~= mid + low);
        assert(prefix + be_bytes(x as nat, 32) =~= (prefix + zero_bytes(24)) + low);
    }
}

/// Reads the 32-byte big-endian word at `pos` as a `u64`; `None` when the
/// value does not fit in 64 bits.
pub fn read_word_u64(data: &Vec<u8>, pos: usize) -> (r: Option<u64>)
    requires
        pos + 32 <= data@.len(),
    ensures
        ({
            let w = data@.subrange(pos as int, pos + 32);
            match r {
                Some(x) => x as nat == be_val(w) && be_val(w) < pow256(8),
                None => be_val(w) >= pow256(8),
            }
        }),
{
    let ghost w = data@.subrange(pos as int, pos + 32);
    let n = data.len();
    proof {
        lemma_pow256_values();
        lemma_be_val_leading_zeros(w, 24);
    }
    let mut i: usize = 0;
    while i < 24
        invariant
            i <= 24,
            n == data@.len(),
            pos + 32 <= data@.len(),
            w =~= data@.subrange(pos as int, pos + 32),
            forall|j: int| 0 <= j < i ==> w[j] == 0,
        decreases 24 - i,
    {
        if *vstd::slice::slice_index_get(data.as_slice(), pos + i) != 0 {
            proof {
                assert(w[i as int] != 0);
                lemma_be_val_leading_zeros(w, 24);
            }
            return None;
        }
        i = i + 1;
    }
    proof {
        lemma_be_val_leading_zeros(w, 24);
        assert(be_val(w) == be_val(w.skip(24)));
    }
    let mut acc: u64 = 0;
    let mut j: usize = 0;
    while j < 8
        invariant
            j <= 8,
            n == data@.len(),
            pos + 32 <= data@.len(),
            w =~= data@.subrange(pos as int, pos + 32),
            acc as nat == be_val(w.subrange(24, 24 + j)),
            (acc as nat) < pow256(j as nat),
        decreases 8 - j,
    {
        let b = *vstd::slice::slice_index_get(data.as_slice(), pos + 24 + j);
        proof {
            lemma_pow256_values();
            lemma_pow256_mono(j as nat, 7);
            let cur = w.subrange(24, 24 + j as int);
            let next = w.subrange(24, 24 + j + 1);
            assert(next.drop_last() =~= cur);
            assert(next.last() == w[24 + j]);
            assert(w[24 + j] == data@[pos + 24 + j]);
        }
        acc = acc * 256 + (b as u64);
        j = j + 1;
    }
    proof {
        assert(w.subrange(24, 32) =~= w.skip(24));
        lemma_pow256_values();
    }
    Some(acc)
}

} // verus!
