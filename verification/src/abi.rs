//! The contract-call codec: builds the call data for `balanceOf(address)`
//! and for the batch-read contract's `aggregate((address,bytes)[] calls)`,
//! and decodes the aggregate call's two outputs (a block number, which this
//! service ignores, and an array of raw return-data byte strings).

use vstd::prelude::*;

use crate::hex::EvmAddress;
use crate::words::{
    be_bytes, be_val, lemma_be_bytes_len, lemma_be_val_of_be_bytes, pow256, push_word_u64,
    read_word_u64, zero_bytes,
};

verus! {

/// The four-byte selector of `balanceOf(address)`.
pub open spec fn balance_of_selector() -> Seq<u8> {
    seq![0x70u8, 0xa0u8, 0x82u8, 0x31u8]
}

/// The four-byte selector of `aggregate((address,bytes)[])`.
pub open spec fn aggregate_selector() -> Seq<u8> {
    seq![0x25u8, 0x2du8, 0xbau8, 0x42u8]
}

/// Call data of `balanceOf(holder)`: the selector, then the address
/// left-padded to one 32-byte word. 36 bytes in all.
pub open spec fn spec_balance_of_call_data(holder: Seq<u8>) -> Seq<u8> {
    balance_of_selector() + zero_bytes(12) + holder
}

/// One `(target, callData)` element of the aggregate argument, as the tuple
/// is laid out: the target address word, the offset of the dynamic bytes
/// member (always 0x40), its length (always 36), and the call data padded
/// to a word boundary. 160 bytes in all.
pub open spec fn spec_call_tuple(target: Seq<u8>, holder: Seq<u8>) -> Seq<u8> {
    zero_bytes(12) + target + be_bytes(0x40, 32) + be_bytes(36, 32)
        + spec_balance_of_call_data(holder) + zero_bytes(28)
}

/// The offset table of the aggregate argument's `k`-element array, first
/// `i` entries: entry `j` holds the position of tuple `j` relative to the
/// end of the array length word.
pub open spec fn spec_offset_words(k: nat, i: nat) -> Seq<u8>
    decreases i,
{
    if i == 0 {
        Seq::empty()
    } else {
        spec_offset_words(k, (i - 1) as nat) + be_bytes(32 * k + 160 * ((i - 1) as nat), 32)
    }
}

/// The first `i` encoded tuples, one per target.
pub open spec fn spec_tuple_words(targets: Seq<Seq<u8>>, holder: Seq<u8>, i: nat) -> Seq<u8>
    decreases i,
{
    if i == 0 {
        Seq::empty()
    } else {
        spec_tuple_words(targets, holder, (i - 1) as nat)
            + spec_call_tuple(targets[i - 1], holder)
    }
}

/// Call data of `aggregate(calls)` where call `j` is
/// `(targets[j], balanceOf(holder))`: the selector, the offset of the one
/// argument, the array length, the offset table and the tuples.
pub open spec fn spec_aggregate_call_data(targets: Seq<Seq<u8>>, holder: Seq<u8>) -> Seq<u8> {
    aggregate_selector() + be_bytes(32, 32) + be_bytes(targets.len(), 32)
        + spec_offset_words(targets.len(), targets.len())
        + spec_tuple_words(targets, holder, targets.len())
}

/// Appends a copy of `src` to `out`.
fn append_bytes(out: &mut Vec<u8>, src: &Vec<u8>)
    ensures
        final(out)@ =~= old(out)@ + src@,
{
    let mut copy = vstd::slice::slice_to_vec(src.as_slice());
    out.append(&mut copy);
}

/// Appends `n` zero bytes to `out`.
fn append_zeros(out: &mut Vec<u8>, n: usize)
    ensures
        final(out)@ =~= old(out)@ + zero_bytes(n as nat),
{
    let mut zeros: Vec<u8> = vec![0u8; n];
    out.append(&mut zeros);
}

/// Builds the call data of `balanceOf(holder)`.
pub fn encode_balance_of_call(holder: &EvmAddress) -> (r: Vec<u8>)
    requires
        holder.wf(),
    ensures
        r@ =~= spec_balance_of_call_data(holder.bytes@),
        r@.len() == 36,
{
    let mut out: Vec<u8> = Vec::new();
    out.push(0x70);
    out.push(0xa0);
    out.push(0x82);
    out.push(0x31);
    proof {
        assert(out@ =~= balance_of_selector());
    }
    append_zeros(&mut out, 12);
    append_bytes(&mut out, &holder.bytes);
    proof {
        assert(out@ =~= (balance_of_selector() + zero_bytes(12)) + holder.bytes@);
    }
    out
}

/// Builds the call data of `aggregate(calls)` against the batch-read
/// contract, one `balanceOf(holder)` call per target contract.
pub fn encode_aggregate_call(targets: &Vec<EvmAddress>, holder: &EvmAddress) -> (r: Vec<u8>)
    requires
        holder.wf(),
        forall|j: int| 0 <= j < targets@.len() ==> (#[trigger] targets@[j]).wf(),
        68 + 192 * targets@.len() <= usize::MAX,
    ensures
        r@ =~= spec_aggregate_call_data(
            targets@.map_values(|a: EvmAddress| a.bytes@),
            holder.bytes@,
        ),
{
    let ghost tviews = targets@.map_values(|a: EvmAddress| a.bytes@);
    let k = targets.len();
    let call_data = encode_balance_of_call(holder);
    let mut out: Vec<u8> = Vec::new();
    out.push(0x25);
    out.push(0x2d);
    out.push(0xba);
    out.push(0x42);
    proof {
        assert(out@ =~= aggregate_selector());
    }
    push_word_u64(&mut out, 32);
    push_word_u64(&mut out, k as u64);
    let ghost head = aggregate_selector() + be_bytes(32, 32) + be_bytes(k as nat, 32);
    proof {
        assert(out@ =~= head);
    }
    let mut i: usize = 0;
    while i < k
        invariant
            i <= k,
            k == targets@.len(),
            68 + 192 * k <= usize::MAX,
            out@ =~= head + spec_offset_words(k as nat, i as nat),
        decreases k - i,
    {
        push_word_u64(&mut out, (32 * k + 160 * i) as u64);
        proof {
            assert(out@ =~= head + spec_offset_words(k as nat, (i + 1) as nat));
        }
        i = i + 1;
    }
    let ghost mid = head + spec_offset_words(k as nat, k as nat);
    let mut i: usize = 0;
    while i < k
        invariant
            i <= k,
            k == targets@.len(),
            holder.wf(),
            forall|j: int| 0 <= j < targets@.len() ==> (#[trigger] targets@[j]).wf(),
            tviews == targets@.map_values(|a: EvmAddress| a.bytes@),
            call_data@ =~= spec_balance_of_call_data(holder.bytes@),
            out@ =~= mid + spec_tuple_words(tviews, holder.bytes@, i as nat),
        decreases k - i,
    {
        let ghost before = out@;
        append_zeros(&mut out, 12);
        append_bytes(&mut out, &targets[i].bytes);
        push_word_u64(&mut out, 0x40);
        push_word_u64(&mut out, 36);
        append_bytes(&mut out, &call_data);
        append_zeros(&mut out, 28);
        proof {
            assert(tviews[i as int] == targets@[i as int].bytes@);
            assert(out@ =~= before + spec_call_tuple(tviews[i as int], holder.bytes@));
            assert(out@ =~= mid + spec_tuple_words(tviews, holder.bytes@, (i + 1) as nat));
        }
        i = i + 1;
    }
    out
}

/// The 32-byte word at `pos`, as a number.
pub open spec fn word_at(data: Seq<u8>, pos: int) -> nat {
    be_val(data.subrange(pos, pos + 32))
}

/// One element of the returned `bytes[]`: entry `j` of the offset table at
/// `table` says where the element's length word stands, relative to the
/// table start; the element's bytes follow its length word.
pub open spec fn spec_decode_elem(data: Seq<u8>, table: int, j: int) -> Option<Seq<u8>> {
    let base = table + word_at(data, table + 32 * j);
    if base + 32 > data.len() {
        None
    } else {
        let l = word_at(data, base);
        if base + 32 + l > data.len() {
            None
        } else {
            Some(data.subrange(base + 32, base + 32 + l))
        }
    }
}

/// The first `i` elements of the returned `bytes[]`; `None` as soon as one
/// is out of shape.
pub open spec fn spec_decode_elems(data: Seq<u8>, table: int, i: nat) -> Option<Seq<Seq<u8>>>
    decreases i,
{
    if i == 0 {
        Some(Seq::empty())
    } else {
        match spec_decode_elems(data, table, (i - 1) as nat) {
            Option::None => None,
            Option::Some(pre) => match spec_decode_elem(data, table, i - 1) {
                Option::None => None,
                Option::Some(e) => Some(pre.push(e)),
            },
        }
    }
}

/// What the two declared outputs of `aggregate` decode to: the block number
/// word is skipped, the dynamic array of byte strings is followed through
/// its offset table. `None` when the data does not carry that shape.
pub open spec fn spec_decode_aggregate(data: Seq<u8>) -> Option<Seq<Seq<u8>>> {
    if data.len() < 64 {
        None
    } else {
        let off = word_at(data, 32);
        if off + 32 > data.len() {
            None
        } else {
            let n = word_at(data, off as int);
            if off + 32 + 32 * n > data.len() {
                None
            } else {
                spec_decode_elems(data, (off + 32) as int, n)
            }
        }
    }
}

proof fn lemma_decode_elems_none(data: Seq<u8>, table: int, i: nat, j: int)
    requires
        0 <= j < i,
        spec_decode_elem(data, table, j) is None,
    ensures
        spec_decode_elems(data, table, i) is None,
    decreases i,
{
    if j < i - 1 {
        lemma_decode_elems_none(data, table, (i - 1) as nat, j);
    }
}

/// Decodes the aggregate call's answer into the raw per-call return data.
pub fn decode_aggregate_output(data: &Vec<u8>) -> (r: Option<Vec<Vec<u8>>>)
    ensures
        match r {
            Some(v) => spec_decode_aggregate(data@) == Some(v.deep_view()),
            None => spec_decode_aggregate(data@) is None,
        },
{
    let len = data.len();
    if len < 64 {
        return None;
    }
    let ghost g_off = word_at(data@, 32);
    let off64 = match read_word_u64(data, 32) {
        Some(x) => x,
        None => {
            proof {
                crate::words::lemma_pow256_values();
                assert(g_off >= pow256(8));
            }
            return None;
        },
    };
    proof {
        assert(off64 as nat == g_off);
    }
    if off64 > (len - 32) as u64 {
        return None;
    }
    let off = off64 as usize;
    let ghost g_n = word_at(data@, g_off as int);
    let cnt64 = match read_word_u64(data, off) {
        Some(x) => x,
        None => {
            proof {
                crate::words::lemma_pow256_values();
                assert(g_n >= pow256(8));
            }
            return None;
        },
    };
    proof {
        assert(cnt64 as nat == g_n);
    }
    let avail = len - off - 32;
    if cnt64 > (avail / 32) as u64 {
        proof {
            assert(32 * (avail as nat / 32) <= avail as nat) by (nonlinear_arith);
            assert(g_off + 32 + 32 * g_n > len) by (nonlinear_arith)
                requires
                    g_n > avail as nat / 32,
                    32 * (avail as nat / 32) <= avail as nat,
                    avail as nat / 32 + 1 <= g_n,
                    32 * (avail as nat / 32) + 32 > avail as nat,
                    avail == len - g_off - 32,
            ;
        }
        return None;
    }
    let cnt = cnt64 as usize;
    proof {
        assert(32 * (cnt as nat) <= avail as nat) by (nonlinear_arith)
            requires
                cnt as nat <= avail as nat / 32,
                32 * (avail as nat / 32) <= avail as nat,
        ;
    }
    let table = off + 32;
    let mut result: Vec<Vec<u8>> = Vec::new();
    let mut j: usize = 0;
    while j < cnt
        invariant
            j <= cnt,
            len == data@.len(),
            64 <= len,
            g_off == word_at(data@, 32),
            off as nat == g_off,
            off + 32 <= len,
            table == off + 32,
            g_n == word_at(data@, off as int),
            cnt as nat == g_n,
            avail == len - off - 32,
            32 * (cnt as nat) <= avail as nat,
            spec_decode_elems(data@, table as int, j as nat) == Some(result.deep_view()),
        decreases cnt - j,
    {
        proof {
            assert(32 * (j as nat) + 32 <= 32 * (cnt as nat)) by (nonlinear_arith)
                requires
                    j < cnt,
            ;
        }
        let ghost g_rel = word_at(data@, table + 32 * j);
        let rel64 = match read_word_u64(data, table + 32 * j) {
            Some(x) => x,
            None => {
                proof {
                    crate::words::lemma_pow256_values();
                    assert(g_rel >= pow256(8));
                    assert(spec_decode_elem(data@, table as int, j as int) is None);
                    lemma_decode_elems_none(data@, table as int, g_n, j as int);
                }
                return None;
            },
        };
        proof {
            assert(rel64 as nat == g_rel);
        }
        if rel64 > (len - table - 32) as u64 {
            proof {
                assert(spec_decode_elem(data@, table as int, j as int) is None);
                lemma_decode_elems_none(data@, table as int, g_n, j as int);
            }
            return None;
        }
        let base = table + rel64 as usize;
        let ghost g_l = word_at(data@, base as int);
        let l64 = match read_word_u64(data, base) {
            Some(x) => x,
            None => {
                proof {
                    crate::words::lemma_pow256_values();
                    assert(g_l >= pow256(8));
                    assert(spec_decode_elem(data@, table as int, j as int) is None);
                    lemma_decode_elems_none(data@, table as int, g_n, j as int);
                }
                return None;
            },
        };
        proof {
            assert(l64 as nat == g_l);
        }
        if l64 > (len - base - 32) as u64 {
            proof {
                assert(spec_decode_elem(data@, table as int, j as int) is None);
                lemma_decode_elems_none(data@, table as int, g_n, j as int);
            }
            return None;
        }
        let l = l64 as usize;
        let elem = vstd::slice::slice_to_vec(
            vstd::slice::slice_subrange(data.as_slice(), base + 32, base + 32 + l),
        );
        proof {
            assert(elem@ =~= data@.subrange(base + 32, base as int + 32 + l as int));
            assert(spec_decode_elem(data@, table as int, j as int) == Some(elem@));
        }
        let ghost pre_dv = result.deep_view();
        result.push(elem);
        proof {
            assert(result.deep_view() =~~= pre_dv.push(elem@));
        }
        j = j + 1;
    }
    Some(result)
}

/// The zero padding that completes `n` bytes to a word boundary.
pub open spec fn pad32(n: nat) -> nat {
    ((32 - n % 32) % 32) as nat
}

/// One return-data byte string as it stands inside the answer's `bytes[]`:
/// its length word, its bytes, and padding to the next word boundary.
pub open spec fn spec_out_elem(e: Seq<u8>) -> Seq<u8> {
    be_bytes(e.len(), 32) + e + zero_bytes(pad32(e.len()))
}

/// The size of the first `i` element encodings together.
pub open spec fn spec_out_total(elems: Seq<Seq<u8>>, i: nat) -> nat
    decreases i,
{
    if i == 0 {
        0
    } else {
        spec_out_total(elems, (i - 1) as nat) + spec_out_elem(elems[i - 1]).len()
    }
}

/// The answer's offset table, first `i` entries: entry `j` holds the
/// position of element `j` relative to the end of the array length word.
pub open spec fn spec_out_offsets(elems: Seq<Seq<u8>>, i: nat) -> Seq<u8>
    decreases i,
{
    if i == 0 {
        Seq::empty()
    } else {
        spec_out_offsets(elems, (i - 1) as nat)
            + be_bytes(32 * elems.len() + spec_out_total(elems, (i - 1) as nat), 32)
    }
}

/// The first `i` element encodings, one after the other.
pub open spec fn spec_out_bodies(elems: Seq<Seq<u8>>, i: nat) -> Seq<u8>
    decreases i,
{
    if i == 0 {
        Seq::empty()
    } else {
        spec_out_bodies(elems, (i - 1) as nat) + spec_out_elem(elems[i - 1])
    }
}

/// A well-formed answer of `aggregate`: the block number word, the offset
/// of the `bytes[]` output, the array length, the offset table and the
/// element encodings.
pub open spec fn spec_aggregate_output(block: nat, elems: Seq<Seq<u8>>) -> Seq<u8> {
    be_bytes(block, 32) + be_bytes(0x40, 32) + be_bytes(elems.len(), 32)
        + spec_out_offsets(elems, elems.len()) + spec_out_bodies(elems, elems.len())
}

pub proof fn lemma_out_elem_len(e: Seq<u8>)
    ensures
        spec_out_elem(e).len() == 32 + e.len() + pad32(e.len()),
        pad32(e.len()) < 32,
{
    lemma_be_bytes_len(e.len(), 32);
}

pub proof fn lemma_out_total_mono(elems: Seq<Seq<u8>>, i: nat, j: nat)
    requires
        i <= j,
    ensures
        spec_out_total(elems, i) <= spec_out_total(elems, j),
    decreases j,
{
    if i < j {
        lemma_out_total_mono(elems, i, (j - 1) as nat);
    }
}

pub proof fn lemma_out_offsets_len(elems: Seq<Seq<u8>>, i: nat)
    ensures
        spec_out_offsets(elems, i).len() == 32 * i,
    decreases i,
{
    if i > 0 {
        lemma_out_offsets_len(elems, (i - 1) as nat);
        lemma_be_bytes_len(32 * elems.len() + spec_out_total(elems, (i - 1) as nat), 32);
    }
}

pub proof fn lemma_out_bodies_len(elems: Seq<Seq<u8>>, i: nat)
    ensures
        spec_out_bodies(elems, i).len() == spec_out_total(elems, i),
    decreases i,
{
    if i > 0 {
        lemma_out_bodies_len(elems, (i - 1) as nat);
    }
}

pub proof fn lemma_aggregate_output_len(block: nat, elems: Seq<Seq<u8>>)
    ensures
        spec_aggregate_output(block, elems).len() == 96 + 32 * elems.len() + spec_out_total(
            elems,
            elems.len(),
        ),
{
    lemma_be_bytes_len(block, 32);
    lemma_be_bytes_len(0x40, 32);
    lemma_be_bytes_len(elems.len(), 32);
    lemma_out_offsets_len(elems, elems.len());
    lemma_out_bodies_len(elems, elems.len());
}

proof fn lemma_out_offsets_take(elems: Seq<Seq<u8>>, i: nat, k: nat)
    requires
        i <= k,
    ensures
        spec_out_offsets(elems, k).take((32 * i) as int) =~= spec_out_offsets(elems, i),
    decreases k,
{
    lemma_out_offsets_len(elems, i);
    lemma_out_offsets_len(elems, k);
    if i == k {
        assert(spec_out_offsets(elems, k).take((32 * i) as int) =~= spec_out_offsets(elems, k));
    } else {
        lemma_out_offsets_take(elems, i, (k - 1) as nat);
        lemma_out_offsets_len(elems, (k - 1) as nat);
        assert(spec_out_offsets(elems, k).take((32 * i) as int) =~= spec_out_offsets(
            elems,
            (k - 1) as nat,
        ).take((32 * i) as int));
    }
}

proof fn lemma_out_bodies_take(elems: Seq<Seq<u8>>, i: nat, k: nat)
    requires
        i <= k,
    ensures
        spec_out_bodies(elems, k).take(spec_out_total(elems, i) as int) =~= spec_out_bodies(
            elems,
            i,
        ),
    decreases k,
{
    lemma_out_bodies_len(elems, i);
    lemma_out_bodies_len(elems, k);
    if i == k {
        assert(spec_out_bodies(elems, k).take(spec_out_total(elems, i) as int)
            =~= spec_out_bodies(elems, k));
    } else {
        lemma_out_bodies_take(elems, i, (k - 1) as nat);
        lemma_out_bodies_len(elems, (k - 1) as nat);
        lemma_out_total_mono(elems, i, (k - 1) as nat);
        assert(spec_out_bodies(elems, k).take(spec_out_total(elems, i) as int)
            =~= spec_out_bodies(elems, (k - 1) as nat).take(spec_out_total(elems, i) as int));
    }
}

proof fn lemma_output_regions(block: nat, elems: Seq<Seq<u8>>)
    ensures
        spec_aggregate_output(block, elems).len() == 96 + 32 * elems.len() + spec_out_total(
            elems,
            elems.len(),
        ),
        spec_aggregate_output(block, elems).subrange(32, 64) =~= be_bytes(0x40, 32),
        spec_aggregate_output(block, elems).subrange(64, 96) =~= be_bytes(elems.len(), 32),
        spec_aggregate_output(block, elems).subrange(96, 96 + 32 * elems.len() as int)
            =~= spec_out_offsets(elems, elems.len()),
        spec_aggregate_output(block, elems).subrange(
            96 + 32 * elems.len() as int,
            spec_aggregate_output(block, elems).len() as int,
        ) =~= spec_out_bodies(elems, elems.len()),
{
    lemma_aggregate_output_len(block, elems);
    lemma_be_bytes_len(block, 32);
    lemma_be_bytes_len(0x40, 32);
    lemma_be_bytes_len(elems.len(), 32);
    lemma_out_offsets_len(elems, elems.len());
    lemma_out_bodies_len(elems, elems.len());
}

proof fn lemma_out_offsets_entry(elems: Seq<Seq<u8>>, j: int)
    requires
        0 <= j < elems.len(),
    ensures
        spec_out_offsets(elems, elems.len()).subrange(32 * j, 32 * j + 32) =~= be_bytes(
            32 * elems.len() + spec_out_total(elems, j as nat),
            32,
        ),
{
    let k = elems.len();
    let offs = spec_out_offsets(elems, k);
    let w = be_bytes(32 * k + spec_out_total(elems, j as nat), 32);
    lemma_out_offsets_len(elems, k);
    lemma_out_offsets_len(elems, (j + 1) as nat);
    lemma_out_offsets_len(elems, j as nat);
    lemma_be_bytes_len(32 * k + spec_out_total(elems, j as nat), 32);
    lemma_out_offsets_take(elems, (j + 1) as nat, k);
    offs.lemma_slice_of_slice(0, 32 * (j + 1), 32 * j, 32 * j + 32);
    assert(offs.take(32 * (j + 1)) == spec_out_offsets(elems, (j + 1) as nat));
    assert(spec_out_offsets(elems, (j + 1) as nat) == spec_out_offsets(elems, j as nat) + w);
    assert((spec_out_offsets(elems, j as nat) + w).subrange(32 * j, 32 * j + 32) =~= w);
}

proof fn lemma_out_bodies_entry(elems: Seq<Seq<u8>>, j: int)
    requires
        0 <= j < elems.len(),
    ensures
        spec_out_bodies(elems, elems.len()).subrange(
            spec_out_total(elems, j as nat) as int,
            spec_out_total(elems, (j + 1) as nat) as int,
        ) =~= spec_out_elem(elems[j]),
{
    let k = elems.len();
    let bodies = spec_out_bodies(elems, k);
    let enc = spec_out_elem(elems[j]);
    let total_j = spec_out_total(elems, j as nat) as int;
    let total_j1 = spec_out_total(elems, (j + 1) as nat) as int;
    lemma_out_bodies_len(elems, k);
    lemma_out_bodies_len(elems, (j + 1) as nat);
    lemma_out_bodies_len(elems, j as nat);
    lemma_out_total_mono(elems, (j + 1) as nat, k);
    lemma_out_bodies_take(elems, (j + 1) as nat, k);
    bodies.lemma_slice_of_slice(0, total_j1, total_j, total_j1);
    assert(bodies.take(total_j1) == spec_out_bodies(elems, (j + 1) as nat));
    assert(spec_out_bodies(elems, (j + 1) as nat) == spec_out_bodies(elems, j as nat) + enc);
    assert((spec_out_bodies(elems, j as nat) + enc).subrange(total_j, total_j1) =~= enc);
}

proof fn lemma_out_elem_parts(e: Seq<u8>)
    ensures
        spec_out_elem(e).len() == 32 + e.len() + pad32(e.len()),
        spec_out_elem(e).subrange(0, 32) =~= be_bytes(e.len(), 32),
        spec_out_elem(e).subrange(32, 32 + e.len() as int) =~= e,
{
    lemma_be_bytes_len(e.len(), 32);
}

/// Decoding one element of a well-formed answer gives that element back.
proof fn lemma_decode_out_elem(block: nat, elems: Seq<Seq<u8>>, j: int)
    requires
        0 <= j < elems.len(),
        spec_aggregate_output(block, elems).len() < pow256(32),
    ensures
        spec_decode_elem(spec_aggregate_output(block, elems), 96, j) == Some(elems[j]),
{
    let data = spec_aggregate_output(block, elems);
    let k = elems.len();
    let offs = spec_out_offsets(elems, k);
    let bodies = spec_out_bodies(elems, k);
    let total_j = spec_out_total(elems, j as nat);
    let total_j1 = spec_out_total(elems, (j + 1) as nat);
    let e = elems[j];
    let enc = spec_out_elem(e);
    lemma_output_regions(block, elems);
    lemma_out_offsets_len(elems, k);
    lemma_out_bodies_len(elems, k);
    lemma_out_total_mono(elems, (j + 1) as nat, k);
    lemma_out_elem_len(e);
    assert(total_j1 == total_j + enc.len());

    // The offset-table entry for element j reads back as its position.
    lemma_out_offsets_entry(elems, j);
    data.lemma_slice_of_slice(96, 96 + 32 * k as int, 32 * j, 32 * j + 32);
    assert(data.subrange(96 + 32 * j, 96 + 32 * j + 32) == offs.subrange(32 * j, 32 * j + 32));
    lemma_be_val_of_be_bytes(32 * k + total_j, 32);
    assert(word_at(data, 96 + 32 * j) == 32 * k + total_j);
    let base = 96 + 32 * k + total_j as int;
    assert(96 + word_at(data, 96 + 32 * j) == base);

    // The element encoding stands at its recorded position.
    lemma_out_bodies_entry(elems, j);
    data.lemma_slice_of_slice(
        96 + 32 * k as int,
        data.len() as int,
        total_j as int,
        total_j1 as int,
    );
    assert(data.subrange(base, base + enc.len()) == bodies.subrange(
        total_j as int,
        total_j1 as int,
    ));
    assert(data.subrange(base, base + enc.len()) == enc);

    // Its length word and bytes read back.
    lemma_out_elem_parts(e);
    data.lemma_slice_of_slice(base, base + enc.len(), 0, 32);
    assert(data.subrange(base, base + 32) == enc.subrange(0, 32));
    lemma_be_val_of_be_bytes(e.len(), 32);
    assert(word_at(data, base) == e.len());
    data.lemma_slice_of_slice(base, base + enc.len(), 32, 32 + e.len() as int);
    assert(data.subrange(base + 32, base + 32 + e.len()) == enc.subrange(32, 32 + e.len() as int));
    assert(base + 32 + e.len() <= data.len());
}

proof fn lemma_decode_out_elems(block: nat, elems: Seq<Seq<u8>>, i: nat)
    requires
        i <= elems.len(),
        spec_aggregate_output(block, elems).len() < pow256(32),
    ensures
        spec_decode_elems(spec_aggregate_output(block, elems), 96, i) == Some(elems.take(i as int)),
    decreases i,
{
    if i == 0 {
        assert(elems.take(0) =~= Seq::<Seq<u8>>::empty());
    } else {
        lemma_decode_out_elems(block, elems, (i - 1) as nat);
        lemma_decode_out_elem(block, elems, i - 1);
        assert(elems.take(i as int) =~= elems.take(i - 1).push(elems[i - 1]));
    }
}

/// Round trip: a well-formed answer of `aggregate` decodes to exactly the
/// return-data strings it was built from.
pub proof fn lemma_decode_of_aggregate_output(block: nat, elems: Seq<Seq<u8>>)
    requires
        spec_aggregate_output(block, elems).len() < pow256(32),
    ensures
        spec_decode_aggregate(spec_aggregate_output(block, elems)) == Some(elems),
{
    let data = spec_aggregate_output(block, elems);
    let k = elems.len();
    lemma_aggregate_output_len(block, elems);
    lemma_be_bytes_len(block, 32);
    lemma_be_bytes_len(0x40, 32);
    lemma_be_bytes_len(k, 32);
    lemma_out_offsets_len(elems, k);
    lemma_out_bodies_len(elems, k);
    assert(data.subrange(32, 64) =~= be_bytes(0x40, 32));
    lemma_be_val_of_be_bytes(0x40, 32);
    crate::words::lemma_pow256_values();
    crate::words::lemma_pow256_mono(8, 32);
    assert(word_at(data, 32) == 0x40);
    assert(data.subrange(64, 96) =~= be_bytes(k, 32));
    lemma_be_val_of_be_bytes(k, 32);
    assert(word_at(data, 64) == k);
    lemma_decode_out_elems(block, elems, k);
    assert(elems.take(k as int) =~= elems);
}

/// Builds a well-formed answer of `aggregate` carrying the given
/// return-data strings. The service itself only decodes answers; this
/// encoder is the decoder's inverse, there to state and test it.
pub fn encode_aggregate_output(block: u64, elems: &Vec<Vec<u8>>) -> (r: Vec<u8>)
    requires
        spec_aggregate_output(block as nat, elems.deep_view()).len() <= usize::MAX,
    ensures
        r@ =~= spec_aggregate_output(block as nat, elems.deep_view()),
{
    let ghost dv = elems.deep_view();
    let k = elems.len();
    proof {
        lemma_aggregate_output_len(block as nat, dv);
    }
    let mut out: Vec<u8> = Vec::new();
    push_word_u64(&mut out, block);
    push_word_u64(&mut out, 0x40);
    push_word_u64(&mut out, k as u64);
    let ghost head = be_bytes(block as nat, 32) + be_bytes(0x40, 32) + be_bytes(k as nat, 32);
    proof {
        assert(out@ =~= head);
    }
    let mut total: usize = 0;
    let mut i: usize = 0;
    while i < k
        invariant
            i <= k,
            k == elems@.len(),
            dv == elems.deep_view(),
            96 + 32 * k + spec_out_total(dv, k as nat) <= usize::MAX,
            total == spec_out_total(dv, i as nat),
            out@ =~= head + spec_out_offsets(dv, i as nat),
        decreases k - i,
    {
        proof {
            lemma_out_total_mono(dv, i as nat, k as nat);
            lemma_out_total_mono(dv, (i + 1) as nat, k as nat);
            lemma_out_elem_len(dv[i as int]);
            assert(dv[i as int] =~= elems@[i as int]@);
        }
        push_word_u64(&mut out, (32 * k + total) as u64);
        let l = elems[i].len();
        let p = l % 32;
        let pad: usize = if p == 0 {
            0
        } else {
            32 - p
        };
        total = total + 32 + l + pad;
        proof {
            assert(pad as nat == pad32(dv[i as int].len()));
            assert(total == spec_out_total(dv, (i + 1) as nat));
            assert(out@ =~= head + spec_out_offsets(dv, (i + 1) as nat));
        }
        i = i + 1;
    }
    let ghost mid = head + spec_out_offsets(dv, k as nat);
    let mut i: usize = 0;
    while i < k
        invariant
            i <= k,
            k == elems@.len(),
            dv == elems.deep_view(),
            out@ =~= mid + spec_out_bodies(dv, i as nat),
        decreases k - i,
    {
        proof {
            assert(dv[i as int] =~= elems@[i as int]@);
        }
        let ghost before = out@;
        let l = elems[i].len();
        push_word_u64(&mut out, l as u64);
        append_bytes(&mut out, &elems[i]);
        let p = l % 32;
        let pad: usize = if p == 0 {
            0
        } else {
            32 - p
        };
        append_zeros(&mut out, pad);
        proof {
            assert(pad as nat == pad32(dv[i as int].len()));
            assert(out@ =~= before + spec_out_elem(dv[i as int]));
            assert(out@ =~= mid + spec_out_bodies(dv, (i + 1) as nat));
        }
        i = i + 1;
    }
    out
}

} // verus!
