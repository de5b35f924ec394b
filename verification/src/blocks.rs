//! Key material as sequences of fixed-width byte blocks: the mathematical
//! model shared by private keys, public keys and signatures, and the verified
//! helpers that copy, compare, serialize and erase such material.

use vstd::prelude::*;

verus! {

/// The model of a `Vec<Vec<u8>>`: the sequence of its elements' byte
/// sequences.
pub open spec fn blocks_view(v: Vec<Vec<u8>>) -> Seq<Seq<u8>> {
    Seq::new(v@.len(), |i: int| v@[i]@)
}

/// `count` blocks of exactly `len` bytes each: the dimensional invariant all
/// key material obeys.
pub open spec fn blocks_wf(b: Seq<Seq<u8>>, count: nat, len: nat) -> bool {
    &&& b.len() == count
    &&& forall|i: int| 0 <= i < count ==> (#[trigger] b[i]).len() == len
}

/// The blocks laid end to end in order.
pub open spec fn flatten_blocks(b: Seq<Seq<u8>>) -> Seq<u8>
    decreases b.len(),
{
    if b.len() == 0 {
        Seq::empty()
    } else {
        flatten_blocks(b.drop_last()) + b.last()
    }
}

/// A flat buffer cut back into `count` consecutive chunks of `len` bytes.
pub open spec fn chunked(bytes: Seq<u8>, count: nat, len: nat) -> Seq<Seq<u8>>
    recommends
        bytes.len() >= count * len,
{
    Seq::new(count, |i: int| bytes.subrange(i * len, (i + 1) * len))
}

/// Uniform blocks flatten to a buffer of exactly `count * len` bytes.
pub proof fn lemma_flatten_blocks_len(b: Seq<Seq<u8>>, count: nat, len: nat)
    requires
        blocks_wf(b, count, len),
    ensures
        flatten_blocks(b).len() == count * len,
    decreases count,
{
    if count == 0 {
    } else {
        let front = b.drop_last();
        assert(blocks_wf(front, (count - 1) as nat, len));
        lemma_flatten_blocks_len(front, (count - 1) as nat, len);
        assert(b.last().len() == len);
        assert((count - 1) * len + len == count * len) by (nonlinear_arith);
    }
}

/// A byte of the flattened buffer is the corresponding byte of its block.
pub proof fn lemma_flatten_blocks_index(b: Seq<Seq<u8>>, count: nat, len: nat, i: int, j: int)
    requires
        blocks_wf(b, count, len),
        0 <= i < count,
        0 <= j < len,
    ensures
        0 <= i * len + j < flatten_blocks(b).len(),
        flatten_blocks(b)[i * len + j] == b[i][j],
    decreases count,
{
    lemma_flatten_blocks_len(b, count, len);
    assert(0 <= i * len + j < count * len) by (nonlinear_arith)
        requires
            0 <= i < count,
            0 <= j < len,
    ;
    let front = b.drop_last();
    if i == count - 1 {
        assert(blocks_wf(front, (count - 1) as nat, len));
        lemma_flatten_blocks_len(front, (count - 1) as nat, len);
        assert(i * len + j - (count - 1) * len == j) by (nonlinear_arith)
            requires
                i == count - 1,
        ;
        assert(flatten_blocks(b)[i * len + j] == b.last()[j]);
    } else {
        assert(blocks_wf(front, (count - 1) as nat, len));
        lemma_flatten_blocks_len(front, (count - 1) as nat, len);
        assert(i * len + j < (count - 1) * len) by (nonlinear_arith)
            requires
                0 <= i < count - 1,
                0 <= j < len,
        ;
        lemma_flatten_blocks_index(front, (count - 1) as nat, len, i, j);
        assert(front[i] == b[i]);
    }
}

/// Cutting a flattened buffer back into chunks recovers the original blocks.
pub proof fn lemma_chunked_flatten_blocks(b: Seq<Seq<u8>>, count: nat, len: nat)
    requires
        blocks_wf(b, count, len),
    ensures
        chunked(flatten_blocks(b), count, len) == b,
{
    lemma_flatten_blocks_len(b, count, len);
    let flat = flatten_blocks(b);
    let back = chunked(flat, count, len);
    assert forall|i: int| 0 <= i < count implies back[i] == b[i] by {
        assert(0 <= i * len && (i + 1) * len == i * len + len && (i + 1) * len <= count * len)
            by (nonlinear_arith)
            requires
                0 <= i < count,
        ;
        assert(back[i] == flat.subrange(i * len, (i + 1) * len));
        assert(back[i].len() == len);
        assert forall|j: int| 0 <= j < len implies back[i][j] == b[i][j] by {
            lemma_flatten_blocks_index(b, count, len, i, j);
            assert(back[i][j] == flat[i * len + j]);
        }
        assert(back[i] =~= b[i]);
    }
    assert(back =~= b);
}

/// Returns a copy of a byte block.
pub fn copy_bytes(v: &Vec<u8>) -> (r: Vec<u8>)
    ensures
        r@ == v@,
{
    let mut out: Vec<u8> = Vec::new();
    let mut i: usize = 0;
    while i < v.len()
        invariant
            i <= v@.len(),
            out@ == v@.subrange(0, i as int),
        decreases v@.len() - i,
    {
        out.push(v[i]);
        assert(out@ =~= v@.subrange(0, i + 1));
        i = i + 1;
    }
    assert(out@ =~= v@);
    out
}

/// Returns a copy of a sequence of byte blocks.
pub fn clone_blocks(v: &Vec<Vec<u8>>) -> (r: Vec<Vec<u8>>)
    ensures
        blocks_view(r) == blocks_view(*v),
{
    let mut out: Vec<Vec<u8>> = Vec::new();
    let mut i: usize = 0;
    while i < v.len()
        invariant
            i <= v@.len(),
            out@.len() == i,
            forall|k: int| 0 <= k < i ==> (#[trigger] out@[k])@ == v@[k]@,
        decreases v@.len() - i,
    {
        out.push(copy_bytes(&v[i]));
        i = i + 1;
    }
    assert(blocks_view(out) =~= blocks_view(*v));
    out
}

/// Cuts `count * len` bytes of `bytes`, starting at `start`, into `count`
/// consecutive blocks of `len` bytes each.
pub fn chunk_bytes(bytes: &Vec<u8>, start: usize, count: usize, len: usize) -> (r: Vec<Vec<u8>>)
    requires
        start + count * len <= bytes@.len(),
    ensures
        blocks_view(r) == chunked(
            bytes@.subrange(start as int, start + count * len),
            count as nat,
            len as nat,
        ),
        blocks_wf(blocks_view(r), count as nat, len as nat),
{
    let _n_bytes: usize = bytes.len();
    assert(bytes@.len() <= usize::MAX);
    let ghost region = bytes@.subrange(start as int, start + count * len);
    let mut out: Vec<Vec<u8>> = Vec::new();
    let mut i: usize = 0;
    while i < count
        invariant
            i <= count,
            bytes@.len() <= usize::MAX,
            start + count * len <= bytes@.len(),
            region == bytes@.subrange(start as int, start + count * len),
            out@.len() == i,
            forall|k: int|
                0 <= k < i ==> (#[trigger] out@[k])@ == region.subrange(k * len, (k + 1) * len),
        decreases count - i,
    {
        assert(i * len + len <= count * len) by (nonlinear_arith)
            requires
                0 <= i < count,
                0 <= len,
        ;
        let base = start + i * len;
        let mut sub: Vec<u8> = Vec::new();
        let mut j: usize = 0;
        while j < len
            invariant
                i < count,
                j <= len,
                base == start + i * len,
                i * len + len <= count * len,
                bytes@.len() <= usize::MAX,
                start + count * len <= bytes@.len(),
                sub@ == bytes@.subrange(base as int, base + j),
            decreases len - j,
        {
            sub.push(bytes[base + j]);
            assert(sub@ =~= bytes@.subrange(base as int, base + j + 1));
            j = j + 1;
        }
        assert((i as int + 1) * len == i as int * len + len) by (nonlinear_arith);
        assert(sub@ =~= region.subrange(i as int * len, (i as int + 1) * len));
        out.push(sub);
        i = i + 1;
    }
    assert(blocks_view(out) =~= chunked(region, count as nat, len as nat));
    assert forall|k: int| 0 <= k < count implies blocks_view(out)[k].len() == len by {
        assert(0 <= k * len && (k + 1) * len == k * len + len && (k + 1) * len <= count * len)
            by (nonlinear_arith)
            requires
                0 <= k < count,
                0 <= len,
        ;
        assert(region.len() == count * len);
    }
    out
}

/// Appends every block of `blocks` to `out` in order.
pub fn append_blocks(out: &mut Vec<u8>, blocks: &Vec<Vec<u8>>)
    ensures
        final(out)@ == old(out)@ + flatten_blocks(blocks_view(*blocks)),
{
    let ghost base = old(out)@;
    let mut i: usize = 0;
    while i < blocks.len()
        invariant
            i <= blocks@.len(),
            out@ == base + flatten_blocks(blocks_view(*blocks).take(i as int)),
        decreases blocks@.len() - i,
    {
        let block = &blocks[i];
        let mut j: usize = 0;
        while j < block.len()
            invariant
                i < blocks@.len(),
                j <= block@.len(),
                block == &blocks@[i as int],
                out@ == base + flatten_blocks(blocks_view(*blocks).take(i as int))
                    + block@.subrange(0, j as int),
            decreases block@.len() - j,
        {
            out.push(block[j]);
            assert(block@.subrange(0, j + 1) =~= block@.subrange(0, j as int).push(block@[j as int]));
            assert(out@ =~= base + flatten_blocks(blocks_view(*blocks).take(i as int))
                + block@.subrange(0, j + 1));
            j = j + 1;
        }
        proof {
            let bv = blocks_view(*blocks);
            assert(bv.take(i + 1).drop_last() =~= bv.take(i as int));
            assert(bv.take(i + 1).last() == bv[i as int]);
            assert(flatten_blocks(bv.take(i + 1)) == flatten_blocks(bv.take(i as int)) + bv[i as int]);
            assert(block@.subrange(0, block@.len() as int) =~= block@);
            assert(out@ =~= base + flatten_blocks(bv.take(i + 1)));
        }
        i = i + 1;
    }
    proof {
        let bv = blocks_view(*blocks);
        assert(bv.take(bv.len() as int) =~= bv);
    }
}

/// Compares two byte blocks; may stop at the first difference (used only on
/// public data).
pub fn bytes_equal(a: &Vec<u8>, b: &Vec<u8>) -> (r: bool)
    ensures
        r == (a@ == b@),
{
    if a.len() != b.len() {
        assert(a@ !~= b@);
        return false;
    }
    let mut i: usize = 0;
    while i < a.len()
        invariant
            i <= a@.len(),
            a@.len() == b@.len(),
            forall|k: int| 0 <= k < i ==> a@[k] == b@[k],
        decreases a@.len() - i,
    {
        if a[i] != b[i] {
            return false;
        }
        i = i + 1;
    }
    assert(a@ =~= b@);
    true
}

/// Compares two byte blocks of equal length without branching on content:
/// every byte is examined and folded into an accumulator, so the running
/// time does not depend on where the blocks differ (used on secret data).
/// The result is zero exactly when the blocks are equal.
pub fn bytes_diff_ct(a: &Vec<u8>, b: &Vec<u8>) -> (d: u8)
    requires
        a@.len() == b@.len(),
    ensures
        (d == 0) <==> (a@ == b@),
{
    let mut diff: u8 = 0;
    let mut i: usize = 0;
    while i < a.len()
        invariant
            i <= a@.len(),
            a@.len() == b@.len(),
            (diff == 0) <==> (forall|k: int| 0 <= k < i ==> a@[k] == b@[k]),
        decreases a@.len() - i,
    {
        let x: u8 = a[i];
        let y: u8 = b[i];
        let d: u8 = x ^ y;
        assert((d == 0) <==> (x == y)) by (bit_vector)
            requires
                d == x ^ y,
        ;
        let old_diff: u8 = diff;
        diff = diff | d;
        assert((diff == 0) <==> (old_diff == 0 && d == 0)) by (bit_vector)
            requires
                diff == old_diff | d,
        ;
        i = i + 1;
    }
    proof {
        if diff == 0 {
            assert(a@ =~= b@);
        }
    }
    diff
}

/// Overwrites every byte of every block with zero, keeping the shape.
pub fn wipe_blocks(v: &mut Vec<Vec<u8>>)
    ensures
        final(v)@.len() == old(v)@.len(),
        forall|i: int|
            0 <= i < old(v)@.len() ==> (#[trigger] final(v)@[i])@.len() == old(v)@[i]@.len(),
        forall|i: int, j: int|
            0 <= i < final(v)@.len() && 0 <= j < final(v)@[i]@.len() ==> final(v)@[i]@[j] == 0,
    no_unwind
{
    let mut i: usize = 0;
    while i < v.len()
        invariant
            i <= v@.len(),
            v@.len() == old(v)@.len(),
            forall|k: int| 0 <= k < v@.len() ==> (#[trigger] v@[k])@.len() == old(v)@[k]@.len(),
            forall|k: int, j: int| 0 <= k < i && 0 <= j < v@[k]@.len() ==> v@[k]@[j] == 0,
        decreases v@.len() - i,
    {
        let m = v[i].len();
        let mut j: usize = 0;
        while j < m
            invariant
                i < v@.len(),
                j <= m,
                m == v@[i as int]@.len(),
                v@.len() == old(v)@.len(),
                forall|k: int| 0 <= k < v@.len() ==> (#[trigger] v@[k])@.len() == old(v)@[k]@.len(),
                forall|k: int, l: int| 0 <= k < i && 0 <= l < v@[k]@.len() ==> v@[k]@[l] == 0,
                forall|l: int| 0 <= l < j ==> v@[i as int]@[l] == 0,
            decreases m - j,
        {
            v[i][j] = 0;
            j = j + 1;
        }
        i = i + 1;
    }
}

} // verus!
