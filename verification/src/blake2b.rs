//! The BLAKE2b cryptographic hash function, following RFC 7693: a 128-byte
//! buffer absorbed block by block into eight 64-bit state words through
//! twelve rounds of the mixing function per block.

use vstd::prelude::*;
use vstd::wrapping::u64_specs;

verus! {

broadcast use vstd::std_specs::vec::group_vec_axioms;

/// Addition modulo 2 to the 64.
pub open spec fn wa(x: u64, y: u64) -> u64 {
    u64_specs::wrapping_add(x, y)
}

/// Rotation of the 64 bits to the right by `n` places.
pub open spec fn spec_rotr(x: u64, n: u64) -> u64
    recommends
        0 < n < 64,
{
    (x >> n) | (x << ((64 - n) as u64))
}

/// Executable right rotation.
pub fn rotr64(x: u64, n: u64) -> (r: u64)
    requires
        0 < n < 64,
    ensures
        r == spec_rotr(x, n),
{
    (x >> n) | (x << (64 - n))
}

/// The quarter-round mix: two rows of additions, exclusive ors and
/// rotations over four of the sixteen working words.
pub open spec fn g_spec(v: Seq<u64>, a: int, b: int, c: int, d: int, x: u64, y: u64) -> Seq<u64>
    recommends
        v.len() == 16,
        0 <= a < 16 && 0 <= b < 16 && 0 <= c < 16 && 0 <= d < 16,
{
    let v1 = v.update(a, wa(wa(v[a], v[b]), x));
    let v2 = v1.update(d, spec_rotr(v1[d] ^ v1[a], 32));
    let v3 = v2.update(c, wa(v2[c], v2[d]));
    let v4 = v3.update(b, spec_rotr(v3[b] ^ v3[c], 24));
    let v5 = v4.update(a, wa(wa(v4[a], v4[b]), y));
    let v6 = v5.update(d, spec_rotr(v5[d] ^ v5[a], 16));
    let v7 = v6.update(c, wa(v6[c], v6[d]));
    v7.update(b, spec_rotr(v7[b] ^ v7[c], 63))
}

/// The executable quarter-round mix.
pub fn b2b_g(v: &mut Vec<u64>, a: usize, b: usize, c: usize, d: usize, x: u64, y: u64)
    requires
        old(v)@.len() == 16,
        a < 16 && b < 16 && c < 16 && d < 16,
    ensures
        final(v)@ == g_spec(old(v)@, a as int, b as int, c as int, d as int, x, y),
{
    let va = v[a].wrapping_add(v[b]).wrapping_add(x);
    v.set(a, va);
    let vd = rotr64(v[d] ^ v[a], 32);
    v.set(d, vd);
    let vc = v[c].wrapping_add(v[d]);
    v.set(c, vc);
    let vb = rotr64(v[b] ^ v[c], 24);
    v.set(b, vb);
    let va2 = v[a].wrapping_add(v[b]).wrapping_add(y);
    v.set(a, va2);
    let vd2 = rotr64(v[d] ^ v[a], 16);
    v.set(d, vd2);
    let vc2 = v[c].wrapping_add(v[d]);
    v.set(c, vc2);
    let vb2 = rotr64(v[b] ^ v[c], 63);
    v.set(b, vb2);
    proof {
        assert(v@ =~= g_spec(old(v)@, a as int, b as int, c as int, d as int, x, y));
    }
}

/// The word-permutation schedule of round `r`, one selection packed per
/// four bits.
pub open spec fn spec_sigma_row(r: int) -> u64 {
    if r == 0 || r == 10 {
        0xfedcba9876543210
    } else if r == 1 || r == 11 {
        0x357b20c16df984ae
    } else if r == 2 {
        0x491763eadf250c8b
    } else if r == 3 {
        0x8f04a562ebcd1397
    } else if r == 4 {
        0xd386cb1efa427509
    } else if r == 5 {
        0x91ef57d438b0a6c2
    } else if r == 6 {
        0xb8293670a4def15c
    } else if r == 7 {
        0xa2684f05931ce7bd
    } else if r == 8 {
        0x5a417d2c803b9ef6
    } else {
        0x0dc3e9bf5167482a
    }
}

/// Which message word the `i`th selection of round `r` mixes in.
pub open spec fn spec_sigma(r: int, i: int) -> int
    recommends
        0 <= i < 16,
{
    ((spec_sigma_row(r) >> ((4 * i) as u64)) & 0xf) as int
}

/// A nibble extracted from a word is below sixteen.
pub proof fn lemma_nibble_bound(x: u64, sh: u64)
    ensures
        ((x >> sh) & 0xf) < 16,
{
    assert(((x >> sh) & 0xf) < 16) by (bit_vector);
}

/// The executable word-permutation schedule.
pub fn sigma(r: usize, i: usize) -> (s: usize)
    requires
        i < 16,
    ensures
        s as int == spec_sigma(r as int, i as int),
        s < 16,
{
    let row: u64 = if r == 0 || r == 10 {
        0xfedcba9876543210
    } else if r == 1 || r == 11 {
        0x357b20c16df984ae
    } else if r == 2 {
        0x491763eadf250c8b
    } else if r == 3 {
        0x8f04a562ebcd1397
    } else if r == 4 {
        0xd386cb1efa427509
    } else if r == 5 {
        0x91ef57d438b0a6c2
    } else if r == 6 {
        0xb8293670a4def15c
    } else if r == 7 {
        0xa2684f05931ce7bd
    } else if r == 8 {
        0x5a417d2c803b9ef6
    } else {
        0x0dc3e9bf5167482a
    };
    let sh: u64 = 4 * (i as u64);
    let s = (row >> sh) & 0xf;
    proof {
        lemma_nibble_bound(row, sh);
        if !(r == 0 || r == 10 || r == 1 || r == 11 || r == 2 || r == 3 || r == 4 || r == 5 || r
            == 6 || r == 7 || r == 8) {
            assert(spec_sigma_row(r as int) == 0x0dc3e9bf5167482a);
        }
    }
    s as usize
}

/// The initialization vector of RFC 7693.
pub open spec fn iv_spec(i: int) -> u64 {
    if i == 0 {
        0x6a09e667f3bcc908
    } else if i == 1 {
        0xbb67ae8584caa73b
    } else if i == 2 {
        0x3c6ef372fe94f82b
    } else if i == 3 {
        0xa54ff53a5f1d36f1
    } else if i == 4 {
        0x510e527fade682d1
    } else if i == 5 {
        0x9b05688c2b3e6c1f
    } else if i == 6 {
        0x1f83d9abfb41bd6b
    } else {
        0x5be0cd19137e2179
    }
}

/// The working vector at the start of a compression: the state, the
/// initialization vector, the offset counters mixed in, and the last-block
/// flag inverted into word fourteen.
pub open spec fn init_v(h: Seq<u64>, t0: u64, t1: u64, last: bool) -> Seq<u64> {
    let v = Seq::new(
        16,
        |i: int|
            if i < 8 {
                h[i]
            } else {
                iv_spec(i - 8)
            },
    );
    let v = v.update(12, v[12] ^ t0).update(13, v[13] ^ t1);
    if last {
        v.update(14, !v[14])
    } else {
        v
    }
}

/// The working-vector indices of the `k`th quarter-round of a round.
pub open spec fn g_indices(k: int) -> (int, int, int, int) {
    if k == 0 {
        (0int, 4int, 8int, 12int)
    } else if k == 1 {
        (1int, 5int, 9int, 13int)
    } else if k == 2 {
        (2int, 6int, 10int, 14int)
    } else if k == 3 {
        (3int, 7int, 11int, 15int)
    } else if k == 4 {
        (0int, 5int, 10int, 15int)
    } else if k == 5 {
        (1int, 6int, 11int, 12int)
    } else if k == 6 {
        (2int, 7int, 8int, 13int)
    } else {
        (3int, 4int, 9int, 14int)
    }
}

/// One quarter-round of round `r` applied to the working vector.
pub open spec fn mix_one(v: Seq<u64>, m: Seq<u64>, r: int, k: int) -> Seq<u64> {
    let idx = g_indices(k);
    g_spec(v, idx.0, idx.1, idx.2, idx.3, m[spec_sigma(r, 2 * k)], m[spec_sigma(r, 2 * k + 1)])
}

/// The first `k` quarter-rounds of round `r`.
pub open spec fn mix_upto(v: Seq<u64>, m: Seq<u64>, r: int, k: int) -> Seq<u64>
    decreases k,
{
    if k <= 0 {
        v
    } else {
        mix_one(mix_upto(v, m, r, k - 1), m, r, k - 1)
    }
}

/// The first `r` full rounds.
pub open spec fn rounds_upto(v: Seq<u64>, m: Seq<u64>, r: int) -> Seq<u64>
    decreases r,
{
    if r <= 0 {
        v
    } else {
        mix_upto(rounds_upto(v, m, r - 1), m, r - 1, 8)
    }
}

/// The eight message bytes from position `8w`, read as one little-endian
/// word.
pub open spec fn le_word(b: Seq<u8>, w: int) -> u64
    recommends
        0 <= w < 16,
        b.len() == 128,
{
    (b[8 * w] + 0x100 * (b[8 * w + 1] + 0x100 * (b[8 * w + 2] + 0x100 * (b[8 * w + 3] + 0x100 * (
    b[8 * w + 4] + 0x100 * (b[8 * w + 5] + 0x100 * (b[8 * w + 6] + 0x100 * b[8 * w + 7])))))))
        as u64
}

/// The sixteen message words of one block.
pub open spec fn words_of(b: Seq<u8>) -> Seq<u64> {
    Seq::new(16, |w: int| le_word(b, w))
}

/// What one compression does to the state: the working vector is
/// initialized, mixed for twelve rounds with the block's words, and folded
/// back into the state with exclusive ors.
pub open spec fn spec_compress(h: Seq<u64>, m: Seq<u64>, t0: u64, t1: u64, last: bool) -> Seq<
    u64,
> {
    let vf = rounds_upto(init_v(h, t0, t1, last), m, 12);
    Seq::new(8, |i: int| h[i] ^ vf[i] ^ vf[i + 8])
}

/// The hashing state: the byte buffer of the current block, the eight state
/// words, the byte-offset counters, how much of the buffer is filled, the
/// configured digest length, and whether the digest was already produced.
#[derive(Debug)]
pub struct Blake2bCtx {
    pub b: Vec<u8>,
    pub h: Vec<u64>,
    pub t: Vec<u64>,
    pub c: usize,
    pub outlen: u16,
    pub finalized: bool,
}

/// The structural soundness of a hashing state.
pub open spec fn ctx_wf(ctx: Blake2bCtx) -> bool {
    &&& ctx.b@.len() == 128
    &&& ctx.h@.len() == 8
    &&& ctx.t@.len() == 2
    &&& ctx.c <= 128
    &&& 0 < ctx.outlen <= 64
}

/// One compression of the buffered block into the state.
pub fn blake2b_compress(ctx: &mut Blake2bCtx, last: bool)
    requires
        ctx_wf(*old(ctx)),
    ensures
        ctx_wf(*final(ctx)),
        final(ctx).h@ == spec_compress(
            old(ctx).h@,
            words_of(old(ctx).b@),
            old(ctx).t@[0],
            old(ctx).t@[1],
            last,
        ),
        final(ctx).b == old(ctx).b,
        final(ctx).t == old(ctx).t,
        final(ctx).c == old(ctx).c,
        final(ctx).outlen == old(ctx).outlen,
        final(ctx).finalized == old(ctx).finalized,
{
    // read the block as sixteen little-endian words
    let mut m: Vec<u64> = Vec::new();
    let mut w: usize = 0;
    while w < 16
        invariant
            ctx_wf(*ctx),
            *ctx == *old(ctx),
            w <= 16,
            m@.len() == w,
            forall|k: int| 0 <= k < w ==> m@[k] == le_word(ctx.b@, k),
        decreases 16 - w,
    {
        let p: usize = 8 * w;
        let word: u64 = (ctx.b[p] as u64) + 0x100 * ((ctx.b[p + 1] as u64) + 0x100 * ((ctx.b[p
            + 2] as u64) + 0x100 * ((ctx.b[p + 3] as u64) + 0x100 * ((ctx.b[p + 4] as u64) + 0x100
            * ((ctx.b[p + 5] as u64) + 0x100 * ((ctx.b[p + 6] as u64) + 0x100 * (ctx.b[p
            + 7] as u64)))))));
        m.push(word);
        w += 1;
    }
    let ghost ms = words_of(old(ctx).b@);
    proof {
        assert(m@ =~= ms);
    }

    // the working vector: state, initialization vector, counters, last flag
    let mut v: Vec<u64> = Vec::new();
    let mut i: usize = 0;
    while i < 8
        invariant
            ctx_wf(*ctx),
            *ctx == *old(ctx),
            i <= 8,
            v@.len() == i,
            forall|k: int| 0 <= k < i ==> v@[k] == ctx.h@[k],
        decreases 8 - i,
    {
        v.push(ctx.h[i]);
        i += 1;
    }
    v.push(0x6a09e667f3bcc908);
    v.push(0xbb67ae8584caa73b);
    v.push(0x3c6ef372fe94f82b);
    v.push(0xa54ff53a5f1d36f1);
    v.push(0x510e527fade682d1);
    v.push(0x9b05688c2b3e6c1f);
    v.push(0x1f83d9abfb41bd6b);
    v.push(0x5be0cd19137e2179);
    let v12 = v[12] ^ ctx.t[0];  // low 64 bits of the offset
    v.set(12, v12);
    let v13 = v[13] ^ ctx.t[1];  // high 64 bits
    v.set(13, v13);
    if last {
        let v14 = !v[14];
        v.set(14, v14);
    }
    let ghost vinit = init_v(old(ctx).h@, old(ctx).t@[0], old(ctx).t@[1], last);
    proof {
        assert(v@ =~= vinit);
    }

    let mut r: usize = 0;
    while r < 12
        invariant
            ctx_wf(*ctx),
            *ctx == *old(ctx),
            r <= 12,
            v@.len() == 16,
            m@.len() == 16,
            m@ == ms,
            v@ == rounds_upto(vinit, ms, r as int),
        decreases 12 - r,
    {
        let ghost vr = v@;
        b2b_g(&mut v, 0, 4, 8, 12, m[sigma(r, 0)], m[sigma(r, 1)]);
        proof {
            assert(mix_upto(vr, ms, r as int, 0) == vr);
            assert(v@ == mix_upto(vr, ms, r as int, 1));
        }
        b2b_g(&mut v, 1, 5, 9, 13, m[sigma(r, 2)], m[sigma(r, 3)]);
        proof {
            assert(v@ == mix_upto(vr, ms, r as int, 2));
        }
        b2b_g(&mut v, 2, 6, 10, 14, m[sigma(r, 4)], m[sigma(r, 5)]);
        proof {
            assert(v@ == mix_upto(vr, ms, r as int, 3));
        }
        b2b_g(&mut v, 3, 7, 11, 15, m[sigma(r, 6)], m[sigma(r, 7)]);
        proof {
            assert(v@ == mix_upto(vr, ms, r as int, 4));
        }
        b2b_g(&mut v, 0, 5, 10, 15, m[sigma(r, 8)], m[sigma(r, 9)]);
        proof {
            assert(v@ == mix_upto(vr, ms, r as int, 5));
        }
        b2b_g(&mut v, 1, 6, 11, 12, m[sigma(r, 10)], m[sigma(r, 11)]);
        proof {
            assert(v@ == mix_upto(vr, ms, r as int, 6));
        }
        b2b_g(&mut v, 2, 7, 8, 13, m[sigma(r, 12)], m[sigma(r, 13)]);
        proof {
            assert(v@ == mix_upto(vr, ms, r as int, 7));
        }
        b2b_g(&mut v, 3, 4, 9, 14, m[sigma(r, 14)], m[sigma(r, 15)]);
        proof {
            assert(v@ == mix_upto(vr, ms, r as int, 8));
            assert(v@ == rounds_upto(vinit, ms, r + 1));
        }
        r += 1;
    }

    // fold the working vector back into the state
    let ghost h0 = old(ctx).h@;
    let ghost vf = v@;
    let mut i: usize = 0;
    while i < 8
        invariant
            i <= 8,
            v@ == vf,
            vf.len() == 16,
            ctx.b == old(ctx).b,
            ctx.t == old(ctx).t,
            ctx.c == old(ctx).c,
            ctx.outlen == old(ctx).outlen,
            ctx.finalized == old(ctx).finalized,
            ctx.h@.len() == 8,
            h0.len() == 8,
            forall|k: int| 0 <= k < i ==> ctx.h@[k] == (h0[k] ^ vf[k] ^ vf[k + 8]),
            forall|k: int| i <= k < 8 ==> ctx.h@[k] == h0[k],
        decreases 8 - i,
    {
        let hi = ctx.h[i] ^ v[i] ^ v[i + 8];
        ctx.h.set(i, hi);
        i += 1;
    }
    proof {
        assert(ctx.h@ =~= spec_compress(h0, ms, old(ctx).t@[0], old(ctx).t@[1], last));
    }
}

/// The mathematical view of a hashing state.
#[verifier::ext_equal]
pub struct HashState {
    pub h: Seq<u64>,
    pub t0: u64,
    pub t1: u64,
    pub buf: Seq<u8>,
    pub c: nat,
}

/// The view of a context.
pub open spec fn view_of(ctx: Blake2bCtx) -> HashState {
    HashState { h: ctx.h@, t0: ctx.t@[0], t1: ctx.t@[1], buf: ctx.b@, c: ctx.c as nat }
}

/// The offset counters advanced by `n` bytes, with the carry.
pub open spec fn t_add(t0: u64, t1: u64, n: u64) -> (u64, u64) {
    let nt0 = u64_specs::wrapping_add(t0, n);
    if nt0 < n {
        (nt0, u64_specs::wrapping_add(t1, 1))
    } else {
        (nt0, t1)
    }
}

/// `data` written into `buf` from position `at` on.
pub open spec fn splice(buf: Seq<u8>, at: nat, data: Seq<u8>) -> Seq<u8> {
    buf.take(at as int) + data + buf.skip((at + data.len()) as int)
}

/// What absorbing `data` does to a hashing state: bytes fill the buffer;
/// whenever more bytes remain than the buffer can take, the full buffer is
/// counted and compressed into the state and the rest goes on filling it.
pub open spec fn absorb(s: HashState, data: Seq<u8>) -> HashState
    decreases data.len(), s.c,
{
    if data.len() <= 128 - s.c {
        HashState { buf: splice(s.buf, s.c, data), c: s.c + data.len(), ..s }
    } else {
        let space = if s.c < 128 {
            (128 - s.c) as nat
        } else {
            0
        };
        let filled = splice(s.buf, s.c, data.take(space as int));
        let ts = t_add(s.t0, s.t1, 128);
        let h2 = spec_compress(s.h, words_of(filled), ts.0, ts.1, false);
        absorb(
            HashState { h: h2, t0: ts.0, t1: ts.1, buf: filled, c: 0 },
            data.skip(space as int),
        )
    }
}

/// What producing the digest does to a hashing state: the bytes still in the
/// buffer are counted, the buffer is padded with zeroes, and one last
/// compression folds it into the state.
pub open spec fn finalize_spec(s: HashState) -> HashState {
    let ts = t_add(s.t0, s.t1, s.c as u64);
    let padded = splice(s.buf, s.c, Seq::new((128 - s.c) as nat, |i: int| 0u8));
    let h2 = spec_compress(s.h, words_of(padded), ts.0, ts.1, true);
    HashState { h: h2, t0: ts.0, t1: ts.1, buf: padded, c: 128 }
}

/// The first `n` bytes of the digest: the state words serialized
/// little-endian.
pub open spec fn le_bytes_of(h: Seq<u64>, n: nat) -> Seq<u8> {
    Seq::new(n, |i: int| ((h[i / 8] >> ((8 * (i % 8)) as u64)) & 0xff) as u8)
}

/// Copies `count` bytes of `from`, starting at `from_at`, into `to` starting
/// at `to_at`; both ranges are checked to lie inside their buffers.
pub fn checked_mem_copy(
    from: &[u8],
    from_at: usize,
    to: &mut Vec<u8>,
    to_at: usize,
    count: usize,
)
    requires
        from_at + count <= from@.len(),
        to_at + count <= old(to)@.len(),
    ensures
        final(to)@ == splice(old(to)@, to_at as nat, from@.subrange(
            from_at as int,
            (from_at + count) as int,
        )),
{
    let ghost to0 = to@;
    let flen: usize = from.len();
    let tlen: usize = to.len();
    let mut k: usize = 0;
    while k < count
        invariant
            flen == from@.len(),
            from_at + count <= flen,
            tlen == to0.len(),
            to_at + count <= tlen,
            k <= count,
            to@.len() == to0.len(),
            forall|i: int| 0 <= i < to_at ==> to@[i] == to0[i],
            forall|i: int| 0 <= i < k ==> #[trigger] to@[to_at + i] == from@[from_at + i],
            forall|i: int| to_at + k <= i < to0.len() ==> to@[i] == to0[i],
        decreases count - k,
    {
        let byte = from[from_at + k];
        to.set(to_at + k, byte);
        k += 1;
    }
    proof {
        let sub = from@.subrange(from_at as int, (from_at + count) as int);
        let spliced = splice(to0, to_at as nat, sub);
        assert forall|j: int| 0 <= j < to0.len() implies to@[j] == spliced[j] by {
            if to_at <= j < to_at + count {
                assert(to@[to_at + (j - to_at)] == from@[from_at + (j - to_at)]);
                assert(spliced[j] == sub[j - to_at]);
            }
        }
        assert(to@ =~= spliced);
    }
}

/// Absorbs `data` into the state, compressing a block whenever more bytes
/// remain than the buffer can take.
pub fn blake2b_update(ctx: &mut Blake2bCtx, data: &[u8])
    requires
        ctx_wf(*old(ctx)),
        !old(ctx).finalized,
    ensures
        ctx_wf(*final(ctx)),
        !final(ctx).finalized,
        final(ctx).outlen == old(ctx).outlen,
        view_of(*final(ctx)) == absorb(view_of(*old(ctx)), data@),
{
    let ghost goal = absorb(view_of(*old(ctx)), data@);
    proof {
        assert(data@.skip(0) =~= data@);
    }
    let mut done: usize = 0;
    let total: usize = data.len();
    while total - done > 128 - ctx.c
        invariant
            ctx_wf(*ctx),
            !ctx.finalized,
            ctx.outlen == old(ctx).outlen,
            total == data@.len(),
            done <= total,
            goal == absorb(view_of(*ctx), data@.skip(done as int)),
        decreases 2 * (total - done) + (if ctx.c > 0 {
            1int
        } else {
            0int
        }),
    {
        let space: usize = 128 - ctx.c;
        let ghost before = view_of(*ctx);
        let ghost rest = data@.skip(done as int);
        checked_mem_copy(data, done, &mut ctx.b, ctx.c, space);
        proof {
            assert(data@.subrange(done as int, (done + space) as int) =~= rest.take(space as int));
        }
        let t0 = ctx.t[0].wrapping_add(128);
        ctx.t.set(0, t0);
        if t0 < 128 {
            let t1 = ctx.t[1].wrapping_add(1);
            ctx.t.set(1, t1);
        }
        blake2b_compress(ctx, false);
        ctx.c = 0;
        proof {
            let ts = t_add(before.t0, before.t1, 128);
            let filled = splice(before.buf, before.c, rest.take(space as int));
            assert(ctx.t@ =~= seq![ts.0, ts.1]);
            assert(view_of(*ctx) =~= HashState {
                h: spec_compress(before.h, words_of(filled), ts.0, ts.1, false),
                t0: ts.0,
                t1: ts.1,
                buf: filled,
                c: 0,
            });
            assert(rest.skip(space as int) =~= data@.skip(done + space as int));
            assert(goal == absorb(view_of(*ctx), data@.skip((done + space) as int)));
        }
        done = done + space;
    }
    let remaining: usize = total - done;
    let ghost restf = data@.skip(done as int);
    if remaining > 0 {
        let ghost before = view_of(*ctx);
        checked_mem_copy(data, done, &mut ctx.b, ctx.c, remaining);
        ctx.c = ctx.c + remaining;
        proof {
            assert(data@.subrange(done as int, (done + remaining) as int) =~= restf);
            assert(view_of(*ctx) =~= HashState {
                buf: splice(before.buf, before.c, restf),
                c: before.c + restf.len(),
                ..before
            });
        }
    } else {
        proof {
            assert(restf =~= Seq::<u8>::empty());
            assert(splice(view_of(*ctx).buf, view_of(*ctx).c, restf) =~= view_of(*ctx).buf);
            assert(absorb(view_of(*ctx), restf) =~= view_of(*ctx));
        }
    }
}

/// Counts the buffered bytes, pads the buffer with zeroes and compresses it
/// as the last block; the digest can then be read off the state.
pub fn blake2b_final(ctx: &mut Blake2bCtx)
    requires
        ctx_wf(*old(ctx)),
        !old(ctx).finalized,
    ensures
        ctx_wf(*final(ctx)),
        final(ctx).finalized,
        final(ctx).outlen == old(ctx).outlen,
        view_of(*final(ctx)) == finalize_spec(view_of(*old(ctx))),
{
    let ghost before = view_of(*ctx);
    let c64: u64 = ctx.c as u64;
    let t0 = ctx.t[0].wrapping_add(c64);
    ctx.t.set(0, t0);
    if t0 < c64 {
        let t1 = ctx.t[1].wrapping_add(1);
        ctx.t.set(1, t1);
    }
    let ghost cstart = ctx.c as nat;
    while ctx.c < 128
        invariant
            ctx.b@.len() == 128,
            ctx.h@.len() == 8,
            ctx.t@.len() == 2,
            cstart <= ctx.c <= 128,
            ctx.h == old(ctx).h,
            ctx.outlen == old(ctx).outlen,
            ctx.finalized == old(ctx).finalized,
            ctx.t@ =~= seq![t_add(before.t0, before.t1, before.c as u64).0, t_add(
                before.t0,
                before.t1,
                before.c as u64,
            ).1],
            forall|i: int| 0 <= i < cstart ==> ctx.b@[i] == before.buf[i],
            forall|i: int| cstart <= i < ctx.c ==> ctx.b@[i] == 0u8,
        decreases 128 - ctx.c,
    {
        ctx.b.set(ctx.c, 0);
        ctx.c = ctx.c + 1;
    }
    proof {
        assert(c64 == before.c as u64);
        assert(ctx.b@ =~= splice(before.buf, before.c, Seq::new((128 - before.c) as nat, |i: int| 0u8)));
    }
    blake2b_compress(ctx, true);
    ctx.finalized = true;
    proof {
        assert(view_of(*ctx) =~= finalize_spec(before));
    }
}

/// A hasher over the BLAKE2b function.
#[derive(Debug)]
pub struct Blake2bHasher(pub Blake2bCtx);

/// The structural soundness of a hasher.
pub open spec fn hasher_wf(h: Blake2bHasher) -> bool {
    ctx_wf(h.0)
}

impl Blake2bHasher {
    /// A fresh hasher for a digest of `outlen` bytes: the initialization
    /// vector with the digest length folded into the first word, empty
    /// buffer, zero counters.
    pub fn new(outlen: u16) -> (r: Blake2bHasher)
        requires
            0 < outlen <= 64,
        ensures
            hasher_wf(r),
            !r.0.finalized,
            r.0.outlen == outlen,
            r.0.c == 0,
            r.0.t@ =~= seq![0u64, 0u64],
            r.0.h@[0] == iv_spec(0) ^ 0x01010000u64 ^ (outlen as u64),
            forall|i: int| 1 <= i < 8 ==> r.0.h@[i] == iv_spec(i),
            forall|i: int| 0 <= i < 128 ==> r.0.b@[i] == 0u8,
    {
        let mut h: Vec<u64> = Vec::new();
        h.push(0x6a09e667f3bcc908u64 ^ 0x01010000u64 ^ (outlen as u64));
        h.push(0xbb67ae8584caa73b);
        h.push(0x3c6ef372fe94f82b);
        h.push(0xa54ff53a5f1d36f1);
        h.push(0x510e527fade682d1);
        h.push(0x9b05688c2b3e6c1f);
        h.push(0x1f83d9abfb41bd6b);
        h.push(0x5be0cd19137e2179);
        let mut t: Vec<u64> = Vec::new();
        t.push(0);
        t.push(0);
        let mut b: Vec<u8> = Vec::new();
        let mut i: usize = 0;
        while i < 128
            invariant
                i <= 128,
                b@.len() == i,
                forall|k: int| 0 <= k < i ==> b@[k] == 0u8,
            decreases 128 - i,
        {
            b.push(0);
            i += 1;
        }
        Blake2bHasher(Blake2bCtx { b, h, t, c: 0, outlen, finalized: false })
    }

    /// Absorbs more input bytes.
    pub fn write(&mut self, bytes: &[u8])
        requires
            hasher_wf(*old(self)),
            !old(self).0.finalized,
        ensures
            hasher_wf(*final(self)),
            !final(self).0.finalized,
            final(self).0.outlen == old(self).0.outlen,
            view_of(final(self).0) == absorb(view_of(old(self).0), bytes@),
    {
        blake2b_update(&mut self.0, bytes);
    }

    /// The first state word, for use as a 64-bit hash value; the hasher must
    /// have been set up for a digest of exactly eight bytes.
    pub fn finish(&self) -> (r: u64)
        requires
            hasher_wf(*self),
            self.0.outlen == 8,
        ensures
            r == self.0.h@[0],
    {
        self.0.h[0]
    }

    /// The digest: the state words serialized little-endian, cut to the
    /// configured length. Produces the digest first, if it is not yet
    /// produced.
    pub fn finalize(&mut self) -> (r: Vec<u8>)
        requires
            hasher_wf(*old(self)),
        ensures
            hasher_wf(*final(self)),
            final(self).0.finalized,
            old(self).0.finalized ==> *final(self) == *old(self),
            !old(self).0.finalized ==> view_of(final(self).0) == finalize_spec(
                view_of(old(self).0),
            ),
            r@ == le_bytes_of(final(self).0.h@, final(self).0.outlen as nat),
    {
        if !self.0.finalized {
            blake2b_final(&mut self.0);
        }
        let n: usize = self.0.outlen as usize;
        let mut out: Vec<u8> = Vec::new();
        let mut i: usize = 0;
        while i < n
            invariant
                hasher_wf(*self),
                n == self.0.outlen as usize,
                n <= 64,
                i <= n,
                out@.len() == i,
                forall|k: int|
                    0 <= k < i ==> out@[k] == ((self.0.h@[k / 8] >> ((8 * (k % 8)) as u64))
                        & 0xff) as u8,
            decreases n - i,
        {
            let w: u64 = self.0.h[i / 8];
            let sh: u64 = 8 * ((i % 8) as u64);
            let byte: u8 = ((w >> sh) & 0xff) as u8;
            proof {
                assert(((w >> sh) & 0xff) < 256) by (bit_vector);
            }
            out.push(byte);
            i += 1;
        }
        proof {
            assert(out@ =~= le_bytes_of(self.0.h@, self.0.outlen as nat));
        }
        out
    }
}

} // verus!
