//! The bit-packed run-length font codec.
//!
//! A monochrome image is a sequence of samples, each `0x00` (black) or `0xFF`
//! (white).  Packing turns every 8 consecutive samples into one byte, most
//! significant bit first.  Compression copies the packed bytes, except that
//! every `0x00` byte starts a run: the `0x00` is emitted followed by a count
//! byte recording how many consecutive `0x00` bytes the run swallows, capped
//! at 255.  Decoding walks the compressed stream, expanding a `(0x00, count)`
//! pair into `count * 8` zero samples and any other byte into its 8 samples.

use vstd::prelude::*;

verus! {

/// Every sample of the image is pure black or pure white.
pub open spec fn is_binary_image(img: Seq<u8>) -> bool {
    forall|i: int| 0 <= i < img.len() ==> img[i] == 0x00u8 || img[i] == 0xFFu8
}

/// The bit a sample packs to: white is 1, anything else 0.
pub open spec fn sample_bit(sample: u8) -> int {
    if sample == 0xFFu8 {
        1
    } else {
        0
    }
}

/// Value of the first `k` samples of a chunk, folded most significant first.
pub open spec fn pack_prefix(chunk: Seq<u8>, k: int) -> int
    decreases k,
{
    if k <= 0 {
        0
    } else {
        2 * pack_prefix(chunk, k - 1) + sample_bit(chunk[k - 1])
    }
}

/// The byte that one chunk of 8 samples packs to.
pub open spec fn pack_byte(chunk: Seq<u8>) -> u8 {
    pack_prefix(chunk, 8) as u8
}

/// The packed form of an image: one byte for every 8 samples, row-major.
pub open spec fn packed(img: Seq<u8>) -> Seq<u8> {
    Seq::new((img.len() / 8) as nat, |j: int| pack_byte(img.subrange(8 * j, 8 * j + 8)))
}

/// The 8 samples a packed byte expands to, most significant bit first.
pub open spec fn unpack_byte(b: u8) -> Seq<u8> {
    Seq::new(8, |k: int| if (b >> ((7 - k) as u8)) & 1u8 == 1u8 {
        0xFFu8
    } else {
        0x00u8
    })
}

/// The samples a sequence of packed bytes expands to.
pub open spec fn expanded(chunks: Seq<u8>) -> Seq<u8>
    decreases chunks.len(),
{
    if chunks.len() == 0 {
        Seq::empty()
    } else {
        unpack_byte(chunks[0]) + expanded(chunks.skip(1))
    }
}

/// Number of leading `0x00` bytes.
pub open spec fn zero_run(chunks: Seq<u8>) -> nat
    decreases chunks.len(),
{
    if chunks.len() == 0 || chunks[0] != 0x00u8 {
        0
    } else {
        1 + zero_run(chunks.skip(1))
    }
}

/// A run of `n` zero bytes, whether samples or packed chunks.
pub open spec fn zero_samples(n: nat) -> Seq<u8> {
    Seq::new(n, |i: int| 0x00u8)
}

/// The run-length compressed form of a sequence of packed bytes: non-zero
/// bytes are copied; a run of zeros becomes `(0x00, count)` pairs, each count
/// at most 255.
pub open spec fn compressed(chunks: Seq<u8>) -> Seq<u8>
    decreases chunks.len(),
    via compressed_decreases
{
    if chunks.len() == 0 {
        Seq::empty()
    } else if chunks[0] != 0x00u8 {
        seq![chunks[0]] + compressed(chunks.skip(1))
    } else {
        let run = if zero_run(chunks) <= 255 {
            zero_run(chunks) as int
        } else {
            255
        };
        seq![0x00u8, run as u8] + compressed(chunks.skip(run))
    }
}

#[via_fn]
proof fn compressed_decreases(chunks: Seq<u8>) {
    lemma_zero_run_le_len(chunks);
}

/// A run of leading zeros never reaches past the end of the sequence.
proof fn lemma_zero_run_le_len(chunks: Seq<u8>)
    ensures
        zero_run(chunks) <= chunks.len(),
    decreases chunks.len(),
{
    if chunks.len() != 0 && chunks[0] == 0x00u8 {
        lemma_zero_run_le_len(chunks.skip(1));
    }
}

/// The samples a compressed stream decodes to.  A trailing lone `0x00`
/// (a run marker whose count byte is missing) decodes to nothing.
pub open spec fn decoded(stream: Seq<u8>) -> Seq<u8>
    decreases stream.len(),
{
    if stream.len() == 0 {
        Seq::empty()
    } else if stream[0] == 0x00u8 {
        if stream.len() == 1 {
            Seq::empty()
        } else {
            zero_samples((stream[1] as nat) * 8) + decoded(stream.skip(2))
        }
    } else {
        unpack_byte(stream[0]) + decoded(stream.skip(1))
    }
}

/// Run-length compresses a sequence of packed bytes.
pub fn compress_bytes_with_custom_rle(bytes: &[u8]) -> (r: Vec<u8>)
    ensures
        r@ == compressed(bytes@),
{
    let n = bytes.len();
    let mut result: Vec<u8> = Vec::new();
    let mut i: usize = 0;
    proof {
        assert(bytes@.skip(0) =~= bytes@);
        assert(result@ + compressed(bytes@) =~= compressed(bytes@));
    }
    while i < n
        invariant
            i <= n,
            n == bytes@.len(),
            compressed(bytes@) == result@ + compressed(bytes@.skip(i as int)),
        decreases n - i,
    {
        let ghost i_start = i as int;
        let ghost prev = result@;
        let b = bytes[i];
        result.push(b);
        if b == 0x00 {
            i = i + 1;
            let mut count: u8 = 1;
            while i < n && bytes[i] == 0x00 && count < 255
                invariant
                    n == bytes@.len(),
                    0 <= i_start < i <= n,
                    count as int == i - i_start,
                    count <= 255,
                    forall|j: int| i_start <= j < i ==> bytes@[j] == 0x00u8,
                decreases n - i,
            {
                i = i + 1;
                count = count + 1;
            }
            result.push(count);
            proof {
                let tail = bytes@.skip(i_start);
                lemma_zero_run_suffix(bytes@, i_start, i as int);
                if count < 255 {
                    assert(i == n || bytes@[i as int] != 0x00u8);
                    assert(zero_run(tail) == count) by {
                        lemma_zero_run_exact(bytes@, i_start, i as int);
                    }
                } else {
                    assert(zero_run(tail) >= 255) by {
                        lemma_zero_run_suffix(bytes@, i_start, i as int);
                    }
                }
                assert(tail.len() != 0 && tail[0] == 0x00u8);
                let run = if zero_run(tail) <= 255 {
                    zero_run(tail) as int
                } else {
                    255
                };
                assert(run == count as int);
                assert(tail.skip(run) =~= bytes@.skip(i as int));
                assert(compressed(tail) == seq![0x00u8, count] + compressed(bytes@.skip(i as int)));
                assert(result@ =~= prev + seq![0x00u8, count]);
                assert(compressed(bytes@) == result@ + compressed(bytes@.skip(i as int)));
            }
        } else {
            i = i + 1;
            proof {
                let tail = bytes@.skip(i_start);
                assert(tail.len() != 0 && tail[0] == b && b != 0x00u8);
                assert(tail.skip(1) =~= bytes@.skip(i as int));
                assert(compressed(tail) == seq![b] + compressed(bytes@.skip(i as int)));
                assert(result@ =~= prev + seq![b]);
                assert(compressed(bytes@) == result@ + compressed(bytes@.skip(i as int)));
            }
        }
    }
    proof {
        assert(bytes@.skip(n as int) =~= Seq::<u8>::empty());
    }
    result
}

/// The leading samples of a suffix that starts inside a stretch of zeros.
proof fn lemma_zero_run_suffix(s: Seq<u8>, a: int, b: int)
    requires
        0 <= a <= b <= s.len(),
        forall|j: int| a <= j < b ==> s[j] == 0x00u8,
    ensures
        zero_run(s.skip(a)) >= b - a,
    decreases b - a,
{
    if a < b {
        assert(s.skip(a)[0] == s[a]);
        assert(s.skip(a).skip(1) =~= s.skip(a + 1));
        lemma_zero_run_suffix(s, a + 1, b);
    }
}

/// Every byte inside the leading run is zero.
proof fn lemma_zero_run_prefix(chunks: Seq<u8>)
    ensures
        forall|i: int| 0 <= i < zero_run(chunks) ==> chunks[i] == 0x00u8,
    decreases chunks.len(),
{
    lemma_zero_run_le_len(chunks);
    if chunks.len() != 0 && chunks[0] == 0x00u8 {
        lemma_zero_run_prefix(chunks.skip(1));
        assert forall|i: int| 0 <= i < zero_run(chunks) implies chunks[i] == 0x00u8 by {
            if i > 0 {
                assert(chunks.skip(1)[i - 1] == chunks[i]);
            }
        }
    }
}

/// A stretch of zeros that ends at a non-zero byte (or at the end of the
/// sequence) is the whole leading run.
proof fn lemma_zero_run_exact(s: Seq<u8>, a: int, b: int)
    requires
        0 <= a <= b <= s.len(),
        forall|j: int| a <= j < b ==> s[j] == 0x00u8,
        b == s.len() || s[b] != 0x00u8,
    ensures
        zero_run(s.skip(a)) == b - a,
    decreases b - a,
{
    if a == b {
        if a < s.len() {
            assert(s.skip(a)[0] == s[a]);
        }
    } else {
        assert(s.skip(a)[0] == s[a]);
        assert(s.skip(a).skip(1) =~= s.skip(a + 1));
        lemma_zero_run_exact(s, a + 1, b);
    }
}

/// The all-zero byte unpacks to 8 zero samples.
proof fn lemma_unpack_zero()
    ensures
        unpack_byte(0x00u8) == zero_samples(8),
{
    assert(forall|sh: u8| (0x00u8 >> sh) & 1u8 == 0u8) by (bit_vector);
    assert(unpack_byte(0x00u8) =~= zero_samples(8));
}

/// Expanding a sequence whose first `c` bytes are zero yields `c * 8` zero
/// samples followed by the expansion of the rest.
proof fn lemma_expanded_zeros(chunks: Seq<u8>, c: int)
    requires
        0 <= c <= chunks.len(),
        forall|i: int| 0 <= i < c ==> chunks[i] == 0x00u8,
    ensures
        expanded(chunks) == zero_samples((c * 8) as nat) + expanded(chunks.skip(c)),
    decreases c,
{
    if c == 0 {
        assert(chunks.skip(0) =~= chunks);
        assert(zero_samples(0) + expanded(chunks) =~= expanded(chunks));
    } else {
        assert(chunks[0] == 0x00u8);
        lemma_unpack_zero();
        assert(forall|i: int| 0 <= i < c - 1 ==> chunks.skip(1)[i] == 0x00u8);
        lemma_expanded_zeros(chunks.skip(1), c - 1);
        assert(chunks.skip(1).skip(c - 1) =~= chunks.skip(c));
        assert(expanded(chunks) == zero_samples(8) + (zero_samples(((c - 1) * 8) as nat)
            + expanded(chunks.skip(c))));
        assert(expanded(chunks) =~= zero_samples((c * 8) as nat) + expanded(chunks.skip(c)));
    }
}

/// Decoding a stream that starts with a non-zero byte peels off its 8 samples.
proof fn lemma_decoded_cons_nonzero(b: u8, t: Seq<u8>)
    requires
        b != 0x00u8,
    ensures
        decoded(seq![b] + t) == unpack_byte(b) + decoded(t),
{
    let s = seq![b] + t;
    assert(s[0] == b);
    assert(s.skip(1) =~= t);
}

/// Decoding a stream that starts with a run marker peels off the run.
proof fn lemma_decoded_cons_zero(c: u8, t: Seq<u8>)
    ensures
        decoded(seq![0x00u8, c] + t) == zero_samples((c as nat) * 8) + decoded(t),
{
    let s = seq![0x00u8, c] + t;
    assert(s[0] == 0x00u8);
    assert(s[1] == c);
    assert(s.len() >= 2);
    assert(s.skip(2) =~= t);
}

/// Decoding undoes compression: the compressed form of a packed byte
/// sequence decodes to exactly the samples those bytes expand to.
pub proof fn lemma_decoded_compressed(chunks: Seq<u8>)
    ensures
        decoded(compressed(chunks)) == expanded(chunks),
    decreases chunks.len(),
{
    if chunks.len() == 0 {
    } else if chunks[0] != 0x00u8 {
        lemma_decoded_cons_nonzero(chunks[0], compressed(chunks.skip(1)));
        lemma_decoded_compressed(chunks.skip(1));
    } else {
        lemma_zero_run_le_len(chunks);
        lemma_zero_run_prefix(chunks);
        let run = if zero_run(chunks) <= 255 {
            zero_run(chunks) as int
        } else {
            255
        };
        assert(zero_run(chunks) == 1 + zero_run(chunks.skip(1)));
        assert(1 <= run <= chunks.len());
        assert(forall|i: int| 0 <= i < run ==> chunks[i] == 0x00u8);
        lemma_decoded_cons_zero(run as u8, compressed(chunks.skip(run)));
        lemma_decoded_compressed(chunks.skip(run));
        lemma_expanded_zeros(chunks, run);
        assert(((run as u8) as nat) * 8 == ((run * 8) as nat));
    }
}

/// The packed byte is the weighted sum of the chunk's 8 bits.
proof fn lemma_pack_byte_value(chunk: Seq<u8>)
    requires
        chunk.len() == 8,
    ensures
        pack_prefix(chunk, 8) == 128 * sample_bit(chunk[0]) + 64 * sample_bit(chunk[1]) + 32
            * sample_bit(chunk[2]) + 16 * sample_bit(chunk[3]) + 8 * sample_bit(chunk[4]) + 4
            * sample_bit(chunk[5]) + 2 * sample_bit(chunk[6]) + sample_bit(chunk[7]),
{
    let b0 = sample_bit(chunk[0]);
    let b1 = sample_bit(chunk[1]);
    let b2 = sample_bit(chunk[2]);
    let b3 = sample_bit(chunk[3]);
    let b4 = sample_bit(chunk[4]);
    let b5 = sample_bit(chunk[5]);
    let b6 = sample_bit(chunk[6]);
    let b7 = sample_bit(chunk[7]);
    assert(pack_prefix(chunk, 0) == 0);
    assert(pack_prefix(chunk, 1) == b0);
    assert(pack_prefix(chunk, 2) == 2 * b0 + b1);
    assert(pack_prefix(chunk, 3) == 4 * b0 + 2 * b1 + b2);
    assert(pack_prefix(chunk, 4) == 8 * b0 + 4 * b1 + 2 * b2 + b3);
    assert(pack_prefix(chunk, 5) == 16 * b0 + 8 * b1 + 4 * b2 + 2 * b3 + b4);
    assert(pack_prefix(chunk, 6) == 32 * b0 + 16 * b1 + 8 * b2 + 4 * b3 + 2 * b4 + b5);
    assert(pack_prefix(chunk, 7) == 64 * b0 + 32 * b1 + 16 * b2 + 8 * b3 + 4 * b4 + 2 * b5 + b6);
}

/// Packing then unpacking one chunk of 8 binary samples gives the chunk back.
proof fn lemma_unpack_pack(chunk: Seq<u8>)
    requires
        chunk.len() == 8,
        is_binary_image(chunk),
    ensures
        unpack_byte(pack_byte(chunk)) == chunk,
{
    let b0 = sample_bit(chunk[0]) as u8;
    let b1 = sample_bit(chunk[1]) as u8;
    let b2 = sample_bit(chunk[2]) as u8;
    let b3 = sample_bit(chunk[3]) as u8;
    let b4 = sample_bit(chunk[4]) as u8;
    let b5 = sample_bit(chunk[5]) as u8;
    let b6 = sample_bit(chunk[6]) as u8;
    let b7 = sample_bit(chunk[7]) as u8;
    lemma_pack_byte_value(chunk);
    let v = pack_byte(chunk);
    assert(v == 128 * b0 + 64 * b1 + 32 * b2 + 16 * b3 + 8 * b4 + 4 * b5 + 2 * b6 + b7);
    assert((v >> 7u8) & 1u8 == b0 && (v >> 6u8) & 1u8 == b1 && (v >> 5u8) & 1u8 == b2 && (v
        >> 4u8) & 1u8 == b3 && (v >> 3u8) & 1u8 == b4 && (v >> 2u8) & 1u8 == b5 && (v >> 1u8)
        & 1u8 == b6 && (v >> 0u8) & 1u8 == b7) by (bit_vector)
        requires
            v == 128 * b0 + 64 * b1 + 32 * b2 + 16 * b3 + 8 * b4 + 4 * b5 + 2 * b6 + b7,
            b0 < 2,
            b1 < 2,
            b2 < 2,
            b3 < 2,
            b4 < 2,
            b5 < 2,
            b6 < 2,
            b7 < 2,
    ;
    assert(unpack_byte(v)[0] == chunk[0]);
    assert(unpack_byte(v)[1] == chunk[1]);
    assert(unpack_byte(v)[2] == chunk[2]);
    assert(unpack_byte(v)[3] == chunk[3]);
    assert(unpack_byte(v)[4] == chunk[4]);
    assert(unpack_byte(v)[5] == chunk[5]);
    assert(unpack_byte(v)[6] == chunk[6]);
    assert(unpack_byte(v)[7] == chunk[7]);
    assert(unpack_byte(v) =~= chunk);
}

/// Dropping the first packed byte is packing the image without its first
/// 8 samples.
proof fn lemma_packed_skip(img: Seq<u8>)
    requires
        img.len() % 8 == 0,
        img.len() >= 8,
    ensures
        packed(img).skip(1) == packed(img.skip(8)),
{
    assert forall|j: int| 0 <= j < packed(img).skip(1).len() implies packed(img).skip(1)[j]
        == packed(img.skip(8))[j] by {
        assert(packed(img).skip(1)[j] == packed(img)[j + 1]);
        assert(img.skip(8).subrange(8 * j, 8 * j + 8) =~= img.subrange(8 * (j + 1), 8 * (j + 1)
            + 8));
    }
    assert(packed(img).skip(1) =~= packed(img.skip(8)));
}

/// Expanding the packed form of a binary image whose sample count is a
/// multiple of 8 gives the image back.
pub proof fn lemma_expanded_packed(img: Seq<u8>)
    requires
        is_binary_image(img),
        img.len() % 8 == 0,
    ensures
        expanded(packed(img)) == img,
    decreases img.len(),
{
    if img.len() == 0 {
        assert(expanded(packed(img)) =~= img);
    } else {
        assert(img.len() >= 8);
        let p = packed(img);
        assert(p[0] == pack_byte(img.subrange(0, 8)));
        lemma_packed_skip(img);
        assert(img.skip(8).len() % 8 == 0);
        assert(is_binary_image(img.skip(8)));
        lemma_expanded_packed(img.skip(8));
        assert(is_binary_image(img.subrange(0, 8)));
        lemma_unpack_pack(img.subrange(0, 8));
        assert(expanded(p) == img.subrange(0, 8) + img.skip(8));
        assert(img.subrange(0, 8) + img.skip(8) =~= img);
    }
}

/// Sum of the count bytes of a stream made of `(0x00, count)` marker pairs.
pub open spec fn marker_count_sum(s: Seq<u8>) -> int
    decreases s.len(),
{
    if s.len() < 2 {
        0
    } else {
        s[1] + marker_count_sum(s.skip(2))
    }
}

/// Zero-run cap: compressing `n` consecutive all-zero packed bytes produces
/// `ceil(n / 255)` marker pairs; every pair starts with `0x00` and the counts
/// sum to `n`.
pub proof fn lemma_zero_run_cap(n: nat)
    requires
        n >= 1,
    ensures
        compressed(zero_samples(n)).len() == 2 * ((n + 254) / 255),
        marker_count_sum(compressed(zero_samples(n))) == n,
        forall|k: int|
            0 <= k < compressed(zero_samples(n)).len() && k % 2 == 0 ==> compressed(
                zero_samples(n),
            )[k] == 0x00u8,
    decreases n,
{
    let s = zero_samples(n);
    assert(s.skip(0) =~= s);
    lemma_zero_run_exact(s, 0, n as int);
    assert(zero_run(s) == n);
    let run = if zero_run(s) <= 255 {
        zero_run(s) as int
    } else {
        255
    };
    let rest = compressed(s.skip(run));
    let out = compressed(s);
    assert(out == seq![0x00u8, run as u8] + rest);
    if n <= 255 {
        assert(run == n);
        assert(s.skip(run) =~= Seq::<u8>::empty());
        assert(rest == Seq::<u8>::empty());
        assert(out =~= seq![0x00u8, n as u8]);
        assert(out.len() == 2);
        assert(2 * ((n + 254) / 255) == 2);
        assert(out.skip(2) =~= Seq::<u8>::empty());
        assert(marker_count_sum(Seq::<u8>::empty()) == 0);
        assert(marker_count_sum(out) == out[1] + marker_count_sum(out.skip(2)));
        assert(marker_count_sum(out) == n);
    } else {
        assert(run == 255);
        assert(s.skip(255) =~= zero_samples((n - 255) as nat));
        lemma_zero_run_cap((n - 255) as nat);
        assert(out.len() == 2 + 2 * (((n - 255) + 254) / 255));
        assert((n + 254) / 255 == 1 + ((n - 1) / 255));
        assert(out.len() == 2 * ((n + 254) / 255));
        assert(out.skip(2) =~= rest);
        assert(marker_count_sum(out) == 255 + marker_count_sum(rest));
        assert forall|k: int| 0 <= k < out.len() && k % 2 == 0 implies out[k] == 0x00u8 by {
            if k >= 2 {
                assert(out[k] == rest[k - 2]);
                assert((k - 2) % 2 == 0);
            }
        }
    }
}

/// Bit-packs a binary image, 8 samples to a byte, most significant bit
/// first.  Any sample other than `0x00` or `0xFF` marks the source image as
/// malformed and yields `None`.
#[verifier::rlimit(50)]
pub fn pack_image(image: &[u8]) -> (r: Option<Vec<u8>>)
    requires
        image@.len() % 8 == 0,
    ensures
        r is Some <==> is_binary_image(image@),
        r matches Some(v) ==> v@ == packed(image@),
{
    let n = image.len();
    let chunk_count = n / 8;
    let mut result: Vec<u8> = Vec::new();
    let mut ci: usize = 0;
    while ci < chunk_count
        invariant
            ci <= chunk_count,
            chunk_count == n / 8,
            n == image@.len(),
            n % 8 == 0,
            result@.len() == ci,
            forall|j: int| 0 <= j < ci ==> result@[j] == packed(image@)[j],
            forall|idx: int|
                0 <= idx < 8 * ci ==> (image@[idx] == 0x00u8 || image@[idx] == 0xFFu8),
        decreases chunk_count - ci,
    {
        proof {
            assert(n == 8 * (n / 8));
        }
        let base = ci * 8;
        let ghost w = image@.subrange(base as int, base as int + 8);
        let mut k: usize = 0;
        while k < 8
            invariant
                k <= 8,
                base == ci * 8,
                base + 8 <= n,
                n == image@.len(),
                w == image@.subrange(base as int, base as int + 8),
                forall|t: int| 0 <= t < k ==> (w[t] == 0x00u8 || w[t] == 0xFFu8),
            decreases 8 - k,
        {
            let s = image[base + k];
            proof {
                assert(w[k as int] == image@[base + k]);
            }
            if s != 0x00 && s != 0xFF {
                proof {
                    assert(!is_binary_image(image@));
                }
                return None;
            }
            k = k + 1;
        }
        let b0: u8 = if image[base] == 0xFF { 1 } else { 0 };
        let b1: u8 = if image[base + 1] == 0xFF { 1 } else { 0 };
        let b2: u8 = if image[base + 2] == 0xFF { 1 } else { 0 };
        let b3: u8 = if image[base + 3] == 0xFF { 1 } else { 0 };
        let b4: u8 = if image[base + 4] == 0xFF { 1 } else { 0 };
        let b5: u8 = if image[base + 5] == 0xFF { 1 } else { 0 };
        let b6: u8 = if image[base + 6] == 0xFF { 1 } else { 0 };
        let b7: u8 = if image[base + 7] == 0xFF { 1 } else { 0 };
        let chunk = 128 * b0 + 64 * b1 + 32 * b2 + 16 * b3 + 8 * b4 + 4 * b5 + 2 * b6 + b7;
        proof {
            lemma_pack_byte_value(w);
            assert(forall|t: int| 0 <= t < 8 ==> w[t] == image@[base + t]);
            assert(b0 as int == sample_bit(w[0]));
            assert(b1 as int == sample_bit(w[1]));
            assert(b2 as int == sample_bit(w[2]));
            assert(b3 as int == sample_bit(w[3]));
            assert(b4 as int == sample_bit(w[4]));
            assert(b5 as int == sample_bit(w[5]));
            assert(b6 as int == sample_bit(w[6]));
            assert(b7 as int == sample_bit(w[7]));
            assert(chunk as int == pack_prefix(w, 8));
            assert(chunk == pack_byte(w));
            assert(packed(image@)[ci as int] == pack_byte(
                image@.subrange(8 * ci as int, 8 * ci as int + 8),
            ));
            assert(image@.subrange(8 * ci as int, 8 * ci as int + 8) == w);
        }
        result.push(chunk);
        ci = ci + 1;
    }
    proof {
        assert(8 * (n / 8) == n);
        assert(is_binary_image(image@));
        assert(result@ =~= packed(image@));
    }
    Some(result)
}

/// Round trip: compressing the packed form of a binary image and decoding
/// the result reproduces the image exactly.
pub proof fn lemma_round_trip(img: Seq<u8>)
    requires
        is_binary_image(img),
        img.len() % 8 == 0,
    ensures
        decoded(compressed(packed(img))) == img,
{
    lemma_decoded_compressed(packed(img));
    lemma_expanded_packed(img);
}

/// For a stream the compressor produced, the decoder's write cursor stops
/// exactly at the source image's sample count.
pub proof fn lemma_decoded_length(img: Seq<u8>)
    requires
        is_binary_image(img),
        img.len() % 8 == 0,
    ensures
        decoded(compressed(packed(img))).len() == img.len(),
{
    lemma_round_trip(img);
}

} // verus!
