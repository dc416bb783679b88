//! Packing of byte strings into little-endian 32-bit words, and back.
use vstd::prelude::*;

verus! {

/// The byte at index `k` of `data`, or zero past either end.
pub open spec fn byte_or_zero(data: Seq<u8>, k: int) -> u8 {
    if 0 <= k < data.len() {
        data[k]
    } else {
        0
    }
}

/// Word number `i` of `data` read in little-endian order, zero-padded at the end.
pub open spec fn le_word(data: Seq<u8>, i: int) -> u32 {
    (byte_or_zero(data, 4 * i) + 0x100 * byte_or_zero(data, 4 * i + 1) + 0x1_0000
        * byte_or_zero(data, 4 * i + 2) + 0x100_0000 * byte_or_zero(data, 4 * i + 3)) as u32
}

/// The number of words needed for `n` bytes.
pub open spec fn word_count(n: nat) -> nat {
    (n + 3) / 4
}

/// `data` packed into words, followed by its length (truncated to 32 bits) when asked for.
pub open spec fn pack_words(data: Seq<u8>, include_len: bool) -> Seq<u32> {
    let words = Seq::new(word_count(data.len()), |i: int| le_word(data, i));
    if include_len {
        words.push(data.len() as u32)
    } else {
        words
    }
}

/// Byte number `j` (0 to 3, least significant first) of the word `w`.
pub open spec fn word_byte(w: u32, j: int) -> u8 {
    ((w >> ((8 * j) as u32)) & 0xffu32) as u8
}

/// The first `m` bytes of the words `v` written out in little-endian order.
pub open spec fn unpack_prefix(v: Seq<u32>, m: nat) -> Seq<u8> {
    Seq::new(m, |k: int| word_byte(v[k / 4], k % 4))
}

/// The bytes of `v`; when `include_len` holds, the last word gives how many of them to
/// keep, and a length longer than the words themselves yields nothing.
pub open spec fn unpack_words(v: Seq<u32>, include_len: bool) -> Seq<u8> {
    if include_len {
        let m = v.last();
        if m > 4 * v.len() {
            Seq::empty()
        } else {
            unpack_prefix(v, m as nat)
        }
    } else {
        unpack_prefix(v, 4 * v.len())
    }
}

proof fn lemma_or_bytes(b0: u8, b1: u8, b2: u8, b3: u8)
    ensures
        (b0 as u32) | ((b1 as u32) << 8u32) | ((b2 as u32) << 16u32) | ((b3 as u32) << 24u32)
            == (b0 + 0x100 * b1 + 0x1_0000 * b2 + 0x100_0000 * b3) as u32,
{
    assert((b0 as u32) | ((b1 as u32) << 8u32) | ((b2 as u32) << 16u32) | ((b3 as u32)
        << 24u32) == (b0 + 0x100 * b1 + 0x1_0000 * b2 + 0x100_0000 * b3) as u32)
        by (bit_vector);
}

/// Packs `data` into little-endian words, zero-padding the last one, and appends the
/// byte length as one more word when `include_len` is set.
pub fn s(data: &[u8], include_len: bool) -> (v: Vec<u32>)
    ensures
        v@ == pack_words(data@, include_len),
{
    let len = data.len();
    let nwords = len / 4 + if len % 4 == 0 {
        0
    } else {
        1
    };
    let mut v: Vec<u32> = Vec::new();
    let mut w: usize = 0;
    while w < nwords
        invariant
            len == data@.len(),
            nwords == word_count(len as nat),
            w <= nwords,
            v@ == Seq::new(w as nat, |i: int| le_word(data@, i)),
        decreases nwords - w,
    {
        let base = 4 * w;
        let rem = len - base;
        let b0 = data[base];
        let b1 = if rem > 1 {
            data[base + 1]
        } else {
            0
        };
        let b2 = if rem > 2 {
            data[base + 2]
        } else {
            0
        };
        let b3 = if rem > 3 {
            data[base + 3]
        } else {
            0
        };
        let u: u32 = (b0 as u32) | ((b1 as u32) << 8u32) | ((b2 as u32) << 16u32) | ((b3 as u32)
            << 24u32);
        proof {
            lemma_or_bytes(b0, b1, b2, b3);
        }
        v.push(u);
        assert(v@ =~= Seq::new((w + 1) as nat, |i: int| le_word(data@, i)));
        w += 1;
    }
    if include_len {
        v.push(len as u32);
    }
    v
}

/// Writes the words `v` out as little-endian bytes. When `include_len` is set, the last
/// word is the number of bytes to keep, and a number larger than four times the word
/// count gives an empty result.
pub fn l(v: &[u32], include_len: bool) -> (res: Vec<u8>)
    requires
        include_len ==> v@.len() > 0,
        4 * v@.len() <= usize::MAX,
    ensures
        res@ == unpack_words(v@, include_len),
{
    let n = v.len();
    let mut m: usize = n * 4;
    if include_len {
        let m_orig = v[n - 1] as usize;
        if m_orig > m {
            return Vec::new();
        }
        m = m_orig;
    }
    let mut res: Vec<u8> = Vec::new();
    let mut i: usize = 0;
    while i < n
        invariant
            n == v@.len(),
            4 * n <= usize::MAX,
            m <= 4 * n,
            i <= n,
            res@ == unpack_prefix(v@, if m < 4 * i { m as nat } else { 4 * i as nat }),
        decreases n - i,
    {
        let u = v[i];
        let mut j: u32 = 0;
        while j < 4
            invariant
                n == v@.len(),
                4 * n <= usize::MAX,
                m <= 4 * n,
                i < n,
                u == v@[i as int],
                j <= 4,
                res@ == unpack_prefix(v@, if m < 4 * i + j { m as nat } else { (4 * i + j) as nat }),
            decreases 4 - j,
        {
            let byte = ((u >> (j * 8)) & 0xff) as u8;
            if res.len() < m {
                res.push(byte);
                assert(res@ =~= unpack_prefix(v@, (4 * i + j + 1) as nat));
            }
            j += 1;
        }
        i += 1;
    }
    assert(res@ =~= unpack_words(v@, include_len));
    res
}

proof fn lemma_word_byte_of_bytes(b0: u8, b1: u8, b2: u8, b3: u8)
    ensures
        ({
            let w = (b0 + 0x100 * b1 + 0x1_0000 * b2 + 0x100_0000 * b3) as u32;
            &&& word_byte(w, 0) == b0
            &&& word_byte(w, 1) == b1
            &&& word_byte(w, 2) == b2
            &&& word_byte(w, 3) == b3
        }),
{
    let w = (b0 + 0x100 * b1 + 0x1_0000 * b2 + 0x100_0000 * b3) as u32;
    assert(((w >> 0u32) & 0xffu32) as u8 == b0) by (bit_vector)
        requires
            w == (b0 + 0x100 * b1 + 0x1_0000 * b2 + 0x100_0000 * b3) as u32,
    ;
    assert(((w >> 8u32) & 0xffu32) as u8 == b1) by (bit_vector)
        requires
            w == (b0 + 0x100 * b1 + 0x1_0000 * b2 + 0x100_0000 * b3) as u32,
    ;
    assert(((w >> 16u32) & 0xffu32) as u8 == b2) by (bit_vector)
        requires
            w == (b0 + 0x100 * b1 + 0x1_0000 * b2 + 0x100_0000 * b3) as u32,
    ;
    assert(((w >> 24u32) & 0xffu32) as u8 == b3) by (bit_vector)
        requires
            w == (b0 + 0x100 * b1 + 0x1_0000 * b2 + 0x100_0000 * b3) as u32,
    ;
}

proof fn lemma_bytes_of_word(w: u32)
    ensures
        (word_byte(w, 0) + 0x100 * word_byte(w, 1) + 0x1_0000 * word_byte(w, 2) + 0x100_0000
            * word_byte(w, 3)) as u32 == w,
{
    assert((((w >> 0u32) & 0xffu32) as u8 + 0x100 * ((w >> 8u32) & 0xffu32) as u8 + 0x1_0000
        * ((w >> 16u32) & 0xffu32) as u8 + 0x100_0000 * ((w >> 24u32) & 0xffu32) as u8) as u32
        == w) by (bit_vector);
}

/// Writing out the words of `data`, length word included, gives `data` back, for any
/// `data` whose length fits in the length word.
pub proof fn lemma_unpack_pack_with_len(data: Seq<u8>)
    requires
        data.len() <= u32::MAX,
    ensures
        unpack_words(pack_words(data, true), true) == data,
{
    let v = pack_words(data, true);
    let wc = word_count(data.len());
    assert(v.last() == data.len());
    assert forall|k: int| 0 <= k < data.len() implies #[trigger] unpack_prefix(
        v,
        data.len(),
    )[k] == data[k] by {
        let i = k / 4;
        lemma_word_byte_of_bytes(
            byte_or_zero(data, 4 * i),
            byte_or_zero(data, 4 * i + 1),
            byte_or_zero(data, 4 * i + 2),
            byte_or_zero(data, 4 * i + 3),
        );
        assert(v[i] == le_word(data, i));
    }
    assert(unpack_words(v, true) =~= data);
}

/// Without the length word, writing out the words of `data` gives `data` followed by
/// the zero bytes that fill its last word.
pub proof fn lemma_unpack_pack_padded(data: Seq<u8>)
    ensures
        unpack_words(pack_words(data, false), false) == Seq::new(
            4 * word_count(data.len()),
            |k: int| byte_or_zero(data, k),
        ),
{
    let v = pack_words(data, false);
    let out = Seq::new(4 * word_count(data.len()), |k: int| byte_or_zero(data, k));
    assert forall|k: int| 0 <= k < out.len() implies #[trigger] unpack_words(v, false)[k]
        == out[k] by {
        let i = k / 4;
        lemma_word_byte_of_bytes(
            byte_or_zero(data, 4 * i),
            byte_or_zero(data, 4 * i + 1),
            byte_or_zero(data, 4 * i + 2),
            byte_or_zero(data, 4 * i + 3),
        );
        assert(v[i] == le_word(data, i));
    }
    assert(unpack_words(v, false) =~= out);
}

/// Packing the bytes of the words `v` gives `v` back.
pub proof fn lemma_pack_unpack(v: Seq<u32>)
    ensures
        pack_words(unpack_words(v, false), false) == v,
{
    let bytes = unpack_words(v, false);
    assert(word_count(bytes.len()) == v.len());
    assert forall|i: int| 0 <= i < v.len() implies #[trigger] pack_words(bytes, false)[i]
        == v[i] by {
        lemma_bytes_of_word(v[i]);
        assert(byte_or_zero(bytes, 4 * i) == word_byte(v[i], 0));
        assert(byte_or_zero(bytes, 4 * i + 1) == word_byte(v[i], 1));
        assert(byte_or_zero(bytes, 4 * i + 2) == word_byte(v[i], 2));
        assert(byte_or_zero(bytes, 4 * i + 3) == word_byte(v[i], 3));
    }
    assert(pack_words(bytes, false) =~= v);
}

} // verus!
