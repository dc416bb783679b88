//! Base64 over the Srun portal's own 64-letter alphabet.
use vstd::prelude::*;
use super::words::byte_or_zero;
use crate::text::push_char;

verus! {

/// The portal's Base64 alphabet: the letter for each 6-bit value.
pub const CUSTOM_BASE64_ALPHABET: [char; 64] = [
    'L', 'V', 'o', 'J', 'P', 'i', 'C', 'N', '2', 'R', '8', 'G', '9', '0', 'y', 'g', '+', 'h',
    'm', 'F', 'H', 'u', 'a', 'c', 'Z', '1', 'O', 'W', 'M', 'n', 'r', 's', 'S', 'T', 'X', 'k',
    'Y', 'p', 'U', 'q', '/', '3', 'd', 'l', 'b', 'f', 'K', 'w', 'v', '6', 'x', 'z', 't', 'j',
    'I', '7', 'D', 'e', 'B', 'E', '4', '5', 'Q', 'A',
];

/// The letter of the 6-bit value `x`.
pub open spec fn sextet_char(x: u8) -> char {
    CUSTOM_BASE64_ALPHABET@[x as int]
}

/// The four characters for one group of up to three bytes, of which `n` are present;
/// absent bytes count as zero, and each sextet that only they fill becomes `=`.
pub open spec fn encode_group(b0: u8, b1: u8, b2: u8, n: nat) -> Seq<char> {
    seq![
        sextet_char(b0 >> 2u8),
        sextet_char(((b0 & 3u8) << 4u8) | (b1 >> 4u8)),
        if n > 1 {
            sextet_char(((b1 & 0x0fu8) << 2u8) | (b2 >> 6u8))
        } else {
            '='
        },
        if n > 2 {
            sextet_char(b2 & 0x3fu8)
        } else {
            '='
        },
    ]
}

/// The encoding of `data`: one group of four characters per three bytes, the last group
/// padded.
pub open spec fn custom_base64(data: Seq<u8>) -> Seq<char>
    decreases data.len(),
{
    if data.len() == 0 {
        Seq::empty()
    } else {
        encode_group(data[0], byte_or_zero(data, 1), byte_or_zero(data, 2), data.len()) + if data.len()
            <= 3 {
            Seq::<char>::empty()
        } else {
            custom_base64(data.skip(3))
        }
    }
}

proof fn lemma_sextets_below_64(b0: u8, b1: u8, b2: u8)
    ensures
        b0 >> 2u8 < 64,
        ((b0 & 3u8) << 4u8) | (b1 >> 4u8) < 64,
        ((b1 & 0x0fu8) << 2u8) | (b2 >> 6u8) < 64,
        b2 & 0x3fu8 < 64,
{
    assert(b0 >> 2u8 < 64) by (bit_vector);
    assert(((b0 & 3u8) << 4u8) | (b1 >> 4u8) < 64) by (bit_vector);
    assert(((b1 & 0x0fu8) << 2u8) | (b2 >> 6u8) < 64) by (bit_vector);
    assert(b2 & 0x3fu8 < 64) by (bit_vector);
}

/// The encoding has four characters for every three bytes or part of them.
pub proof fn lemma_custom_base64_len(data: Seq<u8>)
    ensures
        custom_base64(data).len() == 4 * ((data.len() + 2) / 3),
    decreases data.len(),
{
    if data.len() > 3 {
        lemma_custom_base64_len(data.skip(3));
    }
}

/// Every character of the encoding is `=` or a letter of the alphabet.
pub proof fn lemma_custom_base64_chars(data: Seq<u8>)
    ensures
        forall|k: int|
            0 <= k < custom_base64(data).len() ==> #[trigger] custom_base64(data)[k] == '='
                || exists|x: int| 0 <= x < 64 && custom_base64(data)[k] == CUSTOM_BASE64_ALPHABET@[x],
    decreases data.len(),
{
    let out = custom_base64(data);
    if data.len() > 0 {
        let b0 = data[0];
        let b1 = byte_or_zero(data, 1);
        let b2 = byte_or_zero(data, 2);
        lemma_sextets_below_64(b0, b1, b2);
        let g = encode_group(b0, b1, b2, data.len());
        if data.len() > 3 {
            lemma_custom_base64_chars(data.skip(3));
        }
        assert forall|k: int| 0 <= k < out.len() implies #[trigger] out[k] == '=' || exists|
            x: int,
        | 0 <= x < 64 && out[k] == CUSTOM_BASE64_ALPHABET@[x] by {
            if k == 0 {
                assert(out[k] == CUSTOM_BASE64_ALPHABET@[(b0 >> 2u8) as int]);
            } else if k == 1 {
                assert(out[k] == CUSTOM_BASE64_ALPHABET@[(((b0 & 3u8) << 4u8) | (b1 >> 4u8)) as int]);
            } else if k == 2 {
                if data.len() > 1 {
                    assert(out[k] == CUSTOM_BASE64_ALPHABET@[(((b1 & 0x0fu8) << 2u8) | (b2 >> 6u8)) as int]);
                }
            } else if k == 3 {
                if data.len() > 2 {
                    assert(out[k] == CUSTOM_BASE64_ALPHABET@[(b2 & 0x3fu8) as int]);
                }
            } else {
                assert(out[k] == custom_base64(data.skip(3))[k - 4]);
            }
        }
    }
}

/// Encodes `data` in Base64 over the portal's alphabet, padding the last group with `=`.
pub fn custom_base64_encode(data: &[u8]) -> (res: String)
    ensures
        res@ == custom_base64(data@),
        res@.len() == 4 * ((data@.len() + 2) / 3),
{
    proof {
        lemma_custom_base64_len(data@);
    }
    let mut res = String::new();
    let mut i: usize = 0;
    let len = data.len();
    assert(data@.skip(0) =~= data@);
    while i < len
        invariant
            len == data@.len(),
            i <= len,
            custom_base64(data@) == res@ + custom_base64(data@.skip(i as int)),
        decreases len - i,
    {
        let ghost rest = data@.skip(i as int);
        let b0 = data[i];
        let b1 = if len - i > 1 {
            data[i + 1]
        } else {
            0
        };
        let b2 = if len - i > 2 {
            data[i + 2]
        } else {
            0
        };
        proof {
            lemma_sextets_below_64(b0, b1, b2);
            assert(b1 == byte_or_zero(rest, 1));
            assert(b2 == byte_or_zero(rest, 2));
        }
        let ghost before = res@;
        push_char(&mut res, CUSTOM_BASE64_ALPHABET[(b0 >> 2u8) as usize]);
        push_char(&mut res, CUSTOM_BASE64_ALPHABET[(((b0 & 3u8) << 4u8) | (b1 >> 4u8)) as usize]);
        if len - i > 1 {
            push_char(&mut res, CUSTOM_BASE64_ALPHABET[(((b1 & 0x0fu8) << 2u8) | (b2 >> 6u8)) as usize]);
        } else {
            push_char(&mut res, '=');
        }
        if len - i > 2 {
            push_char(&mut res, CUSTOM_BASE64_ALPHABET[(b2 & 0x3fu8) as usize]);
        } else {
            push_char(&mut res, '=');
        }
        assert(res@ =~= before + encode_group(b0, b1, b2, rest.len()));
        if len - i > 3 {
            assert(rest.skip(3) =~= data@.skip(i + 3));
            i = i + 3;
        } else {
            assert(data@.skip(len as int) =~= Seq::<u8>::empty());
            i = len;
        }
    }
    res
}

/// The 6-bit value of a letter of the alphabet; 64 for any other character.
pub open spec fn sextet_value(c: char) -> u8 {
    if c == 'L' {
        0u8
    } else if c == 'V' {
        1u8
    } else if c == 'o' {
        2u8
    } else if c == 'J' {
        3u8
    } else if c == 'P' {
        4u8
    } else if c == 'i' {
        5u8
    } else if c == 'C' {
        6u8
    } else if c == 'N' {
        7u8
    } else if c == '2' {
        8u8
    } else if c == 'R' {
        9u8
    } else if c == '8' {
        10u8
    } else if c == 'G' {
        11u8
    } else if c == '9' {
        12u8
    } else if c == '0' {
        13u8
    } else if c == 'y' {
        14u8
    } else if c == 'g' {
        15u8
    } else if c == '+' {
        16u8
    } else if c == 'h' {
        17u8
    } else if c == 'm' {
        18u8
    } else if c == 'F' {
        19u8
    } else if c == 'H' {
        20u8
    } else if c == 'u' {
        21u8
    } else if c == 'a' {
        22u8
    } else if c == 'c' {
        23u8
    } else if c == 'Z' {
        24u8
    } else if c == '1' {
        25u8
    } else if c == 'O' {
        26u8
    } else if c == 'W' {
        27u8
    } else if c == 'M' {
        28u8
    } else if c == 'n' {
        29u8
    } else if c == 'r' {
        30u8
    } else if c == 's' {
        31u8
    } else if c == 'S' {
        32u8
    } else if c == 'T' {
        33u8
    } else if c == 'X' {
        34u8
    } else if c == 'k' {
        35u8
    } else if c == 'Y' {
        36u8
    } else if c == 'p' {
        37u8
    } else if c == 'U' {
        38u8
    } else if c == 'q' {
        39u8
    } else if c == '/' {
        40u8
    } else if c == '3' {
        41u8
    } else if c == 'd' {
        42u8
    } else if c == 'l' {
        43u8
    } else if c == 'b' {
        44u8
    } else if c == 'f' {
        45u8
    } else if c == 'K' {
        46u8
    } else if c == 'w' {
        47u8
    } else if c == 'v' {
        48u8
    } else if c == '6' {
        49u8
    } else if c == 'x' {
        50u8
    } else if c == 'z' {
        51u8
    } else if c == 't' {
        52u8
    } else if c == 'j' {
        53u8
    } else if c == 'I' {
        54u8
    } else if c == '7' {
        55u8
    } else if c == 'D' {
        56u8
    } else if c == 'e' {
        57u8
    } else if c == 'B' {
        58u8
    } else if c == 'E' {
        59u8
    } else if c == '4' {
        60u8
    } else if c == '5' {
        61u8
    } else if c == 'Q' {
        62u8
    } else if c == 'A' {
        63u8
    } else {
        64u8
    }
}

/// The bytes of one group of four characters; a `=` third character leaves one byte, a
/// `=` fourth character two.
pub open spec fn decode_group(c0: char, c1: char, c2: char, c3: char) -> Seq<u8> {
    let v0 = sextet_value(c0);
    let v1 = sextet_value(c1);
    let v2 = sextet_value(c2);
    let v3 = sextet_value(c3);
    let b0 = (v0 << 2u8) | (v1 >> 4u8);
    let b1 = (v1 << 4u8) | (v2 >> 2u8);
    let b2 = (v2 << 6u8) | v3;
    if c2 == '=' {
        seq![b0]
    } else if c3 == '=' {
        seq![b0, b1]
    } else {
        seq![b0, b1, b2]
    }
}

/// Decoding over the portal's alphabet, four characters at a time.
pub open spec fn custom_base64_decode(s: Seq<char>) -> Seq<u8>
    decreases s.len(),
{
    if s.len() < 4 {
        Seq::empty()
    } else {
        decode_group(s[0], s[1], s[2], s[3]) + custom_base64_decode(s.skip(4))
    }
}

proof fn lemma_sextet_value(x: u8)
    requires
        x < 64,
    ensures
        sextet_value(sextet_char(x)) == x,
        sextet_char(x) != '=',
{
    if x == 0 {
        assert(CUSTOM_BASE64_ALPHABET@[0] == 'L');
    } else if x == 1 {
        assert(CUSTOM_BASE64_ALPHABET@[1] == 'V');
    } else if x == 2 {
        assert(CUSTOM_BASE64_ALPHABET@[2] == 'o');
    } else if x == 3 {
        assert(CUSTOM_BASE64_ALPHABET@[3] == 'J');
    } else if x == 4 {
        assert(CUSTOM_BASE64_ALPHABET@[4] == 'P');
    } else if x == 5 {
        assert(CUSTOM_BASE64_ALPHABET@[5] == 'i');
    } else if x == 6 {
        assert(CUSTOM_BASE64_ALPHABET@[6] == 'C');
    } else if x == 7 {
        assert(CUSTOM_BASE64_ALPHABET@[7] == 'N');
    } else if x == 8 {
        assert(CUSTOM_BASE64_ALPHABET@[8] == '2');
    } else if x == 9 {
        assert(CUSTOM_BASE64_ALPHABET@[9] == 'R');
    } else if x == 10 {
        assert(CUSTOM_BASE64_ALPHABET@[10] == '8');
    } else if x == 11 {
        assert(CUSTOM_BASE64_ALPHABET@[11] == 'G');
    } else if x == 12 {
        assert(CUSTOM_BASE64_ALPHABET@[12] == '9');
    } else if x == 13 {
        assert(CUSTOM_BASE64_ALPHABET@[13] == '0');
    } else if x == 14 {
        assert(CUSTOM_BASE64_ALPHABET@[14] == 'y');
    } else if x == 15 {
        assert(CUSTOM_BASE64_ALPHABET@[15] == 'g');
    } else if x == 16 {
        assert(CUSTOM_BASE64_ALPHABET@[16] == '+');
    } else if x == 17 {
        assert(CUSTOM_BASE64_ALPHABET@[17] == 'h');
    } else if x == 18 {
        assert(CUSTOM_BASE64_ALPHABET@[18] == 'm');
    } else if x == 19 {
        assert(CUSTOM_BASE64_ALPHABET@[19] == 'F');
    } else if x == 20 {
        assert(CUSTOM_BASE64_ALPHABET@[20] == 'H');
    } else if x == 21 {
        assert(CUSTOM_BASE64_ALPHABET@[21] == 'u');
    } else if x == 22 {
        assert(CUSTOM_BASE64_ALPHABET@[22] == 'a');
    } else if x == 23 {
        assert(CUSTOM_BASE64_ALPHABET@[23] == 'c');
    } else if x == 24 {
        assert(CUSTOM_BASE64_ALPHABET@[24] == 'Z');
    } else if x == 25 {
        assert(CUSTOM_BASE64_ALPHABET@[25] == '1');
    } else if x == 26 {
        assert(CUSTOM_BASE64_ALPHABET@[26] == 'O');
    } else if x == 27 {
        assert(CUSTOM_BASE64_ALPHABET@[27] == 'W');
    } else if x == 28 {
        assert(CUSTOM_BASE64_ALPHABET@[28] == 'M');
    } else if x == 29 {
        assert(CUSTOM_BASE64_ALPHABET@[29] == 'n');
    } else if x == 30 {
        assert(CUSTOM_BASE64_ALPHABET@[30] == 'r');
    } else if x == 31 {
        assert(CUSTOM_BASE64_ALPHABET@[31] == 's');
    } else if x == 32 {
        assert(CUSTOM_BASE64_ALPHABET@[32] == 'S');
    } else if x == 33 {
        assert(CUSTOM_BASE64_ALPHABET@[33] == 'T');
    } else if x == 34 {
        assert(CUSTOM_BASE64_ALPHABET@[34] == 'X');
    } else if x == 35 {
        assert(CUSTOM_BASE64_ALPHABET@[35] == 'k');
    } else if x == 36 {
        assert(CUSTOM_BASE64_ALPHABET@[36] == 'Y');
    } else if x == 37 {
        assert(CUSTOM_BASE64_ALPHABET@[37] == 'p');
    } else if x == 38 {
        assert(CUSTOM_BASE64_ALPHABET@[38] == 'U');
    } else if x == 39 {
        assert(CUSTOM_BASE64_ALPHABET@[39] == 'q');
    } else if x == 40 {
        assert(CUSTOM_BASE64_ALPHABET@[40] == '/');
    } else if x == 41 {
        assert(CUSTOM_BASE64_ALPHABET@[41] == '3');
    } else if x == 42 {
        assert(CUSTOM_BASE64_ALPHABET@[42] == 'd');
    } else if x == 43 {
        assert(CUSTOM_BASE64_ALPHABET@[43] == 'l');
    } else if x == 44 {
        assert(CUSTOM_BASE64_ALPHABET@[44] == 'b');
    } else if x == 45 {
        assert(CUSTOM_BASE64_ALPHABET@[45] == 'f');
    } else if x == 46 {
        assert(CUSTOM_BASE64_ALPHABET@[46] == 'K');
    } else if x == 47 {
        assert(CUSTOM_BASE64_ALPHABET@[47] == 'w');
    } else if x == 48 {
        assert(CUSTOM_BASE64_ALPHABET@[48] == 'v');
    } else if x == 49 {
        assert(CUSTOM_BASE64_ALPHABET@[49] == '6');
    } else if x == 50 {
        assert(CUSTOM_BASE64_ALPHABET@[50] == 'x');
    } else if x == 51 {
        assert(CUSTOM_BASE64_ALPHABET@[51] == 'z');
    } else if x == 52 {
        assert(CUSTOM_BASE64_ALPHABET@[52] == 't');
    } else if x == 53 {
        assert(CUSTOM_BASE64_ALPHABET@[53] == 'j');
    } else if x == 54 {
        assert(CUSTOM_BASE64_ALPHABET@[54] == 'I');
    } else if x == 55 {
        assert(CUSTOM_BASE64_ALPHABET@[55] == '7');
    } else if x == 56 {
        assert(CUSTOM_BASE64_ALPHABET@[56] == 'D');
    } else if x == 57 {
        assert(CUSTOM_BASE64_ALPHABET@[57] == 'e');
    } else if x == 58 {
        assert(CUSTOM_BASE64_ALPHABET@[58] == 'B');
    } else if x == 59 {
        assert(CUSTOM_BASE64_ALPHABET@[59] == 'E');
    } else if x == 60 {
        assert(CUSTOM_BASE64_ALPHABET@[60] == '4');
    } else if x == 61 {
        assert(CUSTOM_BASE64_ALPHABET@[61] == '5');
    } else if x == 62 {
        assert(CUSTOM_BASE64_ALPHABET@[62] == 'Q');
    } else if x == 63 {
        assert(CUSTOM_BASE64_ALPHABET@[63] == 'A');
    }
}

proof fn lemma_group_roundtrip(b0: u8, b1: u8, b2: u8)
    ensures
        ((b0 >> 2u8) << 2u8) | ((((b0 & 3u8) << 4u8) | (b1 >> 4u8)) >> 4u8) == b0,
        ((((b0 & 3u8) << 4u8) | (b1 >> 4u8)) << 4u8) | ((((b1 & 0x0fu8) << 2u8) | (b2 >> 6u8))
            >> 2u8) == b1,
        ((((b1 & 0x0fu8) << 2u8) | (b2 >> 6u8)) << 6u8) | (b2 & 0x3fu8) == b2,
{
    assert(((b0 >> 2u8) << 2u8) | ((((b0 & 3u8) << 4u8) | (b1 >> 4u8)) >> 4u8) == b0)
        by (bit_vector);
    assert(((((b0 & 3u8) << 4u8) | (b1 >> 4u8)) << 4u8) | ((((b1 & 0x0fu8) << 2u8) | (b2
        >> 6u8)) >> 2u8) == b1) by (bit_vector);
    assert(((((b1 & 0x0fu8) << 2u8) | (b2 >> 6u8)) << 6u8) | (b2 & 0x3fu8) == b2)
        by (bit_vector);
}

/// Decoding the encoding of `data` gives `data` back: the portal can read what the
/// client sends.
pub proof fn lemma_custom_base64_roundtrip(data: Seq<u8>)
    ensures
        custom_base64_decode(custom_base64(data)) == data,
    decreases data.len(),
{
    if data.len() > 0 {
        let b0 = data[0];
        let b1 = byte_or_zero(data, 1);
        let b2 = byte_or_zero(data, 2);
        let x0 = b0 >> 2u8;
        let x1 = ((b0 & 3u8) << 4u8) | (b1 >> 4u8);
        let x2 = ((b1 & 0x0fu8) << 2u8) | (b2 >> 6u8);
        let x3 = b2 & 0x3fu8;
        lemma_sextets_below_64(b0, b1, b2);
        lemma_sextet_value(x0);
        lemma_sextet_value(x1);
        lemma_sextet_value(x2);
        lemma_sextet_value(x3);
        lemma_group_roundtrip(b0, b1, b2);
        let enc = custom_base64(data);
        let g = encode_group(b0, b1, b2, data.len());
        let rest = if data.len() <= 3 {
            Seq::<char>::empty()
        } else {
            custom_base64(data.skip(3))
        };
        assert(enc == g + rest);
        assert(enc.skip(4) =~= rest);
        assert(enc[0] == g[0] && enc[1] == g[1] && enc[2] == g[2] && enc[3] == g[3]);
        if data.len() > 3 {
            lemma_custom_base64_roundtrip(data.skip(3));
            assert(data =~= seq![b0, b1, b2] + data.skip(3));
        } else {
            assert(custom_base64_decode(rest) =~= Seq::<u8>::empty());
            if data.len() == 1 {
                assert(data =~= seq![b0]);
            } else if data.len() == 2 {
                assert(data =~= seq![b0, b1]);
            } else {
                assert(data =~= seq![b0, b1, b2]);
            }
        }
    }
}

} // verus!
