//! The HPACK Huffman code and a bit-level decoder for it that can be fed in
//! pieces, plus the generator of the byte-at-a-time lookup table.
use vstd::prelude::*;
use crate::http1::append_bytes;
use crate::text::{
    ascii_chars, ascii_string, bin_bytes, bin_digits, dec_digits, decimal_bytes, hex_bytes, hex_digits,
    is_ascii_bytes, lemma_ascii_concat, lemma_digits_ascii,
};

verus! {

/// The number of symbols: the 256 byte values and end-of-string.
pub const HUFFMAN_SYMBOLS: u16 = 257;

/// The end-of-string symbol.
pub const EOS_SYMBOL: u16 = 256;

/// The code of each symbol as (bits, length); the bits are right-aligned.
pub open spec fn huffman_code(sym: u16) -> (u32, u8) {
    match sym {
        0 => (0x1ff8u32, 13u8),
        1 => (0x7fffd8u32, 23u8),
        2 => (0xfffffe2u32, 28u8),
        3 => (0xfffffe3u32, 28u8),
        4 => (0xfffffe4u32, 28u8),
        5 => (0xfffffe5u32, 28u8),
        6 => (0xfffffe6u32, 28u8),
        7 => (0xfffffe7u32, 28u8),
        8 => (0xfffffe8u32, 28u8),
        9 => (0xffffeau32, 24u8),
        10 => (0x3ffffffcu32, 30u8),
        11 => (0xfffffe9u32, 28u8),
        12 => (0xfffffeau32, 28u8),
        13 => (0x3ffffffdu32, 30u8),
        14 => (0xfffffebu32, 28u8),
        15 => (0xfffffecu32, 28u8),
        16 => (0xfffffedu32, 28u8),
        17 => (0xfffffeeu32, 28u8),
        18 => (0xfffffefu32, 28u8),
        19 => (0xffffff0u32, 28u8),
        20 => (0xffffff1u32, 28u8),
        21 => (0xffffff2u32, 28u8),
        22 => (0x3ffffffeu32, 30u8),
        23 => (0xffffff3u32, 28u8),
        24 => (0xffffff4u32, 28u8),
        25 => (0xffffff5u32, 28u8),
        26 => (0xffffff6u32, 28u8),
        27 => (0xffffff7u32, 28u8),
        28 => (0xffffff8u32, 28u8),
        29 => (0xffffff9u32, 28u8),
        30 => (0xffffffau32, 28u8),
        31 => (0xffffffbu32, 28u8),
        32 => (0x14u32, 6u8),
        33 => (0x3f8u32, 10u8),
        34 => (0x3f9u32, 10u8),
        35 => (0xffau32, 12u8),
        36 => (0x1ff9u32, 13u8),
        37 => (0x15u32, 6u8),
        38 => (0xf8u32, 8u8),
        39 => (0x7fau32, 11u8),
        40 => (0x3fau32, 10u8),
        41 => (0x3fbu32, 10u8),
        42 => (0xf9u32, 8u8),
        43 => (0x7fbu32, 11u8),
        44 => (0xfau32, 8u8),
        45 => (0x16u32, 6u8),
        46 => (0x17u32, 6u8),
        47 => (0x18u32, 6u8),
        48 => (0x0u32, 5u8),
        49 => (0x1u32, 5u8),
        50 => (0x2u32, 5u8),
        51 => (0x19u32, 6u8),
        52 => (0x1au32, 6u8),
        53 => (0x1bu32, 6u8),
        54 => (0x1cu32, 6u8),
        55 => (0x1du32, 6u8),
        56 => (0x1eu32, 6u8),
        57 => (0x1fu32, 6u8),
        58 => (0x5cu32, 7u8),
        59 => (0xfbu32, 8u8),
        60 => (0x7ffcu32, 15u8),
        61 => (0x20u32, 6u8),
        62 => (0xffbu32, 12u8),
        63 => (0x3fcu32, 10u8),
        64 => (0x1ffau32, 13u8),
        65 => (0x21u32, 6u8),
        66 => (0x5du32, 7u8),
        67 => (0x5eu32, 7u8),
        68 => (0x5fu32, 7u8),
        69 => (0x60u32, 7u8),
        70 => (0x61u32, 7u8),
        71 => (0x62u32, 7u8),
        72 => (0x63u32, 7u8),
        73 => (0x64u32, 7u8),
        74 => (0x65u32, 7u8),
        75 => (0x66u32, 7u8),
        76 => (0x67u32, 7u8),
        77 => (0x68u32, 7u8),
        78 => (0x69u32, 7u8),
        79 => (0x6au32, 7u8),
        80 => (0x6bu32, 7u8),
        81 => (0x6cu32, 7u8),
        82 => (0x6du32, 7u8),
        83 => (0x6eu32, 7u8),
        84 => (0x6fu32, 7u8),
        85 => (0x70u32, 7u8),
        86 => (0x71u32, 7u8),
        87 => (0x72u32, 7u8),
        88 => (0xfcu32, 8u8),
        89 => (0x73u32, 7u8),
        90 => (0xfdu32, 8u8),
        91 => (0x1ffbu32, 13u8),
        92 => (0x7fff0u32, 19u8),
        93 => (0x1ffcu32, 13u8),
        94 => (0x3ffcu32, 14u8),
        95 => (0x22u32, 6u8),
        96 => (0x7ffdu32, 15u8),
        97 => (0x3u32, 5u8),
        98 => (0x23u32, 6u8),
        99 => (0x4u32, 5u8),
        100 => (0x24u32, 6u8),
        101 => (0x5u32, 5u8),
        102 => (0x25u32, 6u8),
        103 => (0x26u32, 6u8),
        104 => (0x27u32, 6u8),
        105 => (0x6u32, 5u8),
        106 => (0x74u32, 7u8),
        107 => (0x75u32, 7u8),
        108 => (0x28u32, 6u8),
        109 => (0x29u32, 6u8),
        110 => (0x2au32, 6u8),
        111 => (0x7u32, 5u8),
        112 => (0x2bu32, 6u8),
        113 => (0x76u32, 7u8),
        114 => (0x2cu32, 6u8),
        115 => (0x8u32, 5u8),
        116 => (0x9u32, 5u8),
        117 => (0x2du32, 6u8),
        118 => (0x77u32, 7u8),
        119 => (0x78u32, 7u8),
        120 => (0x79u32, 7u8),
        121 => (0x7au32, 7u8),
        122 => (0x7bu32, 7u8),
        123 => (0x7ffeu32, 15u8),
        124 => (0x7fcu32, 11u8),
        125 => (0x3ffdu32, 14u8),
        126 => (0x1ffdu32, 13u8),
        127 => (0xffffffcu32, 28u8),
        128 => (0xfffe6u32, 20u8),
        129 => (0x3fffd2u32, 22u8),
        130 => (0xfffe7u32, 20u8),
        131 => (0xfffe8u32, 20u8),
        132 => (0x3fffd3u32, 22u8),
        133 => (0x3fffd4u32, 22u8),
        134 => (0x3fffd5u32, 22u8),
        135 => (0x7fffd9u32, 23u8),
        136 => (0x3fffd6u32, 22u8),
        137 => (0x7fffdau32, 23u8),
        138 => (0x7fffdbu32, 23u8),
        139 => (0x7fffdcu32, 23u8),
        140 => (0x7fffddu32, 23u8),
        141 => (0x7fffdeu32, 23u8),
        142 => (0xffffebu32, 24u8),
        143 => (0x7fffdfu32, 23u8),
        144 => (0xffffecu32, 24u8),
        145 => (0xffffedu32, 24u8),
        146 => (0x3fffd7u32, 22u8),
        147 => (0x7fffe0u32, 23u8),
        148 => (0xffffeeu32, 24u8),
        149 => (0x7fffe1u32, 23u8),
        150 => (0x7fffe2u32, 23u8),
        151 => (0x7fffe3u32, 23u8),
        152 => (0x7fffe4u32, 23u8),
        153 => (0x1fffdcu32, 21u8),
        154 => (0x3fffd8u32, 22u8),
        155 => (0x7fffe5u32, 23u8),
        156 => (0x3fffd9u32, 22u8),
        157 => (0x7fffe6u32, 23u8),
        158 => (0x7fffe7u32, 23u8),
        159 => (0xffffefu32, 24u8),
        160 => (0x3fffdau32, 22u8),
        161 => (0x1fffddu32, 21u8),
        162 => (0xfffe9u32, 20u8),
        163 => (0x3fffdbu32, 22u8),
        164 => (0x3fffdcu32, 22u8),
        165 => (0x7fffe8u32, 23u8),
        166 => (0x7fffe9u32, 23u8),
        167 => (0x1fffdeu32, 21u8),
        168 => (0x7fffeau32, 23u8),
        169 => (0x3fffddu32, 22u8),
        170 => (0x3fffdeu32, 22u8),
        171 => (0xfffff0u32, 24u8),
        172 => (0x1fffdfu32, 21u8),
        173 => (0x3fffdfu32, 22u8),
        174 => (0x7fffebu32, 23u8),
        175 => (0x7fffecu32, 23u8),
        176 => (0x1fffe0u32, 21u8),
        177 => (0x1fffe1u32, 21u8),
        178 => (0x3fffe0u32, 22u8),
        179 => (0x1fffe2u32, 21u8),
        180 => (0x7fffedu32, 23u8),
        181 => (0x3fffe1u32, 22u8),
        182 => (0x7fffeeu32, 23u8),
        183 => (0x7fffefu32, 23u8),
        184 => (0xfffeau32, 20u8),
        185 => (0x3fffe2u32, 22u8),
        186 => (0x3fffe3u32, 22u8),
        187 => (0x3fffe4u32, 22u8),
        188 => (0x7ffff0u32, 23u8),
        189 => (0x3fffe5u32, 22u8),
        190 => (0x3fffe6u32, 22u8),
        191 => (0x7ffff1u32, 23u8),
        192 => (0x3ffffe0u32, 26u8),
        193 => (0x3ffffe1u32, 26u8),
        194 => (0xfffebu32, 20u8),
        195 => (0x7fff1u32, 19u8),
        196 => (0x3fffe7u32, 22u8),
        197 => (0x7ffff2u32, 23u8),
        198 => (0x3fffe8u32, 22u8),
        199 => (0x1ffffecu32, 25u8),
        200 => (0x3ffffe2u32, 26u8),
        201 => (0x3ffffe3u32, 26u8),
        202 => (0x3ffffe4u32, 26u8),
        203 => (0x7ffffdeu32, 27u8),
        204 => (0x7ffffdfu32, 27u8),
        205 => (0x3ffffe5u32, 26u8),
        206 => (0xfffff1u32, 24u8),
        207 => (0x1ffffedu32, 25u8),
        208 => (0x7fff2u32, 19u8),
        209 => (0x1fffe3u32, 21u8),
        210 => (0x3ffffe6u32, 26u8),
        211 => (0x7ffffe0u32, 27u8),
        212 => (0x7ffffe1u32, 27u8),
        213 => (0x3ffffe7u32, 26u8),
        214 => (0x7ffffe2u32, 27u8),
        215 => (0xfffff2u32, 24u8),
        216 => (0x1fffe4u32, 21u8),
        217 => (0x1fffe5u32, 21u8),
        218 => (0x3ffffe8u32, 26u8),
        219 => (0x3ffffe9u32, 26u8),
        220 => (0xffffffdu32, 28u8),
        221 => (0x7ffffe3u32, 27u8),
        222 => (0x7ffffe4u32, 27u8),
        223 => (0x7ffffe5u32, 27u8),
        224 => (0xfffecu32, 20u8),
        225 => (0xfffff3u32, 24u8),
        226 => (0xfffedu32, 20u8),
        227 => (0x1fffe6u32, 21u8),
        228 => (0x3fffe9u32, 22u8),
        229 => (0x1fffe7u32, 21u8),
        230 => (0x1fffe8u32, 21u8),
        231 => (0x7ffff3u32, 23u8),
        232 => (0x3fffeau32, 22u8),
        233 => (0x3fffebu32, 22u8),
        234 => (0x1ffffeeu32, 25u8),
        235 => (0x1ffffefu32, 25u8),
        236 => (0xfffff4u32, 24u8),
        237 => (0xfffff5u32, 24u8),
        238 => (0x3ffffeau32, 26u8),
        239 => (0x7ffff4u32, 23u8),
        240 => (0x3ffffebu32, 26u8),
        241 => (0x7ffffe6u32, 27u8),
        242 => (0x3ffffecu32, 26u8),
        243 => (0x3ffffedu32, 26u8),
        244 => (0x7ffffe7u32, 27u8),
        245 => (0x7ffffe8u32, 27u8),
        246 => (0x7ffffe9u32, 27u8),
        247 => (0x7ffffeau32, 27u8),
        248 => (0x7ffffebu32, 27u8),
        249 => (0xffffffeu32, 28u8),
        250 => (0x7ffffecu32, 27u8),
        251 => (0x7ffffedu32, 27u8),
        252 => (0x7ffffeeu32, 27u8),
        253 => (0x7ffffefu32, 27u8),
        254 => (0x7fffff0u32, 27u8),
        255 => (0x3ffffeeu32, 26u8),
        _ => (0x3fffffffu32, 30u8),
    }
}

/// The code of one symbol.
pub fn huffman_code_of(sym: u16) -> (r: (u32, u8))
    requires
        sym < 257,
    ensures
        r == huffman_code(sym),
{
    match sym {
        0 => (0x1ff8u32, 13u8),
        1 => (0x7fffd8u32, 23u8),
        2 => (0xfffffe2u32, 28u8),
        3 => (0xfffffe3u32, 28u8),
        4 => (0xfffffe4u32, 28u8),
        5 => (0xfffffe5u32, 28u8),
        6 => (0xfffffe6u32, 28u8),
        7 => (0xfffffe7u32, 28u8),
        8 => (0xfffffe8u32, 28u8),
        9 => (0xffffeau32, 24u8),
        10 => (0x3ffffffcu32, 30u8),
        11 => (0xfffffe9u32, 28u8),
        12 => (0xfffffeau32, 28u8),
        13 => (0x3ffffffdu32, 30u8),
        14 => (0xfffffebu32, 28u8),
        15 => (0xfffffecu32, 28u8),
        16 => (0xfffffedu32, 28u8),
        17 => (0xfffffeeu32, 28u8),
        18 => (0xfffffefu32, 28u8),
        19 => (0xffffff0u32, 28u8),
        20 => (0xffffff1u32, 28u8),
        21 => (0xffffff2u32, 28u8),
        22 => (0x3ffffffeu32, 30u8),
        23 => (0xffffff3u32, 28u8),
        24 => (0xffffff4u32, 28u8),
        25 => (0xffffff5u32, 28u8),
        26 => (0xffffff6u32, 28u8),
        27 => (0xffffff7u32, 28u8),
        28 => (0xffffff8u32, 28u8),
        29 => (0xffffff9u32, 28u8),
        30 => (0xffffffau32, 28u8),
        31 => (0xffffffbu32, 28u8),
        32 => (0x14u32, 6u8),
        33 => (0x3f8u32, 10u8),
        34 => (0x3f9u32, 10u8),
        35 => (0xffau32, 12u8),
        36 => (0x1ff9u32, 13u8),
        37 => (0x15u32, 6u8),
        38 => (0xf8u32, 8u8),
        39 => (0x7fau32, 11u8),
        40 => (0x3fau32, 10u8),
        41 => (0x3fbu32, 10u8),
        42 => (0xf9u32, 8u8),
        43 => (0x7fbu32, 11u8),
        44 => (0xfau32, 8u8),
        45 => (0x16u32, 6u8),
        46 => (0x17u32, 6u8),
        47 => (0x18u32, 6u8),
        48 => (0x0u32, 5u8),
        49 => (0x1u32, 5u8),
        50 => (0x2u32, 5u8),
        51 => (0x19u32, 6u8),
        52 => (0x1au32, 6u8),
        53 => (0x1bu32, 6u8),
        54 => (0x1cu32, 6u8),
        55 => (0x1du32, 6u8),
        56 => (0x1eu32, 6u8),
        57 => (0x1fu32, 6u8),
        58 => (0x5cu32, 7u8),
        59 => (0xfbu32, 8u8),
        60 => (0x7ffcu32, 15u8),
        61 => (0x20u32, 6u8),
        62 => (0xffbu32, 12u8),
        63 => (0x3fcu32, 10u8),
        64 => (0x1ffau32, 13u8),
        65 => (0x21u32, 6u8),
        66 => (0x5du32, 7u8),
        67 => (0x5eu32, 7u8),
        68 => (0x5fu32, 7u8),
        69 => (0x60u32, 7u8),
        70 => (0x61u32, 7u8),
        71 => (0x62u32, 7u8),
        72 => (0x63u32, 7u8),
        73 => (0x64u32, 7u8),
        74 => (0x65u32, 7u8),
        75 => (0x66u32, 7u8),
        76 => (0x67u32, 7u8),
        77 => (0x68u32, 7u8),
        78 => (0x69u32, 7u8),
        79 => (0x6au32, 7u8),
        80 => (0x6bu32, 7u8),
        81 => (0x6cu32, 7u8),
        82 => (0x6du32, 7u8),
        83 => (0x6eu32, 7u8),
        84 => (0x6fu32, 7u8),
        85 => (0x70u32, 7u8),
        86 => (0x71u32, 7u8),
        87 => (0x72u32, 7u8),
        88 => (0xfcu32, 8u8),
        89 => (0x73u32, 7u8),
        90 => (0xfdu32, 8u8),
        91 => (0x1ffbu32, 13u8),
        92 => (0x7fff0u32, 19u8),
        93 => (0x1ffcu32, 13u8),
        94 => (0x3ffcu32, 14u8),
        95 => (0x22u32, 6u8),
        96 => (0x7ffdu32, 15u8),
        97 => (0x3u32, 5u8),
        98 => (0x23u32, 6u8),
        99 => (0x4u32, 5u8),
        100 => (0x24u32, 6u8),
        101 => (0x5u32, 5u8),
        102 => (0x25u32, 6u8),
        103 => (0x26u32, 6u8),
        104 => (0x27u32, 6u8),
        105 => (0x6u32, 5u8),
        106 => (0x74u32, 7u8),
        107 => (0x75u32, 7u8),
        108 => (0x28u32, 6u8),
        109 => (0x29u32, 6u8),
        110 => (0x2au32, 6u8),
        111 => (0x7u32, 5u8),
        112 => (0x2bu32, 6u8),
        113 => (0x76u32, 7u8),
        114 => (0x2cu32, 6u8),
        115 => (0x8u32, 5u8),
        116 => (0x9u32, 5u8),
        117 => (0x2du32, 6u8),
        118 => (0x77u32, 7u8),
        119 => (0x78u32, 7u8),
        120 => (0x79u32, 7u8),
        121 => (0x7au32, 7u8),
        122 => (0x7bu32, 7u8),
        123 => (0x7ffeu32, 15u8),
        124 => (0x7fcu32, 11u8),
        125 => (0x3ffdu32, 14u8),
        126 => (0x1ffdu32, 13u8),
        127 => (0xffffffcu32, 28u8),
        128 => (0xfffe6u32, 20u8),
        129 => (0x3fffd2u32, 22u8),
        130 => (0xfffe7u32, 20u8),
        131 => (0xfffe8u32, 20u8),
        132 => (0x3fffd3u32, 22u8),
        133 => (0x3fffd4u32, 22u8),
        134 => (0x3fffd5u32, 22u8),
        135 => (0x7fffd9u32, 23u8),
        136 => (0x3fffd6u32, 22u8),
        137 => (0x7fffdau32, 23u8),
        138 => (0x7fffdbu32, 23u8),
        139 => (0x7fffdcu32, 23u8),
        140 => (0x7fffddu32, 23u8),
        141 => (0x7fffdeu32, 23u8),
        142 => (0xffffebu32, 24u8),
        143 => (0x7fffdfu32, 23u8),
        144 => (0xffffecu32, 24u8),
        145 => (0xffffedu32, 24u8),
        146 => (0x3fffd7u32, 22u8),
        147 => (0x7fffe0u32, 23u8),
        148 => (0xffffeeu32, 24u8),
        149 => (0x7fffe1u32, 23u8),
        150 => (0x7fffe2u32, 23u8),
        151 => (0x7fffe3u32, 23u8),
        152 => (0x7fffe4u32, 23u8),
        153 => (0x1fffdcu32, 21u8),
        154 => (0x3fffd8u32, 22u8),
        155 => (0x7fffe5u32, 23u8),
        156 => (0x3fffd9u32, 22u8),
        157 => (0x7fffe6u32, 23u8),
        158 => (0x7fffe7u32, 23u8),
        159 => (0xffffefu32, 24u8),
        160 => (0x3fffdau32, 22u8),
        161 => (0x1fffddu32, 21u8),
        162 => (0xfffe9u32, 20u8),
        163 => (0x3fffdbu32, 22u8),
        164 => (0x3fffdcu32, 22u8),
        165 => (0x7fffe8u32, 23u8),
        166 => (0x7fffe9u32, 23u8),
        167 => (0x1fffdeu32, 21u8),
        168 => (0x7fffeau32, 23u8),
        169 => (0x3fffddu32, 22u8),
        170 => (0x3fffdeu32, 22u8),
        171 => (0xfffff0u32, 24u8),
        172 => (0x1fffdfu32, 21u8),
        173 => (0x3fffdfu32, 22u8),
        174 => (0x7fffebu32, 23u8),
        175 => (0x7fffecu32, 23u8),
        176 => (0x1fffe0u32, 21u8),
        177 => (0x1fffe1u32, 21u8),
        178 => (0x3fffe0u32, 22u8),
        179 => (0x1fffe2u32, 21u8),
        180 => (0x7fffedu32, 23u8),
        181 => (0x3fffe1u32, 22u8),
        182 => (0x7fffeeu32, 23u8),
        183 => (0x7fffefu32, 23u8),
        184 => (0xfffeau32, 20u8),
        185 => (0x3fffe2u32, 22u8),
        186 => (0x3fffe3u32, 22u8),
        187 => (0x3fffe4u32, 22u8),
        188 => (0x7ffff0u32, 23u8),
        189 => (0x3fffe5u32, 22u8),
        190 => (0x3fffe6u32, 22u8),
        191 => (0x7ffff1u32, 23u8),
        192 => (0x3ffffe0u32, 26u8),
        193 => (0x3ffffe1u32, 26u8),
        194 => (0xfffebu32, 20u8),
        195 => (0x7fff1u32, 19u8),
        196 => (0x3fffe7u32, 22u8),
        197 => (0x7ffff2u32, 23u8),
        198 => (0x3fffe8u32, 22u8),
        199 => (0x1ffffecu32, 25u8),
        200 => (0x3ffffe2u32, 26u8),
        201 => (0x3ffffe3u32, 26u8),
        202 => (0x3ffffe4u32, 26u8),
        203 => (0x7ffffdeu32, 27u8),
        204 => (0x7ffffdfu32, 27u8),
        205 => (0x3ffffe5u32, 26u8),
        206 => (0xfffff1u32, 24u8),
        207 => (0x1ffffedu32, 25u8),
        208 => (0x7fff2u32, 19u8),
        209 => (0x1fffe3u32, 21u8),
        210 => (0x3ffffe6u32, 26u8),
        211 => (0x7ffffe0u32, 27u8),
        212 => (0x7ffffe1u32, 27u8),
        213 => (0x3ffffe7u32, 26u8),
        214 => (0x7ffffe2u32, 27u8),
        215 => (0xfffff2u32, 24u8),
        216 => (0x1fffe4u32, 21u8),
        217 => (0x1fffe5u32, 21u8),
        218 => (0x3ffffe8u32, 26u8),
        219 => (0x3ffffe9u32, 26u8),
        220 => (0xffffffdu32, 28u8),
        221 => (0x7ffffe3u32, 27u8),
        222 => (0x7ffffe4u32, 27u8),
        223 => (0x7ffffe5u32, 27u8),
        224 => (0xfffecu32, 20u8),
        225 => (0xfffff3u32, 24u8),
        226 => (0xfffedu32, 20u8),
        227 => (0x1fffe6u32, 21u8),
        228 => (0x3fffe9u32, 22u8),
        229 => (0x1fffe7u32, 21u8),
        230 => (0x1fffe8u32, 21u8),
        231 => (0x7ffff3u32, 23u8),
        232 => (0x3fffeau32, 22u8),
        233 => (0x3fffebu32, 22u8),
        234 => (0x1ffffeeu32, 25u8),
        235 => (0x1ffffefu32, 25u8),
        236 => (0xfffff4u32, 24u8),
        237 => (0xfffff5u32, 24u8),
        238 => (0x3ffffeau32, 26u8),
        239 => (0x7ffff4u32, 23u8),
        240 => (0x3ffffebu32, 26u8),
        241 => (0x7ffffe6u32, 27u8),
        242 => (0x3ffffecu32, 26u8),
        243 => (0x3ffffedu32, 26u8),
        244 => (0x7ffffe7u32, 27u8),
        245 => (0x7ffffe8u32, 27u8),
        246 => (0x7ffffe9u32, 27u8),
        247 => (0x7ffffeau32, 27u8),
        248 => (0x7ffffebu32, 27u8),
        249 => (0xffffffeu32, 28u8),
        250 => (0x7ffffecu32, 27u8),
        251 => (0x7ffffedu32, 27u8),
        252 => (0x7ffffeeu32, 27u8),
        253 => (0x7ffffefu32, 27u8),
        254 => (0x7fffff0u32, 27u8),
        255 => (0x3ffffeeu32, 26u8),
        _ => (0x3fffffffu32, 30u8),
    }
}



/// One code of the table: the symbol (0-255 for bytes, 256 for
/// end-of-string), its bits right-aligned, and their number.
#[derive(Debug, Clone, Copy, PartialEq, Eq, Structural)]
pub struct RawHuffmanCode {
    pub symbol_id: u16,
    pub code: u32,
    pub bits: u8,
}

/// The code of symbol `sym`.
pub fn raw_code(sym: u16) -> (r: RawHuffmanCode)
    requires
        sym < 257,
    ensures
        r.symbol_id == sym,
        (r.code, r.bits) == huffman_code(sym),
{
    let (code, bits) = huffman_code_of(sym);
    RawHuffmanCode { symbol_id: sym, code, bits }
}

/// The first symbol numbered `i` or more whose code is the `len` bits `code`.
pub open spec fn symbol_from(code: u32, len: u8, i: int) -> Option<u16>
    decreases 257 - i,
{
    if i < 0 || i >= 257 {
        None
    } else if huffman_code(i as u16) == (code, len) {
        Some(i as u16)
    } else {
        symbol_from(code, len, i + 1)
    }
}

/// The symbol whose code is the `len` bits `code`, if there is one.
pub open spec fn symbol_of(code: u32, len: u8) -> Option<u16> {
    symbol_from(code, len, 0)
}

pub open spec fn p2(n: nat) -> nat
    decreases n,
{
    if n == 0 {
        1
    } else {
        2 * p2((n - 1) as nat)
    }
}

/// A decoder's state as plain values: the bits of the code read so far and
/// the bytes decoded so far.
pub struct HuffmanView {
    pub code: u32,
    pub len: u8,
    pub out: Seq<u8>,
}

pub open spec fn initial_state() -> HuffmanView {
    HuffmanView { code: 0, len: 0, out: seq![] }
}

/// Reads one bit. A completed code emits its symbol and starts a new code;
/// end-of-string as a symbol, or 30 bits that complete no code, fail.
pub open spec fn step_bit(st: HuffmanView, bit: u32) -> Option<HuffmanView> {
    let c = (st.code * 2 + bit) as u32;
    let l = (st.len + 1) as u8;
    match symbol_of(c, l) {
        Some(sym) => if sym == 256 {
            None
        } else {
            Some(HuffmanView { code: 0, len: 0, out: st.out.push(sym as u8) })
        },
        None => if l >= 30 {
            None
        } else {
            Some(HuffmanView { code: c, len: l, out: st.out })
        },
    }
}

/// Bit `j` of `b`, counting from the most significant.
pub open spec fn bit_of(b: u8, j: u8) -> u32 {
    ((b >> ((7 - j) as u8)) & 1u8) as u32
}

/// Reads bits `j..8` of `b`.
pub open spec fn feed_byte_from(st: HuffmanView, b: u8, j: u8) -> Option<HuffmanView>
    decreases 8 - j,
{
    if j >= 8 {
        Some(st)
    } else {
        match step_bit(st, bit_of(b, j)) {
            None => None,
            Some(t) => feed_byte_from(t, b, (j + 1) as u8),
        }
    }
}

/// Reads the bytes of `s` in order.
pub open spec fn feed_bytes(st: HuffmanView, s: Seq<u8>) -> Option<HuffmanView>
    decreases s.len(),
{
    if s.len() == 0 {
        Some(st)
    } else {
        match feed_bytes(st, s.drop_last()) {
            None => None,
            Some(t) => feed_byte_from(t, s.last(), 0),
        }
    }
}

pub open spec fn feed_opt(o: Option<HuffmanView>, s: Seq<u8>) -> Option<HuffmanView> {
    match o {
        None => None,
        Some(st) => feed_bytes(st, s),
    }
}

/// At the end of a string the pending bits must be fewer than eight and all ones.
pub open spec fn finish_state(st: HuffmanView) -> Option<Seq<u8>> {
    if st.len <= 7 && st.code == p2(st.len as nat) - 1 {
        Some(st.out)
    } else {
        None
    }
}

/// The bytes that the Huffman-coded string `s` decodes to, or `None` when
/// `s` is no valid coding.
pub open spec fn huffman_decoded(s: Seq<u8>) -> Option<Seq<u8>> {
    match feed_bytes(initial_state(), s) {
        None => None,
        Some(st) => finish_state(st),
    }
}

/// Decoding can stop at any byte boundary and go on later: reading `a` and
/// then `b` leaves the decoder where reading `a + b` at once does.
pub proof fn lemma_feed_split(st: HuffmanView, a: Seq<u8>, b: Seq<u8>)
    ensures
        feed_bytes(st, a + b) == feed_opt(feed_bytes(st, a), b),
    decreases b.len(),
{
    if b.len() == 0 {
        assert(a + b =~= a);
    } else {
        assert((a + b).drop_last() =~= a + b.drop_last());
        assert((a + b).last() == b.last());
        lemma_feed_split(st, a, b.drop_last());
    }
}

proof fn lemma_p2_30()
    ensures
        p2(30) == 1073741824,
{
    reveal_with_fuel(p2, 31);
}

proof fn lemma_p2_mono(a: nat, b: nat)
    requires
        a <= b,
    ensures
        p2(a) <= p2(b),
    decreases b,
{
    if a < b {
        lemma_p2_mono(a, (b - 1) as nat);
    }
}

/// Looks up the symbol whose code is the `len` bits `code`.
fn find_symbol(code: u32, len: u8) -> (r: Option<u16>)
    ensures
        r == symbol_of(code, len),
{
    let mut i: u16 = 0;
    while i < 257
        invariant
            i <= 257,
            symbol_of(code, len) == symbol_from(code, len, i as int),
        decreases 257 - i,
    {
        let (c, l) = huffman_code_of(i);
        if c == code && l == len {
            return Some(i);
        }
        i = i + 1;
    }
    None
}

/// A Huffman decoder that can be fed a string in pieces.
pub struct HuffmanDecoder {
    code: u32,
    len: u8,
    out: Vec<u8>,
    failed: bool,
}

impl View for HuffmanDecoder {
    type V = Option<HuffmanView>;

    closed spec fn view(&self) -> Option<HuffmanView> {
        if self.failed {
            None
        } else {
            Some(HuffmanView { code: self.code, len: self.len, out: self.out@ })
        }
    }
}

impl HuffmanDecoder {
    /// The pending code fits its length.
    pub closed spec fn wf(&self) -> bool {
        self.failed || (self.len < 30 && self.code < p2(self.len as nat))
    }

    pub fn new() -> (r: Self)
        ensures
            r@ == Some(initial_state()),
            r.wf(),
    {
        let r = HuffmanDecoder { code: 0, len: 0, out: Vec::new(), failed: false };
        assert(r.out@ =~= seq![]);
        r
    }

    fn step(&mut self, bit: u32)
        requires
            old(self).wf(),
            !old(self).failed,
            bit <= 1,
        ensures
            final(self).wf(),
            final(self)@ == step_bit(old(self)@.unwrap(), bit),
    {
        proof {
            lemma_p2_mono(self.len as nat, 29);
            lemma_p2_30();
        }
        let c = self.code * 2 + bit;
        let l = self.len + 1;
        match find_symbol(c, l) {
            Some(sym) => {
                if sym == 256 {
                    self.failed = true;
                } else {
                    self.out.push(sym as u8);
                    self.code = 0;
                    self.len = 0;
                }
            },
            None => {
                if l >= 30 {
                    self.failed = true;
                } else {
                    self.code = c;
                    self.len = l;
                }
            },
        }
    }

    /// Reads the bytes of `data`.
    pub fn feed(&mut self, data: &[u8])
        requires
            old(self).wf(),
        ensures
            final(self).wf(),
            final(self)@ == feed_opt(old(self)@, data@),
    {
        let mut i: usize = 0;
        assert(data@.take(0) =~= seq![]);
        while i < data.len()
            invariant
                i <= data@.len(),
                self.wf(),
                self@ == feed_opt(old(self)@, data@.take(i as int)),
            decreases data@.len() - i,
        {
            let b = data[i];
            let ghost start = self@;
            assert(data@.take(i as int + 1).drop_last() =~= data@.take(i as int));
            let mut j: u8 = 0;
            while j < 8
                invariant
                    j <= 8,
                    self.wf(),
                    match start {
                        None => self@ == None::<HuffmanView>,
                        Some(st) => feed_byte_from(st, b, 0) == match self@ {
                            None => None::<HuffmanView>,
                            Some(t) => feed_byte_from(t, b, j),
                        },
                    },
                decreases 8 - j,
            {
                if !self.failed {
                    let sh: u8 = 7 - j;
                    let t: u8 = (b >> sh) & 1u8;
                    assert(t <= 1u8) by (bit_vector)
                        requires
                            t == (b >> sh) & 1u8,
                    ;
                    let bit = t as u32;
                    self.step(bit);
                }
                j = j + 1;
            }
            i = i + 1;
        }
        assert(data@.take(data@.len() as int) =~= data@);
    }

    /// The decoded bytes, when the input so far ends a valid string.
    pub fn finish(&self) -> (r: Option<Vec<u8>>)
        ensures
            match r {
                Some(v) => self@ is Some && finish_state(self@.unwrap()) == Some(v@),
                None => self@ is None || finish_state(self@.unwrap()) is None,
            },
    {
        if self.failed || self.len > 7 {
            return None;
        }
        proof {
            lemma_shift_is_p2(self.len);
        }
        let ones: u32 = (1u32 << self.len) - 1;
        if self.code != ones {
            return None;
        }
        let mut v: Vec<u8> = Vec::new();
        let mut i: usize = 0;
        while i < self.out.len()
            invariant
                i <= self.out@.len(),
                v@ == self.out@.take(i as int),
            decreases self.out@.len() - i,
        {
            v.push(self.out[i]);
            i = i + 1;
            assert(v@ =~= self.out@.take(i as int));
        }
        assert(self.out@.take(self.out@.len() as int) =~= self.out@);
        Some(v)
    }
}

proof fn lemma_shift_is_p2(n: u8)
    requires
        n <= 7,
    ensures
        ((1u32 << n) - 1) as nat == p2(n as nat) - 1,
        (1u32 << n) >= 1,
{
    reveal_with_fuel(p2, 8);
    if n == 0 {
        assert((1u32 << 0u8) == 1) by (bit_vector);
    } else if n == 1 {
        assert((1u32 << 1u8) == 2) by (bit_vector);
    } else if n == 2 {
        assert((1u32 << 2u8) == 4) by (bit_vector);
    } else if n == 3 {
        assert((1u32 << 3u8) == 8) by (bit_vector);
    } else if n == 4 {
        assert((1u32 << 4u8) == 16) by (bit_vector);
    } else if n == 5 {
        assert((1u32 << 5u8) == 32) by (bit_vector);
    } else if n == 6 {
        assert((1u32 << 6u8) == 64) by (bit_vector);
    } else {
        assert((1u32 << 7u8) == 128) by (bit_vector);
    }
}

/// Decodes a whole Huffman-coded string.
pub fn huffman_decode(data: &[u8]) -> (r: Option<Vec<u8>>)
    ensures
        match r {
            Some(v) => huffman_decoded(data@) == Some(v@),
            None => huffman_decoded(data@) is None,
        },
{
    let mut d = HuffmanDecoder::new();
    d.feed(data);
    d.finish()
}


/// The bits of input read per lookup step.
pub const K_LOOKUP_BITS: usize = 8;

/// The most symbols one lookup entry reports.
pub const MAX_SYMBOLS_PER_LUT_ENTRY: usize = 2;

/// Next state: decode on from the root at the new bit position.
pub const STATE_CONTINUE_LUT: u16 = 0;

/// Next state: end-of-string was decoded.
pub const STATE_EOS_DECODED: u16 = 0xFFFE;

/// Next state: the input is no valid coding.
pub const STATE_ERROR: u16 = 0xFFFF;

/// One entry of the byte-at-a-time lookup table: the symbols that the eight
/// bits decode to from the root, how many bits those symbols take, and the
/// state to go on in.
#[derive(Debug, Clone, Copy)]
pub struct LutEntry {
    pub symbols: [u8; 2],
    pub num_decoded: u8,
    pub bits_consumed: u8,
    pub next_decoder_state_id: u16,
}

impl LutEntry {
    /// No symbols, no bits, the error state.
    pub fn default() -> (r: Self)
        ensures
            r.num_decoded == 0 && r.bits_consumed == 0 && r.next_decoder_state_id == STATE_ERROR,
            r.symbols@ == seq![0u8, 0u8],
    {
        let r = LutEntry { symbols: [0u8, 0u8], num_decoded: 0, bits_consumed: 0, next_decoder_state_id: STATE_ERROR };
        assert(r.symbols@ =~= seq![0u8, 0u8]);
        r
    }
}

/// The continuation state for a partial code of `len` bits: states are
/// numbered by the pending bits with a leading one, so they start at 2.
pub open spec fn partial_state_id(code: u32, len: u8) -> u16 {
    ((1u32 << len) | code) as u16
}

/// The progress of decoding a pattern: pending code bits, symbols found,
/// where the last symbol ended, and whether end-of-string was met.
pub struct PatternScan {
    pub code: u32,
    pub len: u8,
    pub syms: Seq<u16>,
    pub last_end: u8,
    pub eos: bool,
}

/// Reads bits `j..8` of `pattern` from the root, stopping at end-of-string
/// or after two symbols.
pub open spec fn scan_pattern(pattern: u8, j: u8, st: PatternScan) -> PatternScan
    decreases 8 - j,
{
    if j >= 8 || st.eos || st.syms.len() >= 2 {
        st
    } else {
        let c = (st.code * 2 + bit_of(pattern, j)) as u32;
        let l = (st.len + 1) as u8;
        match symbol_of(c, l) {
            Some(sym) => scan_pattern(
                pattern,
                (j + 1) as u8,
                PatternScan { code: 0, len: 0, syms: st.syms.push(sym), last_end: (j + 1) as u8, eos: sym == 256 },
            ),
            None => scan_pattern(pattern, (j + 1) as u8, PatternScan { code: c, len: l, ..st }),
        }
    }
}

/// The lookup entry of `pattern`.
pub open spec fn lut_entry_of(pattern: u8) -> (u16, u16, u8, u8, u16) {
    let st = scan_pattern(pattern, 0, PatternScan { code: 0, len: 0, syms: seq![], last_end: 0, eos: false });
    let s0 = if st.syms.len() > 0 { st.syms[0] } else { 0 };
    let s1 = if st.syms.len() > 1 { st.syms[1] } else { 0 };
    if st.eos {
        (s0, s1, st.syms.len() as u8, st.last_end, STATE_EOS_DECODED)
    } else if st.syms.len() > 0 {
        (s0, s1, st.syms.len() as u8, st.last_end, STATE_CONTINUE_LUT)
    } else {
        (0, 0, 0, 8, partial_state_id(st.code, st.len))
    }
}

/// `e` reports entry `lut_entry_of(pattern)` (symbols as bytes).
pub open spec fn entry_matches(e: LutEntry, pattern: u8) -> bool {
    let (s0, s1, n, bits, next) = lut_entry_of(pattern);
    e.symbols@ == seq![(s0 % 256) as u8, (s1 % 256) as u8] && e.num_decoded == n && e.bits_consumed == bits
        && e.next_decoder_state_id == next
}

proof fn lemma_scan_bounds(pattern: u8, j: u8, st: PatternScan)
    requires
        j <= 8,
        st.len <= j,
        st.code < p2(st.len as nat),
        st.syms.len() <= 2,
        st.last_end <= j,
    ensures
        scan_pattern(pattern, j, st).len <= 8,
        scan_pattern(pattern, j, st).code < p2(scan_pattern(pattern, j, st).len as nat),
        scan_pattern(pattern, j, st).syms.len() <= 2,
        scan_pattern(pattern, j, st).last_end <= 8,
    decreases 8 - j,
{
    if j >= 8 || st.eos || st.syms.len() >= 2 {
    } else {
        let c = (st.code * 2 + bit_of(pattern, j)) as u32;
        let l = (st.len + 1) as u8;
        lemma_p2_mono(st.len as nat, 8);
        reveal_with_fuel(p2, 10);
        assert(bit_of(pattern, j) <= 1) by {
            let sh: u8 = (7 - j) as u8;
            assert(((pattern >> sh) & 1u8) <= 1u8) by (bit_vector);
        }
        match symbol_of(c, l) {
            Some(sym) => {
                reveal_with_fuel(p2, 1);
                lemma_scan_bounds(
                    pattern,
                    (j + 1) as u8,
                    PatternScan { code: 0, len: 0, syms: st.syms.push(sym), last_end: (j + 1) as u8, eos: sym == 256 },
                );
            },
            None => {
                lemma_scan_bounds(pattern, (j + 1) as u8, PatternScan { code: c, len: l, ..st });
            },
        }
    }
}

/// Builds the lookup table of the Huffman code.
pub struct LutGenerator {}

impl LutGenerator {
    pub fn new() -> (r: Self) {
        LutGenerator {  }
    }

    /// The lookup entry of one 8-bit pattern.
    pub fn decode_pattern(&self, pattern: u8) -> (r: LutEntry)
        ensures
            entry_matches(r, pattern),
    {
        let mut code: u32 = 0;
        let mut len: u8 = 0;
        let mut syms: [u16; 2] = [0u16, 0u16];
        let mut n: usize = 0;
        let mut last_end: u8 = 0;
        let mut eos = false;
        let mut j: u8 = 0;
        let ghost init = PatternScan { code: 0, len: 0, syms: seq![], last_end: 0, eos: false };
        proof {
            reveal_with_fuel(p2, 1);
        }
        assert(syms@.take(0) =~= Seq::<u16>::empty());
        while j < 8 && !eos && n < 2
            invariant
                j <= 8,
                len <= j,
                code < p2(len as nat),
                n <= 2,
                last_end <= j,
                n == 0 ==> !eos,
                scan_pattern(pattern, 0, init) == scan_pattern(
                    pattern,
                    j,
                    PatternScan { code, len, syms: syms@.take(n as int), last_end, eos },
                ),
            decreases 8 - j,
        {
            let sh: u8 = 7 - j;
            let t: u8 = (pattern >> sh) & 1u8;
            assert(t <= 1u8) by (bit_vector)
                requires
                    t == (pattern >> sh) & 1u8,
            ;
            proof {
                lemma_p2_mono(len as nat, 8);
                reveal_with_fuel(p2, 10);
            }
            let c = code * 2 + t as u32;
            let l = len + 1;
            let ghost before = syms@.take(n as int);
            match find_symbol(c, l) {
                Some(sym) => {
                    syms[n] = sym;
                    assert(syms@.take(n as int + 1) =~= before.push(sym));
                    n = n + 1;
                    code = 0;
                    len = 0;
                    last_end = j + 1;
                    eos = sym == 256;
                },
                None => {
                    code = c;
                    len = l;
                },
            }
            j = j + 1;
        }
        proof {
            lemma_scan_bounds(pattern, j, PatternScan { code, len, syms: syms@.take(n as int), last_end, eos });
        }
        let s0: u16 = if n > 0 { syms[0] } else { 0 };
        let s1: u16 = if n > 1 { syms[1] } else { 0 };
        let r = if eos {
            LutEntry { symbols: [(s0 % 256) as u8, (s1 % 256) as u8], num_decoded: n as u8, bits_consumed: last_end, next_decoder_state_id: STATE_EOS_DECODED }
        } else if n > 0 {
            LutEntry { symbols: [(s0 % 256) as u8, (s1 % 256) as u8], num_decoded: n as u8, bits_consumed: last_end, next_decoder_state_id: STATE_CONTINUE_LUT }
        } else {
            assert(code < 256) by {
                reveal_with_fuel(p2, 10);
                lemma_p2_mono(len as nat, 8);
            }
            let id = (1u32 << len) | code;
            LutEntry { symbols: [0u8, 0u8], num_decoded: 0, bits_consumed: 8, next_decoder_state_id: id as u16 }
        };
        assert(r.symbols@ =~= seq![(s0 % 256) as u8, (s1 % 256) as u8] || r.symbols@ =~= seq![0u8, 0u8]);
        r
    }

    /// The 256 entries, one per pattern, in pattern order.
    pub fn generate_lut(&self) -> (r: Vec<LutEntry>)
        ensures
            r@.len() == 256,
            forall|p: int| 0 <= p < 256 ==> entry_matches(#[trigger] r@[p], p as u8),
    {
        let mut lut: Vec<LutEntry> = Vec::new();
        let mut p: u32 = 0;
        while p < 256
            invariant
                p <= 256,
                lut@.len() == p,
                forall|q: int| 0 <= q < p ==> entry_matches(#[trigger] lut@[q], q as u8),
            decreases 256 - p,
        {
            let e = self.decode_pattern(p as u8);
            lut.push(e);
            p = p + 1;
        }
        lut
    }
}

/// One entry is well shaped: at most two symbols and eight bits, and a
/// special state or a continuation state below 1000.
pub open spec fn entry_ok(e: LutEntry) -> bool {
    e.num_decoded <= 2 && e.bits_consumed <= 8 && (e.next_decoder_state_id == STATE_CONTINUE_LUT
        || e.next_decoder_state_id == STATE_EOS_DECODED || e.next_decoder_state_id == STATE_ERROR
        || e.next_decoder_state_id < 1000)
}

/// What `validate_lut` accepts: 256 well-shaped entries.
pub open spec fn lut_valid(lut: Seq<LutEntry>) -> bool {
    lut.len() == 256 && forall|i: int| 0 <= i < lut.len() ==> entry_ok(#[trigger] lut[i])
}

/// Checks the shape of a lookup table. The error is the table's length when
/// it is not 256, else the index of the first entry that is not well shaped.
pub fn validate_lut(lut: &[LutEntry]) -> (r: Result<(), usize>)
    ensures
        r is Ok <==> lut_valid(lut@),
        r is Err && lut@.len() != 256 ==> r->Err_0 == lut@.len(),
        r is Err && lut@.len() == 256 ==> r->Err_0 < 256 && !entry_ok(lut@[r->Err_0 as int]) && forall|j: int|
            0 <= j < r->Err_0 ==> entry_ok(#[trigger] lut@[j]),
{
    if lut.len() != 256 {
        return Err(lut.len());
    }
    let mut i: usize = 0;
    while i < lut.len()
        invariant
            lut@.len() == 256,
            i <= 256,
            forall|k: int| 0 <= k < i ==> entry_ok(#[trigger] lut@[k]),
        decreases 256 - i,
    {
        let e = lut[i];
        let s = e.next_decoder_state_id;
        if e.num_decoded > 2 || e.bits_consumed > 8 || !(s == STATE_CONTINUE_LUT || s == STATE_EOS_DECODED
            || s == STATE_ERROR || s < 1000) {
            return Err(i);
        }
        i = i + 1;
    }
    Ok(())
}

/// Every entry of the generated table passes validation.
pub proof fn lemma_generated_lut_valid(lut: Seq<LutEntry>)
    requires
        lut.len() == 256,
        forall|p: int| 0 <= p < 256 ==> entry_matches(#[trigger] lut[p], p as u8),
    ensures
        lut_valid(lut),
{
    assert forall|i: int| 0 <= i < lut.len() implies entry_ok(#[trigger] lut[i]) by {
        assert(entry_matches(lut[i], i as u8));
        let init = PatternScan { code: 0, len: 0, syms: seq![], last_end: 0, eos: false };
        reveal_with_fuel(p2, 1);
        lemma_scan_bounds(i as u8, 0, init);
        let st = scan_pattern(i as u8, 0, init);
        if !st.eos && st.syms.len() == 0 {
            reveal_with_fuel(p2, 10);
            lemma_p2_mono(st.len as nat, 8);
            let len = st.len;
            let code = st.code;
            assert(((1u32 << len) | code) < 512) by (bit_vector)
                requires
                    len <= 8,
                    code < 256,
            ;
        }
    }
}
pub open spec fn lut_text_head() -> Seq<u8> {
    seq![47u8, 47u8, 32u8, 71u8, 101u8, 110u8, 101u8, 114u8, 97u8, 116u8, 101u8, 100u8, 32u8, 72u8, 80u8, 65u8, 67u8, 75u8, 32u8, 72u8, 117u8, 102u8, 102u8, 109u8, 97u8, 110u8, 32u8, 100u8, 101u8, 99u8, 111u8, 100u8, 105u8, 110u8, 103u8, 32u8, 108u8, 111u8, 111u8, 107u8, 117u8, 112u8, 32u8, 116u8, 97u8, 98u8, 108u8, 101u8, 10u8, 10u8, 112u8, 117u8, 98u8, 32u8, 99u8, 111u8, 110u8, 115u8, 116u8, 32u8, 68u8, 69u8, 67u8, 79u8, 68u8, 73u8, 78u8, 71u8, 95u8, 76u8, 85u8, 84u8, 58u8, 32u8, 91u8, 76u8, 117u8, 116u8, 69u8, 110u8, 116u8, 114u8, 121u8, 59u8, 32u8, 50u8, 53u8, 54u8, 93u8, 32u8, 61u8, 32u8, 91u8, 10u8]
}

pub open spec fn entry_open() -> Seq<u8> {
    seq![32u8, 32u8, 32u8, 32u8, 76u8, 117u8, 116u8, 69u8, 110u8, 116u8, 114u8, 121u8, 32u8, 123u8, 10u8, 32u8, 32u8, 32u8, 32u8, 32u8, 32u8, 32u8, 32u8, 115u8, 121u8, 109u8, 98u8, 111u8, 108u8, 115u8, 58u8, 32u8, 91u8, 48u8, 120u8]
}

pub open spec fn sym_sep() -> Seq<u8> {
    seq![44u8, 32u8, 48u8, 120u8]
}

pub open spec fn num_label() -> Seq<u8> {
    seq![93u8, 44u8, 10u8, 32u8, 32u8, 32u8, 32u8, 32u8, 32u8, 32u8, 32u8, 110u8, 117u8, 109u8, 95u8, 100u8, 101u8, 99u8, 111u8, 100u8, 101u8, 100u8, 58u8, 32u8]
}

pub open spec fn bits_label() -> Seq<u8> {
    seq![44u8, 10u8, 32u8, 32u8, 32u8, 32u8, 32u8, 32u8, 32u8, 32u8, 98u8, 105u8, 116u8, 115u8, 95u8, 99u8, 111u8, 110u8, 115u8, 117u8, 109u8, 101u8, 100u8, 58u8, 32u8]
}

pub open spec fn state_label() -> Seq<u8> {
    seq![44u8, 10u8, 32u8, 32u8, 32u8, 32u8, 32u8, 32u8, 32u8, 32u8, 110u8, 101u8, 120u8, 116u8, 95u8, 100u8, 101u8, 99u8, 111u8, 100u8, 101u8, 114u8, 95u8, 115u8, 116u8, 97u8, 116u8, 101u8, 95u8, 105u8, 100u8, 58u8, 32u8]
}

pub open spec fn entry_close() -> Seq<u8> {
    seq![44u8, 10u8, 32u8, 32u8, 32u8, 32u8, 125u8, 44u8, 32u8, 47u8, 47u8, 32u8, 80u8, 97u8, 116u8, 116u8, 101u8, 114u8, 110u8, 58u8, 32u8, 48u8, 98u8]
}

pub open spec fn newline() -> Seq<u8> {
    seq![10u8]
}

pub open spec fn lut_text_tail() -> Seq<u8> {
    seq![93u8, 59u8, 10u8]
}

pub open spec fn continue_name() -> Seq<u8> {
    seq![83u8, 84u8, 65u8, 84u8, 69u8, 95u8, 67u8, 79u8, 78u8, 84u8, 73u8, 78u8, 85u8, 69u8, 95u8, 76u8, 85u8, 84u8]
}

pub open spec fn eos_name() -> Seq<u8> {
    seq![83u8, 84u8, 65u8, 84u8, 69u8, 95u8, 69u8, 79u8, 83u8, 95u8, 68u8, 69u8, 67u8, 79u8, 68u8, 69u8, 68u8]
}

pub open spec fn error_name() -> Seq<u8> {
    seq![83u8, 84u8, 65u8, 84u8, 69u8, 95u8, 69u8, 82u8, 82u8, 79u8, 82u8]
}

pub open spec fn hex_prefix() -> Seq<u8> {
    seq![48u8, 120u8]
}

fn lut_text_head_bytes() -> (r: [u8; 94])
    ensures
        r@ == lut_text_head(),
{
    let r = [47u8, 47u8, 32u8, 71u8, 101u8, 110u8, 101u8, 114u8, 97u8, 116u8, 101u8, 100u8, 32u8, 72u8, 80u8, 65u8, 67u8, 75u8, 32u8, 72u8, 117u8, 102u8, 102u8, 109u8, 97u8, 110u8, 32u8, 100u8, 101u8, 99u8, 111u8, 100u8, 105u8, 110u8, 103u8, 32u8, 108u8, 111u8, 111u8, 107u8, 117u8, 112u8, 32u8, 116u8, 97u8, 98u8, 108u8, 101u8, 10u8, 10u8, 112u8, 117u8, 98u8, 32u8, 99u8, 111u8, 110u8, 115u8, 116u8, 32u8, 68u8, 69u8, 67u8, 79u8, 68u8, 73u8, 78u8, 71u8, 95u8, 76u8, 85u8, 84u8, 58u8, 32u8, 91u8, 76u8, 117u8, 116u8, 69u8, 110u8, 116u8, 114u8, 121u8, 59u8, 32u8, 50u8, 53u8, 54u8, 93u8, 32u8, 61u8, 32u8, 91u8, 10u8];
    assert(r@ =~= lut_text_head());
    r
}

fn entry_open_bytes() -> (r: [u8; 35])
    ensures
        r@ == entry_open(),
{
    let r = [32u8, 32u8, 32u8, 32u8, 76u8, 117u8, 116u8, 69u8, 110u8, 116u8, 114u8, 121u8, 32u8, 123u8, 10u8, 32u8, 32u8, 32u8, 32u8, 32u8, 32u8, 32u8, 32u8, 115u8, 121u8, 109u8, 98u8, 111u8, 108u8, 115u8, 58u8, 32u8, 91u8, 48u8, 120u8];
    assert(r@ =~= entry_open());
    r
}

fn sym_sep_bytes() -> (r: [u8; 4])
    ensures
        r@ == sym_sep(),
{
    let r = [44u8, 32u8, 48u8, 120u8];
    assert(r@ =~= sym_sep());
    r
}

fn num_label_bytes() -> (r: [u8; 24])
    ensures
        r@ == num_label(),
{
    let r = [93u8, 44u8, 10u8, 32u8, 32u8, 32u8, 32u8, 32u8, 32u8, 32u8, 32u8, 110u8, 117u8, 109u8, 95u8, 100u8, 101u8, 99u8, 111u8, 100u8, 101u8, 100u8, 58u8, 32u8];
    assert(r@ =~= num_label());
    r
}

fn bits_label_bytes() -> (r: [u8; 25])
    ensures
        r@ == bits_label(),
{
    let r = [44u8, 10u8, 32u8, 32u8, 32u8, 32u8, 32u8, 32u8, 32u8, 32u8, 98u8, 105u8, 116u8, 115u8, 95u8, 99u8, 111u8, 110u8, 115u8, 117u8, 109u8, 101u8, 100u8, 58u8, 32u8];
    assert(r@ =~= bits_label());
    r
}

fn state_label_bytes() -> (r: [u8; 33])
    ensures
        r@ == state_label(),
{
    let r = [44u8, 10u8, 32u8, 32u8, 32u8, 32u8, 32u8, 32u8, 32u8, 32u8, 110u8, 101u8, 120u8, 116u8, 95u8, 100u8, 101u8, 99u8, 111u8, 100u8, 101u8, 114u8, 95u8, 115u8, 116u8, 97u8, 116u8, 101u8, 95u8, 105u8, 100u8, 58u8, 32u8];
    assert(r@ =~= state_label());
    r
}

fn entry_close_bytes() -> (r: [u8; 23])
    ensures
        r@ == entry_close(),
{
    let r = [44u8, 10u8, 32u8, 32u8, 32u8, 32u8, 125u8, 44u8, 32u8, 47u8, 47u8, 32u8, 80u8, 97u8, 116u8, 116u8, 101u8, 114u8, 110u8, 58u8, 32u8, 48u8, 98u8];
    assert(r@ =~= entry_close());
    r
}

fn newline_bytes() -> (r: [u8; 1])
    ensures
        r@ == newline(),
{
    let r = [10u8];
    assert(r@ =~= newline());
    r
}

fn lut_text_tail_bytes() -> (r: [u8; 3])
    ensures
        r@ == lut_text_tail(),
{
    let r = [93u8, 59u8, 10u8];
    assert(r@ =~= lut_text_tail());
    r
}

fn continue_name_bytes() -> (r: [u8; 18])
    ensures
        r@ == continue_name(),
{
    let r = [83u8, 84u8, 65u8, 84u8, 69u8, 95u8, 67u8, 79u8, 78u8, 84u8, 73u8, 78u8, 85u8, 69u8, 95u8, 76u8, 85u8, 84u8];
    assert(r@ =~= continue_name());
    r
}

fn eos_name_bytes() -> (r: [u8; 17])
    ensures
        r@ == eos_name(),
{
    let r = [83u8, 84u8, 65u8, 84u8, 69u8, 95u8, 69u8, 79u8, 83u8, 95u8, 68u8, 69u8, 67u8, 79u8, 68u8, 69u8, 68u8];
    assert(r@ =~= eos_name());
    r
}

fn error_name_bytes() -> (r: [u8; 11])
    ensures
        r@ == error_name(),
{
    let r = [83u8, 84u8, 65u8, 84u8, 69u8, 95u8, 69u8, 82u8, 82u8, 79u8, 82u8];
    assert(r@ =~= error_name());
    r
}

fn hex_prefix_bytes() -> (r: [u8; 2])
    ensures
        r@ == hex_prefix(),
{
    let r = [48u8, 120u8];
    assert(r@ =~= hex_prefix());
    r
}

/// The name of a special state, or `0x` and four hexadecimal digits.
pub open spec fn state_text(id: u16) -> Seq<u8> {
    if id == STATE_CONTINUE_LUT {
        continue_name()
    } else if id == STATE_EOS_DECODED {
        eos_name()
    } else if id == STATE_ERROR {
        error_name()
    } else {
        hex_prefix() + hex_digits(id as nat, 4)
    }
}

/// The source text of entry number `i`.
pub open spec fn entry_text(i: nat, e: LutEntry) -> Seq<u8> {
    entry_open() + hex_digits(e.symbols@[0] as nat, 2) + sym_sep() + hex_digits(e.symbols@[1] as nat, 2)
        + num_label() + dec_digits(e.num_decoded as nat) + bits_label() + dec_digits(e.bits_consumed as nat)
        + state_label() + state_text(e.next_decoder_state_id) + entry_close() + bin_digits(i, 8) + newline()
}

/// The source text of the first `n` entries.
pub open spec fn entries_text(lut: Seq<LutEntry>, n: nat) -> Seq<u8>
    decreases n,
{
    if n == 0 || n > lut.len() {
        seq![]
    } else {
        entries_text(lut, (n - 1) as nat) + entry_text((n - 1) as nat, lut[n - 1])
    }
}

/// The table as Rust source: a constant array of entries, each with a
/// comment giving its bit pattern.
pub open spec fn lut_text(lut: Seq<LutEntry>) -> Seq<u8> {
    lut_text_head() + entries_text(lut, lut.len()) + lut_text_tail()
}

proof fn lemma_lit_ascii(s: Seq<u8>)
    requires
        forall|i: int| 0 <= i < s.len() ==> s[i] < 128,
    ensures
        is_ascii_bytes(s),
{
}

proof fn lemma_entry_ascii(i: nat, e: LutEntry)
    ensures
        is_ascii_bytes(entry_text(i, e)),
{
    lemma_digits_ascii(e.symbols@[0] as nat, 2);
    lemma_digits_ascii(e.symbols@[1] as nat, 2);
    lemma_digits_ascii(e.num_decoded as nat, 0);
    lemma_digits_ascii(e.bits_consumed as nat, 0);
    lemma_digits_ascii(e.next_decoder_state_id as nat, 4);
    lemma_digits_ascii(i, 8);
    let parts = seq![entry_open(), hex_digits(e.symbols@[0] as nat, 2), sym_sep(), hex_digits(e.symbols@[1] as nat, 2),
        num_label(), dec_digits(e.num_decoded as nat), bits_label(), dec_digits(e.bits_consumed as nat),
        state_label(), state_text(e.next_decoder_state_id), entry_close(), bin_digits(i, 8), newline()];
    assert(is_ascii_bytes(state_text(e.next_decoder_state_id))) by {
        if !(e.next_decoder_state_id == STATE_CONTINUE_LUT || e.next_decoder_state_id == STATE_EOS_DECODED
            || e.next_decoder_state_id == STATE_ERROR) {
            lemma_ascii_concat(hex_prefix(), hex_digits(e.next_decoder_state_id as nat, 4));
        }
    }
    let mut acc = entry_open();
    lemma_ascii_concat(acc, hex_digits(e.symbols@[0] as nat, 2));
    acc = acc + hex_digits(e.symbols@[0] as nat, 2);
    lemma_ascii_concat(acc, sym_sep());
    acc = acc + sym_sep();
    lemma_ascii_concat(acc, hex_digits(e.symbols@[1] as nat, 2));
    acc = acc + hex_digits(e.symbols@[1] as nat, 2);
    lemma_ascii_concat(acc, num_label());
    acc = acc + num_label();
    lemma_ascii_concat(acc, dec_digits(e.num_decoded as nat));
    acc = acc + dec_digits(e.num_decoded as nat);
    lemma_ascii_concat(acc, bits_label());
    acc = acc + bits_label();
    lemma_ascii_concat(acc, dec_digits(e.bits_consumed as nat));
    acc = acc + dec_digits(e.bits_consumed as nat);
    lemma_ascii_concat(acc, state_label());
    acc = acc + state_label();
    lemma_ascii_concat(acc, state_text(e.next_decoder_state_id));
    acc = acc + state_text(e.next_decoder_state_id);
    lemma_ascii_concat(acc, entry_close());
    acc = acc + entry_close();
    lemma_ascii_concat(acc, bin_digits(i, 8));
    acc = acc + bin_digits(i, 8);
    lemma_ascii_concat(acc, newline());
    acc = acc + newline();
    assert(acc == entry_text(i, e));
}

proof fn lemma_entries_ascii(lut: Seq<LutEntry>, n: nat)
    ensures
        is_ascii_bytes(entries_text(lut, n)),
    decreases n,
{
    if n == 0 || n > lut.len() {
    } else {
        lemma_entries_ascii(lut, (n - 1) as nat);
        lemma_entry_ascii((n - 1) as nat, lut[n - 1]);
        lemma_ascii_concat(entries_text(lut, (n - 1) as nat), entry_text((n - 1) as nat, lut[n - 1]));
    }
}

impl LutGenerator {
    fn push_symbols(out: &mut Vec<u8>, e: LutEntry)
        ensures
            final(out)@ == old(out)@ + (entry_open() + hex_digits(e.symbols@[0] as nat, 2) + sym_sep()
                + hex_digits(e.symbols@[1] as nat, 2)),
    {
        append_bytes(out, entry_open_bytes().as_slice());
        append_bytes(out, hex_bytes(e.symbols[0] as u64, 2).as_slice());
        append_bytes(out, sym_sep_bytes().as_slice());
        append_bytes(out, hex_bytes(e.symbols[1] as u64, 2).as_slice());
        assert(out@ =~= old(out)@ + (entry_open() + hex_digits(e.symbols@[0] as nat, 2) + sym_sep()
            + hex_digits(e.symbols@[1] as nat, 2)));
    }

    fn push_counts(out: &mut Vec<u8>, e: LutEntry)
        ensures
            final(out)@ == old(out)@ + (num_label() + dec_digits(e.num_decoded as nat) + bits_label()
                + dec_digits(e.bits_consumed as nat) + state_label()),
    {
        append_bytes(out, num_label_bytes().as_slice());
        append_bytes(out, decimal_bytes(e.num_decoded as u64).as_slice());
        append_bytes(out, bits_label_bytes().as_slice());
        append_bytes(out, decimal_bytes(e.bits_consumed as u64).as_slice());
        append_bytes(out, state_label_bytes().as_slice());
        assert(out@ =~= old(out)@ + (num_label() + dec_digits(e.num_decoded as nat) + bits_label()
            + dec_digits(e.bits_consumed as nat) + state_label()));
    }

    fn push_state(out: &mut Vec<u8>, id: u16)
        ensures
            final(out)@ == old(out)@ + state_text(id),
    {
        if id == STATE_CONTINUE_LUT {
            append_bytes(out, continue_name_bytes().as_slice());
        } else if id == STATE_EOS_DECODED {
            append_bytes(out, eos_name_bytes().as_slice());
        } else if id == STATE_ERROR {
            append_bytes(out, error_name_bytes().as_slice());
        } else {
            append_bytes(out, hex_prefix_bytes().as_slice());
            append_bytes(out, hex_bytes(id as u64, 4).as_slice());
            assert(out@ =~= old(out)@ + (hex_prefix() + hex_digits(id as nat, 4)));
        }
    }

    fn push_entry_text(out: &mut Vec<u8>, i: usize, e: LutEntry)
        ensures
            final(out)@ == old(out)@ + entry_text(i as nat, e),
    {
        Self::push_symbols(out, e);
        Self::push_counts(out, e);
        Self::push_state(out, e.next_decoder_state_id);
        append_bytes(out, entry_close_bytes().as_slice());
        append_bytes(out, bin_bytes(i as u64, 8).as_slice());
        append_bytes(out, newline_bytes().as_slice());
        assert(out@ =~= old(out)@ + entry_text(i as nat, e));
    }

    /// The table as Rust source text.
    pub fn format_lut_as_rust_code(&self, lut: &[LutEntry]) -> (r: String)
        ensures
            r@ == ascii_chars(lut_text(lut@)),
    {
        let mut out: Vec<u8> = Vec::new();
        append_bytes(&mut out, lut_text_head_bytes().as_slice());
        let mut i: usize = 0;
        while i < lut.len()
            invariant
                i <= lut@.len(),
                out@ == lut_text_head() + entries_text(lut@, i as nat),
            decreases lut@.len() - i,
        {
            Self::push_entry_text(&mut out, i, lut[i]);
            i = i + 1;
            assert(out@ =~= lut_text_head() + entries_text(lut@, i as nat));
        }
        append_bytes(&mut out, lut_text_tail_bytes().as_slice());
        proof {
            lemma_entries_ascii(lut@, lut@.len());
            lemma_lit_ascii(lut_text_head());
            lemma_lit_ascii(lut_text_tail());
            lemma_ascii_concat(lut_text_head(), entries_text(lut@, lut@.len()));
            lemma_ascii_concat(lut_text_head() + entries_text(lut@, lut@.len()), lut_text_tail());
            assert(out@ =~= lut_text(lut@));
        }
        ascii_string(out.as_slice())
    }
}

/// The `len` bits `code` are a proper prefix of symbol `sym`'s code.
pub open spec fn prefix_of_symbol(code: u32, len: u8, sym: u16) -> bool {
    let (c, b) = huffman_code(sym);
    len < b && (c >> ((b - len) as u32)) == code
}

/// The `len` bits `code` are a proper prefix of some symbol's code: a node
/// of the code tree that is not a leaf.
pub open spec fn is_internal(code: u32, len: u8) -> bool {
    exists|sym: u16| sym < 257 && prefix_of_symbol(code, len, sym)
}

/// The continuation-state number of the partial code `code` of `len` bits:
/// the bits with a leading one.
pub open spec fn state_number(code: u32, len: u8) -> u32 {
    ((1u64 << len) | code as u64) as u32
}

/// Following one more bit from a partial code: a completed symbol returns to
/// the root (state 0), otherwise the longer partial code is the next state.
pub open spec fn follow_spec(code: u32, len: u8, bit: u32) -> (u32, Option<u16>) {
    let c = (code * 2 + bit) as u32;
    let l = (len + 1) as u8;
    match symbol_of(c, l) {
        Some(sym) => (0, Some(sym)),
        None => (state_number(c, l), None),
    }
}

/// One continuation state: its partial code and where each bit leads.
#[derive(Debug, Clone, Copy)]
pub struct FsmState {
    pub id: u32,
    pub code: u32,
    pub len: u8,
    pub on_zero: (u32, Option<u16>),
    pub on_one: (u32, Option<u16>),
}

/// `s` is the state of an inner node with correct transitions.
pub open spec fn fsm_state_ok(s: FsmState) -> bool {
    &&& 1 <= s.len < 8
    &&& s.code < p2(s.len as nat)
    &&& is_internal(s.code, s.len)
    &&& s.id == state_number(s.code, s.len)
    &&& s.on_zero == follow_spec(s.code, s.len, 0)
    &&& s.on_one == follow_spec(s.code, s.len, 1)
}

fn is_internal_exec(code: u32, len: u8) -> (r: bool)
    ensures
        r == is_internal(code, len),
{
    let mut sym: u16 = 0;
    while sym < 257
        invariant
            sym <= 257,
            forall|t: u16| t < sym ==> !prefix_of_symbol(code, len, t),
        decreases 257 - sym,
    {
        let (c, b) = huffman_code_of(sym);
        if len < b && (c >> ((b - len) as u32)) == code {
            assert(prefix_of_symbol(code, len, sym));
            return true;
        }
        sym = sym + 1;
    }
    false
}

impl LutGenerator {
    /// Where one more bit leads from the partial code `code` of `len` bits.
    pub fn follow_bit_from_path(&self, code: u32, len: u8, bit: u32) -> (r: (u32, Option<u16>))
        requires
            len < 8,
            code < p2(len as nat),
            bit <= 1,
        ensures
            r == follow_spec(code, len, bit),
    {
        proof {
            lemma_p2_mono(len as nat, 7);
            reveal_with_fuel(p2, 9);
        }
        let c = code * 2 + bit;
        let l = len + 1;
        match find_symbol(c, l) {
            Some(sym) => (0, Some(sym)),
            None => {
                let id = ((1u64 << l) | c as u64) as u32;
                (id, None)
            },
        }
    }

    /// The continuation states: every inner node of the code tree less than
    /// eight bits deep, by depth and then by bits, with its transitions.
    pub fn build_fsm_states(&self) -> (r: Vec<FsmState>)
        ensures
            forall|i: int| 0 <= i < r@.len() ==> fsm_state_ok(#[trigger] r@[i]),
            forall|code: u32, len: u8|
                1 <= len < 8 && code < p2(len as nat) && is_internal(code, len) ==> exists|i: int|
                    0 <= i < r@.len() && (#[trigger] r@[i]).code == code && r@[i].len == len,
    {
        let mut states: Vec<FsmState> = Vec::new();
        let mut len: u8 = 1;
        proof {
            reveal_with_fuel(p2, 9);
        }
        while len < 8
            invariant
                1 <= len <= 8,
                p2(7) == 128 && p2(8) == 256,
                forall|i: int| 0 <= i < states@.len() ==> fsm_state_ok(#[trigger] states@[i]),
                forall|c: u32, l: u8|
                    1 <= l < len && c < p2(l as nat) && is_internal(c, l) ==> exists|i: int|
                        0 <= i < states@.len() && (#[trigger] states@[i]).code == c && states@[i].len == l,
            decreases 8 - len,
        {
            proof {
                lemma_p2_mono(len as nat, 7);
            }
            let count: u32 = (1u32 << len);
            assert(count as nat == p2(len as nat)) by {
                lemma_shift_is_p2(len);
            }
            let mut code: u32 = 0;
            while code < count
                invariant
                    1 <= len < 8,
                    count as nat == p2(len as nat),
                    count <= 128,
                    code <= count,
                    p2(7) == 128 && p2(8) == 256,
                    forall|i: int| 0 <= i < states@.len() ==> fsm_state_ok(#[trigger] states@[i]),
                    forall|c: u32, l: u8|
                        (1 <= l < len && c < p2(l as nat) && is_internal(c, l)) || (l == len && c < code
                            && is_internal(c, l)) ==> exists|i: int|
                            0 <= i < states@.len() && (#[trigger] states@[i]).code == c && states@[i].len == l,
                decreases count - code,
            {
                if is_internal_exec(code, len) {
                    let on_zero = self.follow_bit_from_path(code, len, 0);
                    let on_one = self.follow_bit_from_path(code, len, 1);
                    let id = ((1u64 << len) | code as u64) as u32;
                    let st = FsmState { id, code, len, on_zero, on_one };
                    let ghost before = states@;
                    states.push(st);
                    proof {
                        assert(states@[before.len() as int] == st);
                        assert forall|c: u32, l: u8|
                            (1 <= l < len && c < p2(l as nat) && is_internal(c, l)) || (l == len && c < code + 1
                                && is_internal(c, l)) implies exists|i: int|
                            0 <= i < states@.len() && (#[trigger] states@[i]).code == c && states@[i].len == l by {
                            if l == len && c == code {
                                assert(states@[before.len() as int].code == c);
                            } else {
                                let i = choose|i: int|
                                    0 <= i < before.len() && (#[trigger] before[i]).code == c && before[i].len == l;
                                assert(states@[i] == before[i]);
                            }
                        }
                    }
                }
                code = code + 1;
            }
            len = len + 1;
        }
        states
    }
}

} // verus!
