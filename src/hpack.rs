//! HPACK header-block decoding: prefix integers, string literals (plain or
//! Huffman-coded), the static table and the size-bounded dynamic table.
use vstd::prelude::*;
use vstd::slice::slice_subrange;
use crate::http1::append_bytes;
use crate::http2::Http2ParseError;
use crate::huffman::{huffman_decode, huffman_decoded};

verus! {

/// The 61 entries of the static table, numbered from 1.
pub open spec fn static_entry(i: usize) -> (Seq<u8>, Seq<u8>) {
    match i {
        1 => (seq![58u8, 97u8, 117u8, 116u8, 104u8, 111u8, 114u8, 105u8, 116u8, 121u8], Seq::<u8>::empty()),
        2 => (seq![58u8, 109u8, 101u8, 116u8, 104u8, 111u8, 100u8], seq![71u8, 69u8, 84u8]),
        3 => (seq![58u8, 109u8, 101u8, 116u8, 104u8, 111u8, 100u8], seq![80u8, 79u8, 83u8, 84u8]),
        4 => (seq![58u8, 112u8, 97u8, 116u8, 104u8], seq![47u8]),
        5 => (seq![58u8, 112u8, 97u8, 116u8, 104u8], seq![47u8, 105u8, 110u8, 100u8, 101u8, 120u8, 46u8, 104u8, 116u8, 109u8, 108u8]),
        6 => (seq![58u8, 115u8, 99u8, 104u8, 101u8, 109u8, 101u8], seq![104u8, 116u8, 116u8, 112u8]),
        7 => (seq![58u8, 115u8, 99u8, 104u8, 101u8, 109u8, 101u8], seq![104u8, 116u8, 116u8, 112u8, 115u8]),
        8 => (seq![58u8, 115u8, 116u8, 97u8, 116u8, 117u8, 115u8], seq![50u8, 48u8, 48u8]),
        9 => (seq![58u8, 115u8, 116u8, 97u8, 116u8, 117u8, 115u8], seq![50u8, 48u8, 52u8]),
        10 => (seq![58u8, 115u8, 116u8, 97u8, 116u8, 117u8, 115u8], seq![50u8, 48u8, 54u8]),
        11 => (seq![58u8, 115u8, 116u8, 97u8, 116u8, 117u8, 115u8], seq![51u8, 48u8, 52u8]),
        12 => (seq![58u8, 115u8, 116u8, 97u8, 116u8, 117u8, 115u8], seq![52u8, 48u8, 48u8]),
        13 => (seq![58u8, 115u8, 116u8, 97u8, 116u8, 117u8, 115u8], seq![52u8, 48u8, 52u8]),
        14 => (seq![58u8, 115u8, 116u8, 97u8, 116u8, 117u8, 115u8], seq![53u8, 48u8, 48u8]),
        15 => (seq![97u8, 99u8, 99u8, 101u8, 112u8, 116u8, 45u8, 99u8, 104u8, 97u8, 114u8, 115u8, 101u8, 116u8], Seq::<u8>::empty()),
        16 => (seq![97u8, 99u8, 99u8, 101u8, 112u8, 116u8, 45u8, 101u8, 110u8, 99u8, 111u8, 100u8, 105u8, 110u8, 103u8], seq![103u8, 122u8, 105u8, 112u8, 44u8, 32u8, 100u8, 101u8, 102u8, 108u8, 97u8, 116u8, 101u8]),
        17 => (seq![97u8, 99u8, 99u8, 101u8, 112u8, 116u8, 45u8, 108u8, 97u8, 110u8, 103u8, 117u8, 97u8, 103u8, 101u8], Seq::<u8>::empty()),
        18 => (seq![97u8, 99u8, 99u8, 101u8, 112u8, 116u8, 45u8, 114u8, 97u8, 110u8, 103u8, 101u8, 115u8], Seq::<u8>::empty()),
        19 => (seq![97u8, 99u8, 99u8, 101u8, 112u8, 116u8], Seq::<u8>::empty()),
        20 => (seq![97u8, 99u8, 99u8, 101u8, 115u8, 115u8, 45u8, 99u8, 111u8, 110u8, 116u8, 114u8, 111u8, 108u8, 45u8, 97u8, 108u8, 108u8, 111u8, 119u8, 45u8, 111u8, 114u8, 105u8, 103u8, 105u8, 110u8], Seq::<u8>::empty()),
        21 => (seq![97u8, 103u8, 101u8], Seq::<u8>::empty()),
        22 => (seq![97u8, 108u8, 108u8, 111u8, 119u8], Seq::<u8>::empty()),
        23 => (seq![97u8, 117u8, 116u8, 104u8, 111u8, 114u8, 105u8, 122u8, 97u8, 116u8, 105u8, 111u8, 110u8], Seq::<u8>::empty()),
        24 => (seq![99u8, 97u8, 99u8, 104u8, 101u8, 45u8, 99u8, 111u8, 110u8, 116u8, 114u8, 111u8, 108u8], Seq::<u8>::empty()),
        25 => (seq![99u8, 111u8, 110u8, 116u8, 101u8, 110u8, 116u8, 45u8, 100u8, 105u8, 115u8, 112u8, 111u8, 115u8, 105u8, 116u8, 105u8, 111u8, 110u8], Seq::<u8>::empty()),
        26 => (seq![99u8, 111u8, 110u8, 116u8, 101u8, 110u8, 116u8, 45u8, 101u8, 110u8, 99u8, 111u8, 100u8, 105u8, 110u8, 103u8], Seq::<u8>::empty()),
        27 => (seq![99u8, 111u8, 110u8, 116u8, 101u8, 110u8, 116u8, 45u8, 108u8, 97u8, 110u8, 103u8, 117u8, 97u8, 103u8, 101u8], Seq::<u8>::empty()),
        28 => (seq![99u8, 111u8, 110u8, 116u8, 101u8, 110u8, 116u8, 45u8, 108u8, 101u8, 110u8, 103u8, 116u8, 104u8], Seq::<u8>::empty()),
        29 => (seq![99u8, 111u8, 110u8, 116u8, 101u8, 110u8, 116u8, 45u8, 108u8, 111u8, 99u8, 97u8, 116u8, 105u8, 111u8, 110u8], Seq::<u8>::empty()),
        30 => (seq![99u8, 111u8, 110u8, 116u8, 101u8, 110u8, 116u8, 45u8, 114u8, 97u8, 110u8, 103u8, 101u8], Seq::<u8>::empty()),
        31 => (seq![99u8, 111u8, 110u8, 116u8, 101u8, 110u8, 116u8, 45u8, 116u8, 121u8, 112u8, 101u8], Seq::<u8>::empty()),
        32 => (seq![99u8, 111u8, 111u8, 107u8, 105u8, 101u8], Seq::<u8>::empty()),
        33 => (seq![100u8, 97u8, 116u8, 101u8], Seq::<u8>::empty()),
        34 => (seq![101u8, 116u8, 97u8, 103u8], Seq::<u8>::empty()),
        35 => (seq![101u8, 120u8, 112u8, 101u8, 99u8, 116u8], Seq::<u8>::empty()),
        36 => (seq![101u8, 120u8, 112u8, 105u8, 114u8, 101u8, 115u8], Seq::<u8>::empty()),
        37 => (seq![102u8, 114u8, 111u8, 109u8], Seq::<u8>::empty()),
        38 => (seq![104u8, 111u8, 115u8, 116u8], Seq::<u8>::empty()),
        39 => (seq![105u8, 102u8, 45u8, 109u8, 97u8, 116u8, 99u8, 104u8], Seq::<u8>::empty()),
        40 => (seq![105u8, 102u8, 45u8, 109u8, 111u8, 100u8, 105u8, 102u8, 105u8, 101u8, 100u8, 45u8, 115u8, 105u8, 110u8, 99u8, 101u8], Seq::<u8>::empty()),
        41 => (seq![105u8, 102u8, 45u8, 110u8, 111u8, 110u8, 101u8, 45u8, 109u8, 97u8, 116u8, 99u8, 104u8], Seq::<u8>::empty()),
        42 => (seq![105u8, 102u8, 45u8, 114u8, 97u8, 110u8, 103u8, 101u8], Seq::<u8>::empty()),
        43 => (seq![105u8, 102u8, 45u8, 117u8, 110u8, 109u8, 111u8, 100u8, 105u8, 102u8, 105u8, 101u8, 100u8, 45u8, 115u8, 105u8, 110u8, 99u8, 101u8], Seq::<u8>::empty()),
        44 => (seq![108u8, 97u8, 115u8, 116u8, 45u8, 109u8, 111u8, 100u8, 105u8, 102u8, 105u8, 101u8, 100u8], Seq::<u8>::empty()),
        45 => (seq![108u8, 105u8, 110u8, 107u8], Seq::<u8>::empty()),
        46 => (seq![108u8, 111u8, 99u8, 97u8, 116u8, 105u8, 111u8, 110u8], Seq::<u8>::empty()),
        47 => (seq![109u8, 97u8, 120u8, 45u8, 102u8, 111u8, 114u8, 119u8, 97u8, 114u8, 100u8, 115u8], Seq::<u8>::empty()),
        48 => (seq![112u8, 114u8, 111u8, 120u8, 121u8, 45u8, 97u8, 117u8, 116u8, 104u8, 101u8, 110u8, 116u8, 105u8, 99u8, 97u8, 116u8, 101u8], Seq::<u8>::empty()),
        49 => (seq![112u8, 114u8, 111u8, 120u8, 121u8, 45u8, 97u8, 117u8, 116u8, 104u8, 111u8, 114u8, 105u8, 122u8, 97u8, 116u8, 105u8, 111u8, 110u8], Seq::<u8>::empty()),
        50 => (seq![114u8, 97u8, 110u8, 103u8, 101u8], Seq::<u8>::empty()),
        51 => (seq![114u8, 101u8, 102u8, 101u8, 114u8, 101u8, 114u8], Seq::<u8>::empty()),
        52 => (seq![114u8, 101u8, 102u8, 114u8, 101u8, 115u8, 104u8], Seq::<u8>::empty()),
        53 => (seq![114u8, 101u8, 116u8, 114u8, 121u8, 45u8, 97u8, 102u8, 116u8, 101u8, 114u8], Seq::<u8>::empty()),
        54 => (seq![115u8, 101u8, 114u8, 118u8, 101u8, 114u8], Seq::<u8>::empty()),
        55 => (seq![115u8, 101u8, 116u8, 45u8, 99u8, 111u8, 111u8, 107u8, 105u8, 101u8], Seq::<u8>::empty()),
        56 => (seq![115u8, 116u8, 114u8, 105u8, 99u8, 116u8, 45u8, 116u8, 114u8, 97u8, 110u8, 115u8, 112u8, 111u8, 114u8, 116u8, 45u8, 115u8, 101u8, 99u8, 117u8, 114u8, 105u8, 116u8, 121u8], Seq::<u8>::empty()),
        57 => (seq![116u8, 114u8, 97u8, 110u8, 115u8, 102u8, 101u8, 114u8, 45u8, 101u8, 110u8, 99u8, 111u8, 100u8, 105u8, 110u8, 103u8], Seq::<u8>::empty()),
        58 => (seq![117u8, 115u8, 101u8, 114u8, 45u8, 97u8, 103u8, 101u8, 110u8, 116u8], Seq::<u8>::empty()),
        59 => (seq![118u8, 97u8, 114u8, 121u8], Seq::<u8>::empty()),
        60 => (seq![118u8, 105u8, 97u8], Seq::<u8>::empty()),
        61 => (seq![119u8, 119u8, 119u8, 45u8, 97u8, 117u8, 116u8, 104u8, 101u8, 110u8, 116u8, 105u8, 99u8, 97u8, 116u8, 101u8], Seq::<u8>::empty()),
        _ => (Seq::<u8>::empty(), Seq::<u8>::empty()),
    }
}

/// Static table entry `i` (1 to 61).
pub fn static_entry_of(i: usize) -> (r: (Vec<u8>, Vec<u8>))
    requires
        1 <= i <= 61,
    ensures
        r.0@ == static_entry(i).0,
        r.1@ == static_entry(i).1,
{
    let r = match i {
        1 => (vec![58u8, 97u8, 117u8, 116u8, 104u8, 111u8, 114u8, 105u8, 116u8, 121u8], Vec::new()),
        2 => (vec![58u8, 109u8, 101u8, 116u8, 104u8, 111u8, 100u8], vec![71u8, 69u8, 84u8]),
        3 => (vec![58u8, 109u8, 101u8, 116u8, 104u8, 111u8, 100u8], vec![80u8, 79u8, 83u8, 84u8]),
        4 => (vec![58u8, 112u8, 97u8, 116u8, 104u8], vec![47u8]),
        5 => (vec![58u8, 112u8, 97u8, 116u8, 104u8], vec![47u8, 105u8, 110u8, 100u8, 101u8, 120u8, 46u8, 104u8, 116u8, 109u8, 108u8]),
        6 => (vec![58u8, 115u8, 99u8, 104u8, 101u8, 109u8, 101u8], vec![104u8, 116u8, 116u8, 112u8]),
        7 => (vec![58u8, 115u8, 99u8, 104u8, 101u8, 109u8, 101u8], vec![104u8, 116u8, 116u8, 112u8, 115u8]),
        8 => (vec![58u8, 115u8, 116u8, 97u8, 116u8, 117u8, 115u8], vec![50u8, 48u8, 48u8]),
        9 => (vec![58u8, 115u8, 116u8, 97u8, 116u8, 117u8, 115u8], vec![50u8, 48u8, 52u8]),
        10 => (vec![58u8, 115u8, 116u8, 97u8, 116u8, 117u8, 115u8], vec![50u8, 48u8, 54u8]),
        11 => (vec![58u8, 115u8, 116u8, 97u8, 116u8, 117u8, 115u8], vec![51u8, 48u8, 52u8]),
        12 => (vec![58u8, 115u8, 116u8, 97u8, 116u8, 117u8, 115u8], vec![52u8, 48u8, 48u8]),
        13 => (vec![58u8, 115u8, 116u8, 97u8, 116u8, 117u8, 115u8], vec![52u8, 48u8, 52u8]),
        14 => (vec![58u8, 115u8, 116u8, 97u8, 116u8, 117u8, 115u8], vec![53u8, 48u8, 48u8]),
        15 => (vec![97u8, 99u8, 99u8, 101u8, 112u8, 116u8, 45u8, 99u8, 104u8, 97u8, 114u8, 115u8, 101u8, 116u8], Vec::new()),
        16 => (vec![97u8, 99u8, 99u8, 101u8, 112u8, 116u8, 45u8, 101u8, 110u8, 99u8, 111u8, 100u8, 105u8, 110u8, 103u8], vec![103u8, 122u8, 105u8, 112u8, 44u8, 32u8, 100u8, 101u8, 102u8, 108u8, 97u8, 116u8, 101u8]),
        17 => (vec![97u8, 99u8, 99u8, 101u8, 112u8, 116u8, 45u8, 108u8, 97u8, 110u8, 103u8, 117u8, 97u8, 103u8, 101u8], Vec::new()),
        18 => (vec![97u8, 99u8, 99u8, 101u8, 112u8, 116u8, 45u8, 114u8, 97u8, 110u8, 103u8, 101u8, 115u8], Vec::new()),
        19 => (vec![97u8, 99u8, 99u8, 101u8, 112u8, 116u8], Vec::new()),
        20 => (vec![97u8, 99u8, 99u8, 101u8, 115u8, 115u8, 45u8, 99u8, 111u8, 110u8, 116u8, 114u8, 111u8, 108u8, 45u8, 97u8, 108u8, 108u8, 111u8, 119u8, 45u8, 111u8, 114u8, 105u8, 103u8, 105u8, 110u8], Vec::new()),
        21 => (vec![97u8, 103u8, 101u8], Vec::new()),
        22 => (vec![97u8, 108u8, 108u8, 111u8, 119u8], Vec::new()),
        23 => (vec![97u8, 117u8, 116u8, 104u8, 111u8, 114u8, 105u8, 122u8, 97u8, 116u8, 105u8, 111u8, 110u8], Vec::new()),
        24 => (vec![99u8, 97u8, 99u8, 104u8, 101u8, 45u8, 99u8, 111u8, 110u8, 116u8, 114u8, 111u8, 108u8], Vec::new()),
        25 => (vec![99u8, 111u8, 110u8, 116u8, 101u8, 110u8, 116u8, 45u8, 100u8, 105u8, 115u8, 112u8, 111u8, 115u8, 105u8, 116u8, 105u8, 111u8, 110u8], Vec::new()),
        26 => (vec![99u8, 111u8, 110u8, 116u8, 101u8, 110u8, 116u8, 45u8, 101u8, 110u8, 99u8, 111u8, 100u8, 105u8, 110u8, 103u8], Vec::new()),
        27 => (vec![99u8, 111u8, 110u8, 116u8, 101u8, 110u8, 116u8, 45u8, 108u8, 97u8, 110u8, 103u8, 117u8, 97u8, 103u8, 101u8], Vec::new()),
        28 => (vec![99u8, 111u8, 110u8, 116u8, 101u8, 110u8, 116u8, 45u8, 108u8, 101u8, 110u8, 103u8, 116u8, 104u8], Vec::new()),
        29 => (vec![99u8, 111u8, 110u8, 116u8, 101u8, 110u8, 116u8, 45u8, 108u8, 111u8, 99u8, 97u8, 116u8, 105u8, 111u8, 110u8], Vec::new()),
        30 => (vec![99u8, 111u8, 110u8, 116u8, 101u8, 110u8, 116u8, 45u8, 114u8, 97u8, 110u8, 103u8, 101u8], Vec::new()),
        31 => (vec![99u8, 111u8, 110u8, 116u8, 101u8, 110u8, 116u8, 45u8, 116u8, 121u8, 112u8, 101u8], Vec::new()),
        32 => (vec![99u8, 111u8, 111u8, 107u8, 105u8, 101u8], Vec::new()),
        33 => (vec![100u8, 97u8, 116u8, 101u8], Vec::new()),
        34 => (vec![101u8, 116u8, 97u8, 103u8], Vec::new()),
        35 => (vec![101u8, 120u8, 112u8, 101u8, 99u8, 116u8], Vec::new()),
        36 => (vec![101u8, 120u8, 112u8, 105u8, 114u8, 101u8, 115u8], Vec::new()),
        37 => (vec![102u8, 114u8, 111u8, 109u8], Vec::new()),
        38 => (vec![104u8, 111u8, 115u8, 116u8], Vec::new()),
        39 => (vec![105u8, 102u8, 45u8, 109u8, 97u8, 116u8, 99u8, 104u8], Vec::new()),
        40 => (vec![105u8, 102u8, 45u8, 109u8, 111u8, 100u8, 105u8, 102u8, 105u8, 101u8, 100u8, 45u8, 115u8, 105u8, 110u8, 99u8, 101u8], Vec::new()),
        41 => (vec![105u8, 102u8, 45u8, 110u8, 111u8, 110u8, 101u8, 45u8, 109u8, 97u8, 116u8, 99u8, 104u8], Vec::new()),
        42 => (vec![105u8, 102u8, 45u8, 114u8, 97u8, 110u8, 103u8, 101u8], Vec::new()),
        43 => (vec![105u8, 102u8, 45u8, 117u8, 110u8, 109u8, 111u8, 100u8, 105u8, 102u8, 105u8, 101u8, 100u8, 45u8, 115u8, 105u8, 110u8, 99u8, 101u8], Vec::new()),
        44 => (vec![108u8, 97u8, 115u8, 116u8, 45u8, 109u8, 111u8, 100u8, 105u8, 102u8, 105u8, 101u8, 100u8], Vec::new()),
        45 => (vec![108u8, 105u8, 110u8, 107u8], Vec::new()),
        46 => (vec![108u8, 111u8, 99u8, 97u8, 116u8, 105u8, 111u8, 110u8], Vec::new()),
        47 => (vec![109u8, 97u8, 120u8, 45u8, 102u8, 111u8, 114u8, 119u8, 97u8, 114u8, 100u8, 115u8], Vec::new()),
        48 => (vec![112u8, 114u8, 111u8, 120u8, 121u8, 45u8, 97u8, 117u8, 116u8, 104u8, 101u8, 110u8, 116u8, 105u8, 99u8, 97u8, 116u8, 101u8], Vec::new()),
        49 => (vec![112u8, 114u8, 111u8, 120u8, 121u8, 45u8, 97u8, 117u8, 116u8, 104u8, 111u8, 114u8, 105u8, 122u8, 97u8, 116u8, 105u8, 111u8, 110u8], Vec::new()),
        50 => (vec![114u8, 97u8, 110u8, 103u8, 101u8], Vec::new()),
        51 => (vec![114u8, 101u8, 102u8, 101u8, 114u8, 101u8, 114u8], Vec::new()),
        52 => (vec![114u8, 101u8, 102u8, 114u8, 101u8, 115u8, 104u8], Vec::new()),
        53 => (vec![114u8, 101u8, 116u8, 114u8, 121u8, 45u8, 97u8, 102u8, 116u8, 101u8, 114u8], Vec::new()),
        54 => (vec![115u8, 101u8, 114u8, 118u8, 101u8, 114u8], Vec::new()),
        55 => (vec![115u8, 101u8, 116u8, 45u8, 99u8, 111u8, 111u8, 107u8, 105u8, 101u8], Vec::new()),
        56 => (vec![115u8, 116u8, 114u8, 105u8, 99u8, 116u8, 45u8, 116u8, 114u8, 97u8, 110u8, 115u8, 112u8, 111u8, 114u8, 116u8, 45u8, 115u8, 101u8, 99u8, 117u8, 114u8, 105u8, 116u8, 121u8], Vec::new()),
        57 => (vec![116u8, 114u8, 97u8, 110u8, 115u8, 102u8, 101u8, 114u8, 45u8, 101u8, 110u8, 99u8, 111u8, 100u8, 105u8, 110u8, 103u8], Vec::new()),
        58 => (vec![117u8, 115u8, 101u8, 114u8, 45u8, 97u8, 103u8, 101u8, 110u8, 116u8], Vec::new()),
        59 => (vec![118u8, 97u8, 114u8, 121u8], Vec::new()),
        60 => (vec![118u8, 105u8, 97u8], Vec::new()),
        61 => (vec![119u8, 119u8, 119u8, 45u8, 97u8, 117u8, 116u8, 104u8, 101u8, 110u8, 116u8, 105u8, 99u8, 97u8, 116u8, 101u8], Vec::new()),
        _ => (Vec::new(), Vec::new()),
    };
    assert(r.0@ =~= static_entry(i).0);
    assert(r.1@ =~= static_entry(i).1);
    r
}

/// The mask of the low `n` bits of a byte.
pub open spec fn prefix_mask(n: u8) -> u8 {
    if n == 1 {
        1
    } else if n == 2 {
        3
    } else if n == 3 {
        7
    } else if n == 4 {
        15
    } else if n == 5 {
        31
    } else if n == 6 {
        63
    } else if n == 7 {
        127
    } else {
        255
    }
}

fn prefix_mask_of(n: u8) -> (r: u8)
    ensures
        r == prefix_mask(n),
{
    if n == 1 {
        1
    } else if n == 2 {
        3
    } else if n == 3 {
        7
    } else if n == 4 {
        15
    } else if n == 5 {
        31
    } else if n == 6 {
        63
    } else if n == 7 {
        127
    } else {
        255
    }
}

/// The first byte at position `i` or later, and at most five bytes past
/// `off`, whose top bit is clear: the last byte of a prefix integer.
pub open spec fn cont_end(s: Seq<u8>, i: int, off: int) -> Option<int>
    decreases off + 6 - i,
{
    if i < 0 || i >= s.len() || i > off + 5 {
        None
    } else if s[i] < 128 {
        Some(i)
    } else {
        cont_end(s, i + 1, off)
    }
}

/// The value carried by continuation bytes `i..=t`, seven bits each, least
/// significant group first.
pub open spec fn cont_value(s: Seq<u8>, i: int, t: int) -> nat
    decreases t + 1 - i,
{
    if i > t || i < 0 || t >= s.len() {
        0
    } else {
        ((s[i] & 127u8) as nat) + 128 * cont_value(s, i + 1, t)
    }
}

/// The prefix integer with an `n`-bit prefix at `off`: its value and the
/// position just past it.
pub open spec fn int_of(s: Seq<u8>, off: int, n: u8) -> Option<(nat, int)> {
    if off < 0 || off >= s.len() {
        None
    } else {
        let p = s[off] & prefix_mask(n);
        if p < prefix_mask(n) {
            Some((p as nat, off + 1))
        } else {
            match cont_end(s, off + 1, off) {
                None => None,
                Some(t) => Some(((prefix_mask(n) as nat + cont_value(s, off + 1, t)) as nat, t + 1)),
            }
        }
    }
}

pub open spec fn p128(k: nat) -> nat
    decreases k,
{
    if k == 0 {
        1
    } else {
        128 * p128((k - 1) as nat)
    }
}

proof fn lemma_cont_end(s: Seq<u8>, i: int, off: int)
    requires
        0 <= i,
    ensures
        match cont_end(s, i, off) {
            Some(t) => i <= t < s.len() && t <= off + 5 && s[t] < 128,
            None => true,
        },
    decreases off + 6 - i,
{
    if i < s.len() && i <= off + 5 && s[i] >= 128 {
        lemma_cont_end(s, i + 1, off);
    }
}

/// Reads the prefix integer with an `n`-bit prefix at `off`.
pub fn decode_integer_at(input: &[u8], off: usize, n: u8) -> (r: Option<(u64, usize)>)
    ensures
        match r {
            Some((v, e)) => int_of(input@, off as int, n) == Some((v as nat, e as int)),
            None => int_of(input@, off as int, n) is None,
        },
{
    let len = input.len();
    if off >= len {
        return None;
    }
    let mask = prefix_mask_of(n);
    let p = input[off] & mask;
    if p < mask {
        return Some((p as u64, off + 1));
    }
    let mut t = off + 1;
    while t < len && t - off <= 5 && input[t] >= 128
        invariant
            off < len,
            len == input@.len(),
            off + 1 <= t,
            t <= off + 6,
            cont_end(input@, off as int + 1, off as int) == cont_end(input@, t as int, off as int),
        decreases off + 6 - t,
    {
        t = t + 1;
    }
    if t >= len || t - off > 5 {
        return None;
    }
    let mut v: u64 = 0;
    let mut j = t + 1;
    proof {
        reveal_with_fuel(p128, 6);
    }
    while j > off + 1
        invariant
            off + 1 <= j <= t + 1,
            t < len,
            t <= off + 5,
            len == input@.len(),
            v as nat == cont_value(input@, j as int, t as int),
            v < p128((t + 1 - j) as nat),
            p128(5) == 34359738368,
        decreases j,
    {
        j = j - 1;
        let byte = input[j];
        let d = byte & 127u8;
        assert(d <= 127u8) by (bit_vector)
            requires
                d == byte & 127u8,
        ;
        proof {
            lemma_p128_mono((t - j) as nat, 4);
        }
        let ghost k = (t - j) as nat;
        assert((d as nat) + 128 * (v as nat) < p128(k + 1)) by (nonlinear_arith)
            requires
                v < p128(k),
                d <= 127,
                p128(k + 1) == 128 * p128(k),
        ;
        v = (d as u64) + 128 * v;
    }
    Some(((mask as u64) + v, t + 1))
}

proof fn lemma_p128_mono(a: nat, b: nat)
    requires
        a <= b,
    ensures
        p128(a) <= p128(b),
        p128(a) >= 1,
    decreases b,
{
    if a < b {
        lemma_p128_mono(a, (b - 1) as nat);
    } else if a > 0 {
        lemma_p128_mono((a - 1) as nat, (a - 1) as nat);
    }
}

/// A string literal at `off`: a Huffman flag, a 7-bit-prefix length and that
/// many bytes. Returns the (decoded) bytes and the position just past them.
pub open spec fn string_of(s: Seq<u8>, off: int) -> Option<(Seq<u8>, int)> {
    match int_of(s, off, 7) {
        None => None,
        Some((n, e)) => if e + n > s.len() {
            None
        } else {
            let raw = s.subrange(e, e + n);
            if s[off] & 128u8 != 0 {
                match huffman_decoded(raw) {
                    Some(d) => Some((d, e + n)),
                    None => None,
                }
            } else {
                Some((raw, e + n))
            }
        },
    }
}

/// Reads a string literal at `off`.
pub fn decode_string_at(input: &[u8], off: usize) -> (r: Option<(Vec<u8>, usize)>)
    ensures
        match r {
            Some((v, e)) => string_of(input@, off as int) == Some((v@, e as int)),
            None => string_of(input@, off as int) is None,
        },
{
    let (n, e) = match decode_integer_at(input, off, 7) {
        None => {
            return None;
        },
        Some(x) => x,
    };
    let len = input.len();
    if e > len || n > (len - e) as u64 {
        return None;
    }
    let n = n as usize;
    let raw = slice_subrange(input, e, e + n);
    if input[off] & 128u8 != 0 {
        match huffman_decode(raw) {
            Some(d) => Some((d, e + n)),
            None => None,
        }
    } else {
        let mut v: Vec<u8> = Vec::new();
        append_bytes(&mut v, raw);
        assert(v@ =~= raw@);
        Some((v, e + n))
    }
}

/// The number of bytes an entry counts against the table budget.
pub open spec fn entry_size(e: (Seq<u8>, Seq<u8>)) -> nat {
    32 + e.0.len() + e.1.len()
}

/// The budget used by a table.
pub open spec fn table_size(t: Seq<(Seq<u8>, Seq<u8>)>) -> nat
    decreases t.len(),
{
    if t.len() == 0 {
        0
    } else {
        table_size(t.drop_last()) + entry_size(t.last())
    }
}

/// The table after evicting its oldest entries until it fits `budget`.
pub open spec fn evict(t: Seq<(Seq<u8>, Seq<u8>)>, budget: nat) -> Seq<(Seq<u8>, Seq<u8>)>
    decreases t.len(),
{
    if table_size(t) <= budget || t.len() == 0 {
        t
    } else {
        evict(t.drop_last(), budget)
    }
}

/// The table after inserting `e` as its newest entry under budget `max`:
/// older entries are evicted until it fits, and an entry larger than the
/// whole budget empties the table without being inserted.
pub open spec fn insert_entry(
    t: Seq<(Seq<u8>, Seq<u8>)>,
    max: nat,
    e: (Seq<u8>, Seq<u8>),
) -> Seq<(Seq<u8>, Seq<u8>)> {
    if entry_size(e) > max {
        seq![]
    } else {
        seq![e] + evict(t, (max - entry_size(e)) as nat)
    }
}

pub proof fn lemma_evict_fits(t: Seq<(Seq<u8>, Seq<u8>)>, budget: nat)
    ensures
        table_size(evict(t, budget)) <= budget,
    decreases t.len(),
{
    if table_size(t) <= budget || t.len() == 0 {
    } else {
        lemma_evict_fits(t.drop_last(), budget);
    }
}

pub proof fn lemma_size_prepend(e: (Seq<u8>, Seq<u8>), t: Seq<(Seq<u8>, Seq<u8>)>)
    ensures
        table_size(seq![e] + t) == entry_size(e) + table_size(t),
    decreases t.len(),
{
    if t.len() == 0 {
        assert(seq![e] + t =~= seq![e]);
        assert(seq![e].drop_last() =~= Seq::<(Seq<u8>, Seq<u8>)>::empty());
        assert(table_size(seq![e]) == table_size(seq![e].drop_last()) + entry_size(seq![e].last()));
    } else {
        let u = seq![e] + t;
        assert(u.drop_last() =~= seq![e] + t.drop_last());
        assert(u.last() == t.last());
        lemma_size_prepend(e, t.drop_last());
        assert(table_size(u) == table_size(u.drop_last()) + entry_size(u.last()));
    }
}

/// The dynamic table never exceeds its budget: inserting an entry into a
/// table yields one whose size is within the budget.
pub proof fn lemma_insert_within_budget(
    t: Seq<(Seq<u8>, Seq<u8>)>,
    max: nat,
    e: (Seq<u8>, Seq<u8>),
)
    ensures
        table_size(insert_entry(t, max, e)) <= max,
{
    if entry_size(e) <= max {
        let b = (max - entry_size(e)) as nat;
        lemma_evict_fits(t, b);
        lemma_size_prepend(e, evict(t, b));
    }
}


/// Decoding a header block keeps the dynamic table within its budget, and
/// the budget within the advertised maximum, after every field.
pub proof fn lemma_block_keeps_budget(
    st: DecoderView,
    s: Seq<u8>,
    off: int,
    acc: Seq<(Seq<u8>, Seq<u8>)>,
)
    requires
        table_size(st.table) <= st.max_size,
        st.max_size <= st.settings_max,
        block_of(st, s, off, acc) is Ok,
    ensures
        table_size(block_of(st, s, off, acc)->Ok_0.1.table) <= block_of(st, s, off, acc)->Ok_0.1.max_size,
        block_of(st, s, off, acc)->Ok_0.1.max_size <= block_of(st, s, off, acc)->Ok_0.1.settings_max,
    decreases s.len() - off,
{
    if off < 0 || off >= s.len() {
    } else {
        let b = s[off];
        if b & 128u8 != 0 {
            match int_of(s, off, 7) {
                None => {},
                Some((i, e)) => match lookup(st.table, i) {
                    None => {},
                    Some(h) => if !(e <= off || e > s.len()) {
                        lemma_block_keeps_budget(st, s, e, acc.push(h));
                    },
                },
            }
        } else if b & 64u8 != 0 {
            match literal_of(st.table, s, off, 6) {
                None => {},
                Some((h, e)) => if !(e <= off || e > s.len()) {
                    lemma_insert_within_budget(st.table, st.max_size, h);
                    lemma_block_keeps_budget(
                        DecoderView { table: insert_entry(st.table, st.max_size, h), ..st },
                        s,
                        e,
                        acc.push(h),
                    );
                },
            }
        } else if b & 32u8 != 0 {
            match int_of(s, off, 5) {
                None => {},
                Some((v, e)) => if !(v > st.settings_max || e <= off || e > s.len()) {
                    lemma_evict_fits(st.table, v);
                    lemma_block_keeps_budget(
                        DecoderView { table: evict(st.table, v), max_size: v, ..st },
                        s,
                        e,
                        acc,
                    );
                },
            }
        } else {
            match literal_of(st.table, s, off, 4) {
                None => {},
                Some((h, e)) => if !(e <= off || e > s.len()) {
                    lemma_block_keeps_budget(st, s, e, acc.push(h));
                },
            }
        }
    }
}

/// A decoder's state as plain values.
pub struct DecoderView {
    pub table: Seq<(Seq<u8>, Seq<u8>)>,
    pub max_size: nat,
    pub settings_max: nat,
}

/// The field that index `i` names: static entries 1 to 61, then the
/// dynamic table from its newest entry at 62.
pub open spec fn lookup(t: Seq<(Seq<u8>, Seq<u8>)>, i: nat) -> Option<(Seq<u8>, Seq<u8>)> {
    if i == 0 {
        None
    } else if i <= 61 {
        Some(static_entry(i as usize))
    } else if i - 62 < t.len() {
        Some(t[i - 62])
    } else {
        None
    }
}

/// A literal field at `off` whose name index has an `n`-bit prefix: the
/// field and the position just past it.
pub open spec fn literal_of(t: Seq<(Seq<u8>, Seq<u8>)>, s: Seq<u8>, off: int, n: u8) -> Option<
    ((Seq<u8>, Seq<u8>), int),
> {
    match int_of(s, off, n) {
        None => None,
        Some((idx, e1)) => if idx == 0 {
            match string_of(s, e1) {
                None => None,
                Some((name, e2)) => match string_of(s, e2) {
                    None => None,
                    Some((value, e3)) => Some(((name, value), e3)),
                },
            }
        } else {
            match lookup(t, idx) {
                None => None,
                Some(h) => match string_of(s, e1) {
                    None => None,
                    Some((value, e2)) => Some(((h.0, value), e2)),
                },
            }
        },
    }
}

/// Decodes the header block `s` from `off` on, starting in state `st`, with
/// `acc` the fields decoded so far: the fields and the final state.
pub open spec fn block_of(
    st: DecoderView,
    s: Seq<u8>,
    off: int,
    acc: Seq<(Seq<u8>, Seq<u8>)>,
) -> Result<(Seq<(Seq<u8>, Seq<u8>)>, DecoderView), Http2ParseError>
    decreases s.len() - off,
{
    if off < 0 || off >= s.len() {
        Ok((acc, st))
    } else {
        let b = s[off];
        if b & 128u8 != 0 {
            match int_of(s, off, 7) {
                None => Err(Http2ParseError::CompressionError),
                Some((i, e)) => match lookup(st.table, i) {
                    None => Err(Http2ParseError::CompressionError),
                    Some(h) => if e <= off || e > s.len() {
                        Err(Http2ParseError::CompressionError)
                    } else {
                        block_of(st, s, e, acc.push(h))
                    },
                },
            }
        } else if b & 64u8 != 0 {
            match literal_of(st.table, s, off, 6) {
                None => Err(Http2ParseError::CompressionError),
                Some((h, e)) => if e <= off || e > s.len() {
                    Err(Http2ParseError::CompressionError)
                } else {
                    block_of(
                        DecoderView { table: insert_entry(st.table, st.max_size, h), ..st },
                        s,
                        e,
                        acc.push(h),
                    )
                },
            }
        } else if b & 32u8 != 0 {
            match int_of(s, off, 5) {
                None => Err(Http2ParseError::CompressionError),
                Some((v, e)) => if v > st.settings_max || e <= off || e > s.len() {
                    Err(Http2ParseError::CompressionError)
                } else {
                    block_of(
                        DecoderView { table: evict(st.table, v), max_size: v, ..st },
                        s,
                        e,
                        acc,
                    )
                },
            }
        } else {
            match literal_of(st.table, s, off, 4) {
                None => Err(Http2ParseError::CompressionError),
                Some((h, e)) => if e <= off || e > s.len() {
                    Err(Http2ParseError::CompressionError)
                } else {
                    block_of(st, s, e, acc.push(h))
                },
            }
        }
    }
}


/// `x` stands in `s` at position `p`.
pub open spec fn bytes_at(s: Seq<u8>, p: int, x: Seq<u8>) -> bool {
    0 <= p && p + x.len() <= s.len() && s.subrange(p, p + x.len()) == x
}

proof fn lemma_bytes_at_split(s: Seq<u8>, p: int, a: Seq<u8>, b: Seq<u8>)
    requires
        bytes_at(s, p, a + b),
    ensures
        bytes_at(s, p, a),
        bytes_at(s, p + a.len(), b),
{
    let w = s.subrange(p, p + a.len() + b.len());
    assert(w == a + b);
    assert forall|i: int| 0 <= i < a.len() implies s.subrange(p, p + a.len())[i] == a[i] by {
        assert(w[i] == (a + b)[i]);
    }
    assert(s.subrange(p, p + a.len()) =~= a);
    assert forall|i: int| 0 <= i < b.len() implies s.subrange(p + a.len(), p + a.len() + b.len())[i] == b[i] by {
        assert(w[a.len() + i] == (a + b)[a.len() + i]);
    }
    assert(s.subrange(p + a.len(), p + a.len() + b.len()) =~= b);
}

proof fn lemma_bytes_at_index(s: Seq<u8>, p: int, x: Seq<u8>, i: int)
    requires
        bytes_at(s, p, x),
        0 <= i < x.len(),
    ensures
        s[p + i] == x[i],
{
    assert(s.subrange(p, p + x.len())[i] == s[p + i]);
}

/// Continuation bytes that carry `v`, seven bits each, low bits first.
pub open spec fn cont_bytes(v: nat) -> Seq<u8>
    decreases v,
{
    if v < 128 {
        seq![v as u8]
    } else {
        seq![((v % 128) + 128) as u8] + cont_bytes(v / 128)
    }
}

/// A string length as a 7-bit-prefix integer with the Huffman bit clear.
pub open spec fn length_prefix(n: nat) -> Seq<u8> {
    if n < 127 {
        seq![n as u8]
    } else {
        seq![127u8] + cont_bytes((n - 127) as nat)
    }
}

/// A string literal without Huffman coding.
pub open spec fn plain_string(b: Seq<u8>) -> Seq<u8> {
    length_prefix(b.len()) + b
}

/// A field as a literal without indexing, with a literal name.
pub open spec fn plain_field(h: (Seq<u8>, Seq<u8>)) -> Seq<u8> {
    seq![0u8] + plain_string(h.0) + plain_string(h.1)
}

/// A header list encoded field by field.
pub open spec fn plain_block(hs: Seq<(Seq<u8>, Seq<u8>)>) -> Seq<u8>
    decreases hs.len(),
{
    if hs.len() == 0 {
        seq![]
    } else {
        plain_field(hs[0]) + plain_block(hs.drop_first())
    }
}

proof fn lemma_cont_bytes(s: Seq<u8>, i: int, off: int, v: nat, k: nat)
    requires
        bytes_at(s, i, cont_bytes(v)),
        v < p128(k),
        k >= 1,
        off + 1 <= i,
        i + k <= off + 6,
    ensures
        cont_bytes(v).len() <= k,
        cont_end(s, i, off) == Some(i + cont_bytes(v).len() - 1),
        cont_value(s, i, i + cont_bytes(v).len() - 1) == v,
    decreases v,
{
    reveal_with_fuel(p128, 2);
    lemma_bytes_at_index(s, i, cont_bytes(v), 0);
    if v < 128 {
        let b = v as u8;
        assert(b & 127u8 == b) by (bit_vector)
            requires
                b < 128,
        ;
        assert(cont_value(s, i + 1, i) == 0);
    } else {
        let b = ((v % 128) + 128) as u8;
        let low = (v % 128) as u8;
        assert(b & 127u8 == low) by (bit_vector)
            requires
                b == low + 128,
                low < 128,
        ;
        assert(k >= 2) by {
            if k == 1 {
                assert(p128(1) == 128);
            }
        }
        assert(v / 128 < p128((k - 1) as nat)) by (nonlinear_arith)
            requires
                v < p128(k),
                p128(k) == 128 * p128((k - 1) as nat),
        ;
        lemma_bytes_at_split(s, i, seq![b], cont_bytes(v / 128));
        lemma_cont_bytes(s, i + 1, off, v / 128, (k - 1) as nat);
        assert(v == (v % 128) + 128 * (v / 128));
    }
}

proof fn lemma_string_at(s: Seq<u8>, off: int, b: Seq<u8>)
    requires
        bytes_at(s, off, plain_string(b)),
        b.len() < 34359738368,
    ensures
        string_of(s, off) == Some((b, off + plain_string(b).len())),
{
    let lp = length_prefix(b.len());
    lemma_bytes_at_split(s, off, lp, b);
    lemma_bytes_at_index(s, off, lp, 0);
    let first = s[off];
    if b.len() < 127 {
        assert(first & 127u8 == first && first & 128u8 == 0) by (bit_vector)
            requires
                first < 127,
        ;
    } else {
        assert(first & 127u8 == 127u8 && first & 128u8 == 0) by (bit_vector)
            requires
                first == 127,
        ;
        reveal_with_fuel(p128, 6);
        lemma_bytes_at_split(s, off, seq![127u8], cont_bytes((b.len() - 127) as nat));
        lemma_cont_bytes(s, off + 1, off, (b.len() - 127) as nat, 5);
    }
    assert(s.subrange(off + lp.len(), off + lp.len() + b.len()) == b);
}

proof fn lemma_field_at(t: Seq<(Seq<u8>, Seq<u8>)>, s: Seq<u8>, off: int, h: (Seq<u8>, Seq<u8>))
    requires
        bytes_at(s, off, plain_field(h)),
        h.0.len() < 34359738368,
        h.1.len() < 34359738368,
    ensures
        literal_of(t, s, off, 4) == Some((h, off + plain_field(h).len())),
        s[off] == 0u8,
{
    lemma_bytes_at_split(s, off, seq![0u8] + plain_string(h.0), plain_string(h.1));
    lemma_bytes_at_split(s, off, seq![0u8], plain_string(h.0));
    lemma_bytes_at_index(s, off, seq![0u8], 0);
    assert(0u8 & 15u8 == 0u8) by (bit_vector);
    lemma_string_at(s, off + 1, h.0);
    lemma_string_at(s, off + 1 + plain_string(h.0).len(), h.1);
}

/// HPACK round trip: a header list encoded as literal fields decodes back to
/// the same list, whatever the table holds, and leaves the table unchanged.
/// Only names and values shorter than 2^35 bytes are covered: longer ones
/// need more length bytes than the decoder reads.
pub proof fn lemma_plain_block_round_trip(
    st: DecoderView,
    hs: Seq<(Seq<u8>, Seq<u8>)>,
    s: Seq<u8>,
    off: int,
    acc: Seq<(Seq<u8>, Seq<u8>)>,
)
    requires
        forall|i: int| 0 <= i < hs.len() ==> (#[trigger] hs[i]).0.len() < 34359738368 && hs[i].1.len() < 34359738368,
        0 <= off,
        bytes_at(s, off, plain_block(hs)),
        off + plain_block(hs).len() == s.len(),
    ensures
        block_of(st, s, off, acc) == Ok::<(Seq<(Seq<u8>, Seq<u8>)>, DecoderView), Http2ParseError>((acc + hs, st)),
    decreases hs.len(),
{
    if hs.len() == 0 {
        assert(acc + hs =~= acc);
    } else {
        let h = hs[0];
        lemma_bytes_at_split(s, off, plain_field(h), plain_block(hs.drop_first()));
        lemma_field_at(st.table, s, off, h);
        let b = s[off];
        assert(b & 128u8 == 0 && b & 64u8 == 0 && b & 32u8 == 0) by (bit_vector)
            requires
                b == 0u8,
        ;
        assert forall|i: int| 0 <= i < hs.drop_first().len() implies (#[trigger] hs.drop_first()[i]).0.len()
            < 34359738368 && hs.drop_first()[i].1.len() < 34359738368 by {
            assert(hs.drop_first()[i] == hs[i + 1]);
        }
        lemma_plain_block_round_trip(st, hs.drop_first(), s, off + plain_field(h).len(), acc.push(h));
        assert(acc.push(h) + hs.drop_first() =~= acc + hs);
    }
}

/// The round trip for a whole block.
pub proof fn lemma_hpack_round_trip(st: DecoderView, hs: Seq<(Seq<u8>, Seq<u8>)>)
    requires
        forall|i: int| 0 <= i < hs.len() ==> (#[trigger] hs[i]).0.len() < 34359738368 && hs[i].1.len() < 34359738368,
    ensures
        block_of(st, plain_block(hs), 0, seq![]) == Ok::<(Seq<(Seq<u8>, Seq<u8>)>, DecoderView), Http2ParseError>((hs, st)),
{
    let s = plain_block(hs);
    assert(s.subrange(0, s.len() as int) =~= s);
    lemma_plain_block_round_trip(st, hs, s, 0, seq![]);
    assert(Seq::<(Seq<u8>, Seq<u8>)>::empty() + hs =~= hs);
}

/// A decoded field list as plain values.
pub open spec fn headers_seq(v: Seq<(Vec<u8>, Vec<u8>)>) -> Seq<(Seq<u8>, Seq<u8>)> {
    v.map_values(|h: (Vec<u8>, Vec<u8>)| (h.0@, h.1@))
}

#[derive(Debug, Clone)]
struct TableEntry {
    name: Vec<u8>,
    value: Vec<u8>,
}

/// HPACK decoder: the dynamic table, its budget and the largest budget that
/// a size update may set.
pub struct HpackDecoder {
    dynamic_table: Vec<TableEntry>,
    dynamic_table_size: usize,
    max_dynamic_table_size: usize,
    settings_max_size: usize,
}

spec fn entries_seq(v: Seq<TableEntry>) -> Seq<(Seq<u8>, Seq<u8>)> {
    v.map_values(|e: TableEntry| (e.name@, e.value@))
}

impl View for HpackDecoder {
    type V = DecoderView;

    closed spec fn view(&self) -> DecoderView {
        DecoderView {
            table: entries_seq(self.dynamic_table@),
            max_size: self.max_dynamic_table_size as nat,
            settings_max: self.settings_max_size as nat,
        }
    }
}

impl HpackDecoder {
    /// The recorded size is the table's size, within the budget, and the
    /// budget within the advertised maximum.
    pub closed spec fn wf(&self) -> bool {
        &&& self.dynamic_table_size == table_size(entries_seq(self.dynamic_table@))
        &&& self.dynamic_table_size <= self.max_dynamic_table_size
        &&& self.max_dynamic_table_size <= self.settings_max_size
    }

    /// The bytes the dynamic table currently uses.
    pub fn table_size(&self) -> (r: usize)
        requires
            self.wf(),
        ensures
            r == table_size(self@.table),
            r <= self@.max_size,
    {
        self.dynamic_table_size
    }

    /// The number of entries in the dynamic table.
    pub fn table_len(&self) -> (r: usize)
        ensures
            r == self@.table.len(),
    {
        self.dynamic_table.len()
    }

    /// An empty table whose budget and advertised maximum are `max_size`.
    pub fn new(max_size: usize) -> (r: Self)
        ensures
            r.wf(),
            r@.table == Seq::<(Seq<u8>, Seq<u8>)>::empty(),
            r@.max_size == max_size,
            r@.settings_max == max_size,
    {
        let r = HpackDecoder {
            dynamic_table: Vec::new(),
            dynamic_table_size: 0,
            max_dynamic_table_size: max_size,
            settings_max_size: max_size,
        };
        assert(entries_seq(r.dynamic_table@) =~= seq![]);
        r
    }

    /// A new advertised maximum; a budget above it is lowered to it, evicting
    /// entries as needed. The entries are otherwise kept.
    pub fn set_settings_max(&mut self, max_size: usize)
        requires
            old(self).wf(),
        ensures
            final(self).wf(),
            final(self)@.settings_max == max_size,
            final(self)@.max_size == if old(self)@.max_size <= max_size {
                old(self)@.max_size
            } else {
                max_size as nat
            },
            final(self)@.table == evict(old(self)@.table, final(self)@.max_size),
    {
        self.settings_max_size = max_size;
        if self.max_dynamic_table_size > max_size {
            self.max_dynamic_table_size = max_size;
        }
        self.evict_to(self.max_dynamic_table_size);
    }

    /// Evicts the oldest entries until the table fits `budget`.
    fn evict_to(&mut self, budget: usize)
        requires
            self.dynamic_table_size == table_size(entries_seq(old(self).dynamic_table@)),
        ensures
            final(self).dynamic_table_size == table_size(entries_seq(final(self).dynamic_table@)),
            final(self).dynamic_table_size <= budget,
            entries_seq(final(self).dynamic_table@) == evict(entries_seq(old(self).dynamic_table@), budget as nat),
            final(self).max_dynamic_table_size == old(self).max_dynamic_table_size,
            final(self).settings_max_size == old(self).settings_max_size,
    {
        while self.dynamic_table_size > budget && self.dynamic_table.len() > 0
            invariant
                self.dynamic_table_size == table_size(entries_seq(self.dynamic_table@)),
                evict(entries_seq(old(self).dynamic_table@), budget as nat) == evict(entries_seq(self.dynamic_table@), budget as nat),
                self.max_dynamic_table_size == old(self).max_dynamic_table_size,
                self.settings_max_size == old(self).settings_max_size,
            decreases self.dynamic_table@.len(),
        {
            let ghost before = entries_seq(self.dynamic_table@);
            let removed = self.dynamic_table.pop().unwrap();
            proof {
                assert(entries_seq(self.dynamic_table@) =~= before.drop_last());
                assert(before.last() == (removed.name@, removed.value@));
            }
            self.dynamic_table_size = self.dynamic_table_size - (32 + removed.name.len() + removed.value.len());
        }
        proof {
            if self.dynamic_table@.len() == 0 {
                assert(entries_seq(self.dynamic_table@) =~= seq![]);
            }
        }
    }

    /// Inserts a field as the newest entry, evicting as the budget requires.
    fn add_to_table(&mut self, name: Vec<u8>, value: Vec<u8>)
        requires
            old(self).wf(),
        ensures
            final(self).wf(),
            final(self)@ == (DecoderView {
                table: insert_entry(old(self)@.table, old(self)@.max_size, (name@, value@)),
                ..old(self)@
            }),
    {
        let max = self.max_dynamic_table_size;
        if name.len() > max || value.len() > max - name.len() || 32 > max - name.len() - value.len() {
            self.dynamic_table = Vec::new();
            self.dynamic_table_size = 0;
            proof {
                assert(entries_seq(self.dynamic_table@) =~= seq![]);
            }
            return;
        }
        let size = 32 + name.len() + value.len();
        self.evict_to(max - size);
        let ghost before = entries_seq(self.dynamic_table@);
        let ghost e = (name@, value@);
        self.dynamic_table.insert(0, TableEntry { name, value });
        proof {
            assert(entries_seq(self.dynamic_table@) =~= seq![e] + before);
            lemma_size_prepend(e, before);
        }
        self.dynamic_table_size = self.dynamic_table_size + size;
    }

    /// The field that index `index` names.
    fn get_indexed(&self, index: u64) -> (r: Option<(Vec<u8>, Vec<u8>)>)
        ensures
            match r {
                Some(h) => lookup(self@.table, index as nat) == Some((h.0@, h.1@)),
                None => lookup(self@.table, index as nat) is None,
            },
    {
        if index == 0 {
            return None;
        }
        if index <= 61 {
            return Some(static_entry_of(index as usize));
        }
        let d = index - 62;
        if d >= self.dynamic_table.len() as u64 {
            return None;
        }
        let entry = &self.dynamic_table[d as usize];
        let mut name: Vec<u8> = Vec::new();
        append_bytes(&mut name, entry.name.as_slice());
        let mut value: Vec<u8> = Vec::new();
        append_bytes(&mut value, entry.value.as_slice());
        proof {
            assert(name@ =~= entry.name@);
            assert(value@ =~= entry.value@);
            assert(entries_seq(self.dynamic_table@)[d as int] == (entry.name@, entry.value@));
        }
        Some((name, value))
    }

    /// Reads a literal field whose name index has an `n`-bit prefix.
    fn decode_literal(&self, input: &[u8], off: usize, n: u8) -> (r: Option<
        ((Vec<u8>, Vec<u8>), usize),
    >)
        ensures
            match r {
                Some((h, e)) => literal_of(self@.table, input@, off as int, n) == Some(
                    ((h.0@, h.1@), e as int),
                ),
                None => literal_of(self@.table, input@, off as int, n) is None,
            },
    {
        let (idx, e1) = match decode_integer_at(input, off, n) {
            None => {
                return None;
            },
            Some(x) => x,
        };
        if idx == 0 {
            let (name, e2) = match decode_string_at(input, e1) {
                None => {
                    return None;
                },
                Some(x) => x,
            };
            let (value, e3) = match decode_string_at(input, e2) {
                None => {
                    return None;
                },
                Some(x) => x,
            };
            Some(((name, value), e3))
        } else {
            let (name, _) = match self.get_indexed(idx) {
                None => {
                    return None;
                },
                Some(h) => h,
            };
            let (value, e2) = match decode_string_at(input, e1) {
                None => {
                    return None;
                },
                Some(x) => x,
            };
            Some(((name, value), e2))
        }
    }

    /// Decodes a header block into its fields, updating the dynamic table.
    pub fn decode(&mut self, input: &[u8]) -> (r: Result<Vec<(Vec<u8>, Vec<u8>)>, Http2ParseError>)
        requires
            old(self).wf(),
        ensures
            final(self).wf(),
            match r {
                Ok(hs) => block_of(old(self)@, input@, 0, seq![]) == Ok::<
                    (Seq<(Seq<u8>, Seq<u8>)>, DecoderView),
                    Http2ParseError,
                >((headers_seq(hs@), final(self)@)),
                Err(e) => block_of(old(self)@, input@, 0, seq![]) == Err::<
                    (Seq<(Seq<u8>, Seq<u8>)>, DecoderView),
                    Http2ParseError,
                >(e),
            },
    {
        let mut headers: Vec<(Vec<u8>, Vec<u8>)> = Vec::new();
        let mut off: usize = 0;
        let ghost s = input@;
        assert(headers_seq(headers@) =~= seq![]);
        while off < input.len()
            invariant
                s == input@,
                self.wf(),
                off <= s.len(),
                block_of(old(self)@, s, 0, seq![]) == block_of(self@, s, off as int, headers_seq(headers@)),
            decreases s.len() - off,
        {
            let b = input[off];
            let ghost before = headers@;
            if b & 128u8 != 0 {
                let (i, e) = match decode_integer_at(input, off, 7) {
                    None => {
                        return Err(Http2ParseError::CompressionError);
                    },
                    Some(x) => x,
                };
                let h = match self.get_indexed(i) {
                    None => {
                        return Err(Http2ParseError::CompressionError);
                    },
                    Some(h) => h,
                };
                if e <= off || e > input.len() {
                    return Err(Http2ParseError::CompressionError);
                }
                let ghost hv = (h.0@, h.1@);
                headers.push(h);
                proof {
                    assert(headers_seq(headers@) =~= headers_seq(before).push(hv));
                }
                off = e;
            } else if b & 64u8 != 0 {
                let (h, e) = match self.decode_literal(input, off, 6) {
                    None => {
                        return Err(Http2ParseError::CompressionError);
                    },
                    Some(x) => x,
                };
                if e <= off || e > input.len() {
                    return Err(Http2ParseError::CompressionError);
                }
                let ghost hv = (h.0@, h.1@);
                let mut name: Vec<u8> = Vec::new();
                append_bytes(&mut name, h.0.as_slice());
                let mut value: Vec<u8> = Vec::new();
                append_bytes(&mut value, h.1.as_slice());
                assert(name@ =~= hv.0);
                assert(value@ =~= hv.1);
                self.add_to_table(name, value);
                headers.push(h);
                proof {
                    assert(headers_seq(headers@) =~= headers_seq(before).push(hv));
                }
                off = e;
            } else if b & 32u8 != 0 {
                let (v, e) = match decode_integer_at(input, off, 5) {
                    None => {
                        return Err(Http2ParseError::CompressionError);
                    },
                    Some(x) => x,
                };
                if v > self.settings_max_size as u64 || e <= off || e > input.len() {
                    return Err(Http2ParseError::CompressionError);
                }
                self.max_dynamic_table_size = v as usize;
                self.evict_to(v as usize);
                off = e;
            } else {
                let (h, e) = match self.decode_literal(input, off, 4) {
                    None => {
                        return Err(Http2ParseError::CompressionError);
                    },
                    Some(x) => x,
                };
                if e <= off || e > input.len() {
                    return Err(Http2ParseError::CompressionError);
                }
                let ghost hv = (h.0@, h.1@);
                headers.push(h);
                proof {
                    assert(headers_seq(headers@) =~= headers_seq(before).push(hv));
                }
                off = e;
            }
        }
        Ok(headers)
    }

    /// Reads a prefix integer with a `prefix_bits`-bit prefix from the start
    /// of `input`.
    pub fn decode_integer(&self, input: &[u8], prefix_bits: u8) -> (r: Result<u64, Http2ParseError>)
        ensures
            match r {
                Ok(v) => int_of(input@, 0, prefix_bits) is Some && int_of(input@, 0, prefix_bits).unwrap().0
                    == v as nat,
                Err(err) => int_of(input@, 0, prefix_bits) is None && err
                    == Http2ParseError::InvalidHeaderBlock,
            },
    {
        match decode_integer_at(input, 0, prefix_bits) {
            Some((v, e)) => {
                assert(int_of(input@, 0, prefix_bits) == Some((v as nat, e as int)));
                Ok(v)
            },
            None => Err(Http2ParseError::InvalidHeaderBlock),
        }
    }

    /// Reads a prefix integer from the start of `input`, with the number of
    /// bytes its encoding takes.
    pub fn decode_integer_len(&self, input: &[u8], prefix_bits: u8) -> (r: Result<
        (u64, usize),
        Http2ParseError,
    >)
        ensures
            match r {
                Ok((v, n)) => int_of(input@, 0, prefix_bits) == Some((v as nat, n as int)),
                Err(err) => int_of(input@, 0, prefix_bits) is None && err
                    == Http2ParseError::InvalidHeaderBlock,
            },
    {
        match decode_integer_at(input, 0, prefix_bits) {
            Some(x) => Ok(x),
            None => Err(Http2ParseError::InvalidHeaderBlock),
        }
    }
}

} // verus!
