//! Pre-baked ROM images.

use vstd::prelude::*;

verus! {

/// The seven-segment pattern of a decimal digit.
pub open spec fn digit_pattern(d: int) -> u8 {
    if d == 0 {
        0b11100111
    } else if d == 1 {
        0b10000100
    } else if d == 2 {
        0b11010011
    } else if d == 3 {
        0b11010110
    } else if d == 4 {
        0b10110100
    } else if d == 5 {
        0b01110110
    } else if d == 6 {
        0b01110111
    } else if d == 7 {
        0b11000100
    } else if d == 8 {
        0b11110111
    } else {
        0b11110100
    }
}

/// The display ROM byte at address `i`: bits 8-9 pick a place (blank,
/// hundreds, tens, ones) and bits 0-7 the number shown.
pub open spec fn segment_byte(i: int) -> u8 {
    let place = i / 256;
    let number = i % 256;
    if place == 0 {
        0
    } else if place == 1 {
        digit_pattern(number / 100)
    } else if place == 2 {
        digit_pattern((number / 10) % 10)
    } else {
        digit_pattern(number % 10)
    }
}

fn digit(d: usize) -> (r: u8)
    requires
        d < 10,
    ensures
        r == digit_pattern(d as int),
{
    let digits: [u8; 10] = [
        0b11100111,
        0b10000100,
        0b11010011,
        0b11010110,
        0b10110100,
        0b01110110,
        0b01110111,
        0b11000100,
        0b11110111,
        0b11110100,
    ];
    digits[d]
}

/// The ROM of the seven-segment decoder for numbers 0 to 255.
pub fn segment_display() -> (r: Vec<u8>)
    ensures
        r@.len() == 1024,
        forall|i: int| 0 <= i < 1024 ==> #[trigger] r@[i] == segment_byte(i),
{
    let mut result: Vec<u8> = Vec::new();
    let mut i: usize = 0;
    while i < 1024
        invariant
            i <= 1024,
            result@.len() == i,
            forall|k: int| 0 <= k < i ==> #[trigger] result@[k] == segment_byte(k),
        decreases 1024 - i,
    {
        let place = i / 256;
        let number = i % 256;
        let byte = if place == 0 {
            0
        } else if place == 1 {
            digit(number / 100)
        } else if place == 2 {
            digit((number / 10) % 10)
        } else {
            digit(number % 10)
        };
        result.push(byte);
        i = i + 1;
    }
    result
}

} // verus!
