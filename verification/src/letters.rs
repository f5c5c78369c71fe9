//! The case of letters.

use crate::text::append_chars;
use vstd::prelude::*;

verus! {

/// Whether a code point is a Unicode scalar value.
pub open spec fn is_scalar(code: int) -> bool {
    0 <= code <= 0xd7ff || 0xe000 <= code <= 0x10ffff
}

/// `char::from_u32`: the character with a code point, and `None` when the code
/// point is not a Unicode scalar value.
pub assume_specification[ char::from_u32 ](i: u32) -> (c: Option<char>)
    ensures
        c == (if is_scalar(i as int) {
            Some(i as char)
        } else {
            None
        }),
;

/// Whether a code point lies where each upper-case letter has an even code
/// point, followed by its lower-case letter.
pub open spec fn is_pair_from_even(code: u32) -> bool {
    ||| 0x100 <= code <= 0x12f
    ||| 0x132 <= code <= 0x137
    ||| 0x14a <= code <= 0x177
    ||| 0x182 <= code <= 0x185
    ||| 0x198 <= code <= 0x199
    ||| 0x1a0 <= code <= 0x1a5
    ||| 0x1ac <= code <= 0x1ad
    ||| 0x1b8 <= code <= 0x1b9
    ||| 0x1bc <= code <= 0x1bd
    ||| 0x1c4 <= code <= 0x1c5
    ||| 0x1ca <= code <= 0x1cb
    ||| 0x1de <= code <= 0x1ef
    ||| 0x1f4 <= code <= 0x1f5
    ||| 0x1f8 <= code <= 0x21f
    ||| 0x222 <= code <= 0x233
    ||| 0x246 <= code <= 0x24f
    ||| 0x370 <= code <= 0x373
    ||| 0x376 <= code <= 0x377
    ||| 0x3d8 <= code <= 0x3ef
    ||| 0x3fa <= code <= 0x3fb
    ||| 0x460 <= code <= 0x481
    ||| 0x48a <= code <= 0x4bf
    ||| 0x4d0 <= code <= 0x52f
    ||| 0x1e00 <= code <= 0x1e95
    ||| 0x1ea0 <= code <= 0x1eff
    ||| 0x2c60 <= code <= 0x2c61
    ||| 0x2c72 <= code <= 0x2c73
    ||| 0x2c80 <= code <= 0x2ce3
    ||| 0x2cf2 <= code <= 0x2cf3
    ||| 0xa640 <= code <= 0xa66d
    ||| 0xa680 <= code <= 0xa69b
    ||| 0xa722 <= code <= 0xa72f
    ||| 0xa732 <= code <= 0xa76f
    ||| 0xa77e <= code <= 0xa787
    ||| 0xa790 <= code <= 0xa793
    ||| 0xa796 <= code <= 0xa7a9
    ||| 0xa7b4 <= code <= 0xa7c3
    ||| 0xa7cc <= code <= 0xa7db
}

/// Whether a code point lies where each upper-case letter has an odd code
/// point, followed by its lower-case letter.
pub open spec fn is_pair_from_odd(code: u32) -> bool {
    ||| 0x139 <= code <= 0x148
    ||| 0x179 <= code <= 0x17e
    ||| 0x187 <= code <= 0x188
    ||| 0x18b <= code <= 0x18c
    ||| 0x191 <= code <= 0x192
    ||| 0x1a7 <= code <= 0x1a8
    ||| 0x1af <= code <= 0x1b0
    ||| 0x1b3 <= code <= 0x1b6
    ||| 0x1c7 <= code <= 0x1c8
    ||| 0x1cd <= code <= 0x1dc
    ||| 0x1f1 <= code <= 0x1f2
    ||| 0x23b <= code <= 0x23c
    ||| 0x241 <= code <= 0x242
    ||| 0x3f7 <= code <= 0x3f8
    ||| 0x4c1 <= code <= 0x4ce
    ||| 0x1c89 <= code <= 0x1c8a
    ||| 0x2183 <= code <= 0x2184
    ||| 0x2c67 <= code <= 0x2c6c
    ||| 0x2c75 <= code <= 0x2c76
    ||| 0x2ceb <= code <= 0x2cee
    ||| 0xa779 <= code <= 0xa77c
    ||| 0xa78b <= code <= 0xa78c
    ||| 0xa7c7 <= code <= 0xa7ca
    ||| 0xa7f5 <= code <= 0xa7f6
}

/// How far the upper-case letter lies before its lower-case letter, in the
/// alphabets whose letters of each case lie side by side. The distance is
/// negative where the upper case comes behind.
pub open spec fn case_distance(code: u32) -> int {
    if 0x61 <= code <= 0x7a
        || 0xe0 <= code <= 0xf6
        || 0xf8 <= code <= 0xfe
        || 0x3b1 <= code <= 0x3c1
        || 0x3c3 <= code <= 0x3cb
        || 0x430 <= code <= 0x44f
        || 0xff41 <= code <= 0xff5a
        || 0x10d70 <= code <= 0x10d85
        || 0x118c0 <= code <= 0x118df
        || 0x16e60 <= code <= 0x16e7f
    {
        32
    } else if 0x23f <= code <= 0x240 {
        -10815
    } else if 0x256 <= code <= 0x257 {
        205
    } else if 0x28a <= code <= 0x28b {
        217
    } else if 0x37b <= code <= 0x37d {
        -130
    } else if 0x3ad <= code <= 0x3af {
        37
    } else if 0x3cd <= code <= 0x3ce {
        63
    } else if 0x450 <= code <= 0x45f {
        80
    } else if 0x561 <= code <= 0x586
        || 0x2c30 <= code <= 0x2c5f
    {
        48
    } else if 0x13f8 <= code <= 0x13fd {
        8
    } else if 0x1c83 <= code <= 0x1c84 {
        6242
    } else if 0x1f00 <= code <= 0x1f07
        || 0x1f10 <= code <= 0x1f15
        || 0x1f20 <= code <= 0x1f27
        || 0x1f30 <= code <= 0x1f37
        || 0x1f40 <= code <= 0x1f45
        || 0x1f60 <= code <= 0x1f67
        || 0x1fb0 <= code <= 0x1fb1
        || 0x1fd0 <= code <= 0x1fd1
        || 0x1fe0 <= code <= 0x1fe1
    {
        -8
    } else if 0x1f70 <= code <= 0x1f71 {
        -74
    } else if 0x1f72 <= code <= 0x1f75 {
        -86
    } else if 0x1f76 <= code <= 0x1f77 {
        -100
    } else if 0x1f78 <= code <= 0x1f79 {
        -128
    } else if 0x1f7a <= code <= 0x1f7b {
        -112
    } else if 0x1f7c <= code <= 0x1f7d {
        -126
    } else if 0x2170 <= code <= 0x217f {
        16
    } else if 0x24d0 <= code <= 0x24e9 {
        26
    } else if 0x2d00 <= code <= 0x2d25 {
        7264
    } else if 0xab70 <= code <= 0xabbf {
        38864
    } else if 0x10428 <= code <= 0x1044f
        || 0x104d8 <= code <= 0x104fb
    {
        40
    } else if 0x10597 <= code <= 0x105a1
        || 0x105a3 <= code <= 0x105b1
        || 0x105b3 <= code <= 0x105b9
        || 0x105bb <= code <= 0x105bc
    {
        39
    } else if 0x10cc0 <= code <= 0x10cf2 {
        64
    } else if 0x16ebb <= code <= 0x16ed3 {
        27
    } else if 0x1e922 <= code <= 0x1e943 {
        34
    } else {
        0
    }
}

/// The upper case of the Latin letters that follow no pattern.
pub open spec fn single_latin(code: u32) -> u32 {
    match code {
        0xb5 => 0x39c,
        0xff => 0x178,
        0x131 => 0x49,
        0x17f => 0x53,
        0x180 => 0x243,
        0x195 => 0x1f6,
        0x19a => 0x23d,
        0x19b => 0xa7dc,
        0x19e => 0x220,
        0x1bf => 0x1f7,
        0x1c6 => 0x1c4,
        0x1c9 => 0x1c7,
        0x1cc => 0x1ca,
        0x1dd => 0x18e,
        0x1f3 => 0x1f1,
        0x250 => 0x2c6f,
        0x251 => 0x2c6d,
        0x252 => 0x2c70,
        0x253 => 0x181,
        0x254 => 0x186,
        0x259 => 0x18f,
        0x25b => 0x190,
        0x25c => 0xa7ab,
        0x260 => 0x193,
        0x261 => 0xa7ac,
        0x263 => 0x194,
        0x264 => 0xa7cb,
        0x265 => 0xa78d,
        0x266 => 0xa7aa,
        0x268 => 0x197,
        0x269 => 0x196,
        0x26a => 0xa7ae,
        0x26b => 0x2c62,
        0x26c => 0xa7ad,
        0x26f => 0x19c,
        0x271 => 0x2c6e,
        0x272 => 0x19d,
        0x275 => 0x19f,
        0x27d => 0x2c64,
        0x280 => 0x1a6,
        0x282 => 0xa7c5,
        0x283 => 0x1a9,
        0x287 => 0xa7b1,
        0x288 => 0x1ae,
        0x289 => 0x244,
        0x28c => 0x245,
        0x292 => 0x1b7,
        0x29d => 0xa7b2,
        0x29e => 0xa7b0,
        0x1d79 => 0xa77d,
        0x1d7d => 0x2c63,
        0x1d8e => 0xa7c6,
        0x1e9b => 0x1e60,
        0x214e => 0x2132,
        0x2c65 => 0x23a,
        0x2c66 => 0x23e,
        0xa794 => 0xa7c4,
        0xab53 => 0xa7b3,
        other => other,
    }
}

/// The upper case of the other letters that follow no pattern.
pub open spec fn single_other(code: u32) -> u32 {
    match code {
        0x345 => 0x399,
        0x3ac => 0x386,
        0x3c2 => 0x3a3,
        0x3cc => 0x38c,
        0x3d0 => 0x392,
        0x3d1 => 0x398,
        0x3d5 => 0x3a6,
        0x3d6 => 0x3a0,
        0x3d7 => 0x3cf,
        0x3f0 => 0x39a,
        0x3f1 => 0x3a1,
        0x3f2 => 0x3f9,
        0x3f3 => 0x37f,
        0x3f5 => 0x395,
        0x4cf => 0x4c0,
        0x1c80 => 0x412,
        0x1c81 => 0x414,
        0x1c82 => 0x41e,
        0x1c85 => 0x422,
        0x1c86 => 0x42a,
        0x1c87 => 0x462,
        0x1c88 => 0xa64a,
        0x1f51 => 0x1f59,
        0x1f53 => 0x1f5b,
        0x1f55 => 0x1f5d,
        0x1f57 => 0x1f5f,
        0x1fbe => 0x399,
        0x1fe5 => 0x1fec,
        0x2d27 => 0x10c7,
        0x2d2d => 0x10cd,
        other => other,
    }
}

/// The code point of a letter in upper case: what Unicode gives as its upper
/// case, where that is one letter. What has none, or several letters in its
/// place, stays as it is. So do Georgian letters, which page titles start with
/// as they are.
pub open spec fn raised_code(code: u32) -> int {
    if is_pair_from_even(code) {
        code - code % 2
    } else if is_pair_from_odd(code) {
        code - (code + 1) % 2
    } else if case_distance(code) != 0 {
        code - case_distance(code)
    } else if single_latin(code) != code {
        single_latin(code) as int
    } else {
        single_other(code) as int
    }
}

/// A character in upper case.
pub open spec fn raised_char(c: char) -> char {
    raised_code(c as u32) as char
}

/// A text with its first character in upper case.
pub open spec fn raised(s: Seq<char>) -> Seq<char> {
    if s.len() > 0 {
        s.update(0, raised_char(s[0]))
    } else {
        s
    }
}

/// Whether a code point is that of an upper-case letter, or of something
/// without case: it is its own upper case, and it is not white space and not an
/// underscore.
pub open spec fn is_raised_letter(code: int) -> bool {
    &&& 0 <= code <= u32::MAX
    &&& is_scalar(code)
    &&& raised_code(code as u32) == code
    &&& !crate::text::is_white_space(code as char)
    &&& code != 0x5f
}

proof fn lemma_pairs(code: u32)
    requires
        is_pair_from_even(code) || is_pair_from_odd(code),
    ensures
        is_raised_letter(raised_code(code)),
{
}

proof fn lemma_alphabets(code: u32)
    requires
        case_distance(code) != 0,
        !is_pair_from_even(code),
        !is_pair_from_odd(code),
    ensures
        is_raised_letter(raised_code(code)),
{
}

proof fn lemma_single_latin(code: u32)
    requires
        single_latin(code) != code,
        !is_pair_from_even(code),
        !is_pair_from_odd(code),
        case_distance(code) == 0,
    ensures
        is_raised_letter(raised_code(code)),
{
}

proof fn lemma_single_other(code: u32)
    requires
        single_other(code) != code,
        !is_pair_from_even(code),
        !is_pair_from_odd(code),
        case_distance(code) == 0,
        single_latin(code) == code,
    ensures
        is_raised_letter(raised_code(code)),
{
}

proof fn lemma_raised_code(code: u32)
    requires
        is_scalar(code as int),
    ensures
        raised_code(code) == code || is_raised_letter(raised_code(code)),
{
    if is_pair_from_even(code) || is_pair_from_odd(code) {
        lemma_pairs(code);
    } else if case_distance(code) != 0 {
        lemma_alphabets(code);
    } else if single_latin(code) != code {
        lemma_single_latin(code);
    } else if single_other(code) != code {
        lemma_single_other(code);
    }
}

/// An upper-case letter stays as it is, and a letter stays a letter: neither
/// white space nor an underscore comes in.
pub proof fn raising_keeps_letters(c: char)
    ensures
        raised_char(raised_char(c)) == raised_char(c),
        crate::text::is_white_space(raised_char(c)) == crate::text::is_white_space(c),
        raised_char(c) == '_' ==> c == '_',
{
    lemma_raised_code(c as u32);
}

/// ASCII letters have their ASCII upper case, and other ASCII characters stay.
pub proof fn raising_ascii(c: char)
    requires
        (c as int) < 0x80,
    ensures
        raised_char(c) == crate::text::upper_char(c),
{
}

fn is_within(code: u32, first: u32, last: u32) -> (yes: bool)
    ensures
        yes == (first <= code <= last),
{
    first <= code && code <= last
}

fn find_pair_from_even(code: u32) -> (yes: bool)
    ensures
        yes == is_pair_from_even(code),
{
    is_within(code, 0x100, 0x12f)
    || is_within(code, 0x132, 0x137)
    || is_within(code, 0x14a, 0x177)
    || is_within(code, 0x182, 0x185)
    || is_within(code, 0x198, 0x199)
    || is_within(code, 0x1a0, 0x1a5)
    || is_within(code, 0x1ac, 0x1ad)
    || is_within(code, 0x1b8, 0x1b9)
    || is_within(code, 0x1bc, 0x1bd)
    || is_within(code, 0x1c4, 0x1c5)
    || is_within(code, 0x1ca, 0x1cb)
    || is_within(code, 0x1de, 0x1ef)
    || is_within(code, 0x1f4, 0x1f5)
    || is_within(code, 0x1f8, 0x21f)
    || is_within(code, 0x222, 0x233)
    || is_within(code, 0x246, 0x24f)
    || is_within(code, 0x370, 0x373)
    || is_within(code, 0x376, 0x377)
    || is_within(code, 0x3d8, 0x3ef)
    || is_within(code, 0x3fa, 0x3fb)
    || is_within(code, 0x460, 0x481)
    || is_within(code, 0x48a, 0x4bf)
    || is_within(code, 0x4d0, 0x52f)
    || is_within(code, 0x1e00, 0x1e95)
    || is_within(code, 0x1ea0, 0x1eff)
    || is_within(code, 0x2c60, 0x2c61)
    || is_within(code, 0x2c72, 0x2c73)
    || is_within(code, 0x2c80, 0x2ce3)
    || is_within(code, 0x2cf2, 0x2cf3)
    || is_within(code, 0xa640, 0xa66d)
    || is_within(code, 0xa680, 0xa69b)
    || is_within(code, 0xa722, 0xa72f)
    || is_within(code, 0xa732, 0xa76f)
    || is_within(code, 0xa77e, 0xa787)
    || is_within(code, 0xa790, 0xa793)
    || is_within(code, 0xa796, 0xa7a9)
    || is_within(code, 0xa7b4, 0xa7c3)
    || is_within(code, 0xa7cc, 0xa7db)
}

fn find_pair_from_odd(code: u32) -> (yes: bool)
    ensures
        yes == is_pair_from_odd(code),
{
    is_within(code, 0x139, 0x148)
    || is_within(code, 0x179, 0x17e)
    || is_within(code, 0x187, 0x188)
    || is_within(code, 0x18b, 0x18c)
    || is_within(code, 0x191, 0x192)
    || is_within(code, 0x1a7, 0x1a8)
    || is_within(code, 0x1af, 0x1b0)
    || is_within(code, 0x1b3, 0x1b6)
    || is_within(code, 0x1c7, 0x1c8)
    || is_within(code, 0x1cd, 0x1dc)
    || is_within(code, 0x1f1, 0x1f2)
    || is_within(code, 0x23b, 0x23c)
    || is_within(code, 0x241, 0x242)
    || is_within(code, 0x3f7, 0x3f8)
    || is_within(code, 0x4c1, 0x4ce)
    || is_within(code, 0x1c89, 0x1c8a)
    || is_within(code, 0x2183, 0x2184)
    || is_within(code, 0x2c67, 0x2c6c)
    || is_within(code, 0x2c75, 0x2c76)
    || is_within(code, 0x2ceb, 0x2cee)
    || is_within(code, 0xa779, 0xa77c)
    || is_within(code, 0xa78b, 0xa78c)
    || is_within(code, 0xa7c7, 0xa7ca)
    || is_within(code, 0xa7f5, 0xa7f6)
}

fn find_case_distance(code: u32) -> (distance: i32)
    ensures
        distance == case_distance(code),
{
    if is_within(code, 0x61, 0x7a)
        || is_within(code, 0xe0, 0xf6)
        || is_within(code, 0xf8, 0xfe)
        || is_within(code, 0x3b1, 0x3c1)
        || is_within(code, 0x3c3, 0x3cb)
        || is_within(code, 0x430, 0x44f)
        || is_within(code, 0xff41, 0xff5a)
        || is_within(code, 0x10d70, 0x10d85)
        || is_within(code, 0x118c0, 0x118df)
        || is_within(code, 0x16e60, 0x16e7f)
    {
        32
    } else if is_within(code, 0x23f, 0x240) {
        -10815
    } else if is_within(code, 0x256, 0x257) {
        205
    } else if is_within(code, 0x28a, 0x28b) {
        217
    } else if is_within(code, 0x37b, 0x37d) {
        -130
    } else if is_within(code, 0x3ad, 0x3af) {
        37
    } else if is_within(code, 0x3cd, 0x3ce) {
        63
    } else if is_within(code, 0x450, 0x45f) {
        80
    } else if is_within(code, 0x561, 0x586)
        || is_within(code, 0x2c30, 0x2c5f)
    {
        48
    } else if is_within(code, 0x13f8, 0x13fd) {
        8
    } else if is_within(code, 0x1c83, 0x1c84) {
        6242
    } else if is_within(code, 0x1f00, 0x1f07)
        || is_within(code, 0x1f10, 0x1f15)
        || is_within(code, 0x1f20, 0x1f27)
        || is_within(code, 0x1f30, 0x1f37)
        || is_within(code, 0x1f40, 0x1f45)
        || is_within(code, 0x1f60, 0x1f67)
        || is_within(code, 0x1fb0, 0x1fb1)
        || is_within(code, 0x1fd0, 0x1fd1)
        || is_within(code, 0x1fe0, 0x1fe1)
    {
        -8
    } else if is_within(code, 0x1f70, 0x1f71) {
        -74
    } else if is_within(code, 0x1f72, 0x1f75) {
        -86
    } else if is_within(code, 0x1f76, 0x1f77) {
        -100
    } else if is_within(code, 0x1f78, 0x1f79) {
        -128
    } else if is_within(code, 0x1f7a, 0x1f7b) {
        -112
    } else if is_within(code, 0x1f7c, 0x1f7d) {
        -126
    } else if is_within(code, 0x2170, 0x217f) {
        16
    } else if is_within(code, 0x24d0, 0x24e9) {
        26
    } else if is_within(code, 0x2d00, 0x2d25) {
        7264
    } else if is_within(code, 0xab70, 0xabbf) {
        38864
    } else if is_within(code, 0x10428, 0x1044f)
        || is_within(code, 0x104d8, 0x104fb)
    {
        40
    } else if is_within(code, 0x10597, 0x105a1)
        || is_within(code, 0x105a3, 0x105b1)
        || is_within(code, 0x105b3, 0x105b9)
        || is_within(code, 0x105bb, 0x105bc)
    {
        39
    } else if is_within(code, 0x10cc0, 0x10cf2) {
        64
    } else if is_within(code, 0x16ebb, 0x16ed3) {
        27
    } else if is_within(code, 0x1e922, 0x1e943) {
        34
    } else {
        0
    }
}

fn find_single_latin(code: u32) -> (upper: u32)
    ensures
        upper == single_latin(code),
{
    match code {
        0xb5 => 0x39c,
        0xff => 0x178,
        0x131 => 0x49,
        0x17f => 0x53,
        0x180 => 0x243,
        0x195 => 0x1f6,
        0x19a => 0x23d,
        0x19b => 0xa7dc,
        0x19e => 0x220,
        0x1bf => 0x1f7,
        0x1c6 => 0x1c4,
        0x1c9 => 0x1c7,
        0x1cc => 0x1ca,
        0x1dd => 0x18e,
        0x1f3 => 0x1f1,
        0x250 => 0x2c6f,
        0x251 => 0x2c6d,
        0x252 => 0x2c70,
        0x253 => 0x181,
        0x254 => 0x186,
        0x259 => 0x18f,
        0x25b => 0x190,
        0x25c => 0xa7ab,
        0x260 => 0x193,
        0x261 => 0xa7ac,
        0x263 => 0x194,
        0x264 => 0xa7cb,
        0x265 => 0xa78d,
        0x266 => 0xa7aa,
        0x268 => 0x197,
        0x269 => 0x196,
        0x26a => 0xa7ae,
        0x26b => 0x2c62,
        0x26c => 0xa7ad,
        0x26f => 0x19c,
        0x271 => 0x2c6e,
        0x272 => 0x19d,
        0x275 => 0x19f,
        0x27d => 0x2c64,
        0x280 => 0x1a6,
        0x282 => 0xa7c5,
        0x283 => 0x1a9,
        0x287 => 0xa7b1,
        0x288 => 0x1ae,
        0x289 => 0x244,
        0x28c => 0x245,
        0x292 => 0x1b7,
        0x29d => 0xa7b2,
        0x29e => 0xa7b0,
        0x1d79 => 0xa77d,
        0x1d7d => 0x2c63,
        0x1d8e => 0xa7c6,
        0x1e9b => 0x1e60,
        0x214e => 0x2132,
        0x2c65 => 0x23a,
        0x2c66 => 0x23e,
        0xa794 => 0xa7c4,
        0xab53 => 0xa7b3,
        other => other,
    }
}

fn find_single_other(code: u32) -> (upper: u32)
    ensures
        upper == single_other(code),
{
    match code {
        0x345 => 0x399,
        0x3ac => 0x386,
        0x3c2 => 0x3a3,
        0x3cc => 0x38c,
        0x3d0 => 0x392,
        0x3d1 => 0x398,
        0x3d5 => 0x3a6,
        0x3d6 => 0x3a0,
        0x3d7 => 0x3cf,
        0x3f0 => 0x39a,
        0x3f1 => 0x3a1,
        0x3f2 => 0x3f9,
        0x3f3 => 0x37f,
        0x3f5 => 0x395,
        0x4cf => 0x4c0,
        0x1c80 => 0x412,
        0x1c81 => 0x414,
        0x1c82 => 0x41e,
        0x1c85 => 0x422,
        0x1c86 => 0x42a,
        0x1c87 => 0x462,
        0x1c88 => 0xa64a,
        0x1f51 => 0x1f59,
        0x1f53 => 0x1f5b,
        0x1f55 => 0x1f5d,
        0x1f57 => 0x1f5f,
        0x1fbe => 0x399,
        0x1fe5 => 0x1fec,
        0x2d27 => 0x10c7,
        0x2d2d => 0x10cd,
        other => other,
    }
}

fn find_raised_code(code: u32) -> (upper: u32)
    requires
        is_scalar(code as int),
    ensures
        upper == raised_code(code),
{
    let distance: i32 = find_case_distance(code);
    let latin: u32 = find_single_latin(code);
    if find_pair_from_even(code) {
        code - code % 2
    } else if find_pair_from_odd(code) {
        code - (code + 1) % 2
    } else if distance != 0 {
        proof {
            lemma_alphabets(code);
        }
        (code as i64 - distance as i64) as u32
    } else if latin != code {
        latin
    } else {
        find_single_other(code)
    }
}

/// Turn a character into upper case.
pub fn raise_char(c: char) -> (u: char)
    ensures
        u == raised_char(c),
{
    let upper: u32 = find_raised_code(c as u32);
    proof {
        lemma_raised_code(c as u32);
    }
    match char::from_u32(upper) {
        Some(u) => u,
        None => c,
    }
}

/// Turn the first character of a text into upper case.
pub fn raise(s: &[char]) -> (out: Vec<char>)
    ensures
        out@ == raised(s@),
{
    let mut out: Vec<char> = Vec::new();
    append_chars(&mut out, s);
    assert(out@ =~= s@);
    if out.len() > 0 {
        let first: char = raise_char(out[0]);
        out.set(0, first);
    }
    out
}

} // verus!
