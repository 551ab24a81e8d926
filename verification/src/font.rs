//! The font: characters of 6 by 7 dots in cells of 8 by 8, for capital letters
//! and digits.
use vstd::prelude::*;

verus! {

/// How many characters have a glyph.
pub const GLYPHS: usize = 36;

/// The rows of the glyphs, eight for each of the letters `A` to `Z` and the
/// digits `0` to `9`, top to bottom. The leftmost dot of a row is its highest
/// bit.
pub const ROWS: [u8; 288] = [
    // A
    0b0111_1000, 0b1000_0100, 0b1000_0100, 0b1111_1100,
    0b1000_0100, 0b1000_0100, 0b1000_0100, 0b0000_0000,
    // B
    0b1111_1000, 0b1000_0100, 0b1000_0100, 0b1111_1000,
    0b1000_0100, 0b1000_0100, 0b1111_1000, 0b0000_0000,
    // C
    0b0111_1000, 0b1000_0100, 0b1000_0000, 0b1000_0000,
    0b1000_0000, 0b1000_0100, 0b0111_1000, 0b0000_0000,
    // D
    0b1111_0000, 0b1000_1000, 0b1000_0100, 0b1000_0100,
    0b1000_0100, 0b1000_1000, 0b1111_0000, 0b0000_0000,
    // E
    0b1111_1100, 0b1000_0000, 0b1000_0000, 0b1111_1000,
    0b1000_0000, 0b1000_0000, 0b1111_1100, 0b0000_0000,
    // F
    0b1111_1100, 0b1000_0000, 0b1000_0000, 0b1111_1000,
    0b1000_0000, 0b1000_0000, 0b1000_0000, 0b0000_0000,
    // G
    0b0111_1000, 0b1000_0100, 0b1000_0000, 0b1001_1100,
    0b1000_0100, 0b1000_0100, 0b0111_1000, 0b0000_0000,
    // H
    0b1000_0100, 0b1000_0100, 0b1000_0100, 0b1111_1100,
    0b1000_0100, 0b1000_0100, 0b1000_0100, 0b0000_0000,
    // I
    0b1111_1100, 0b0011_0000, 0b0011_0000, 0b0011_0000,
    0b0011_0000, 0b0011_0000, 0b1111_1100, 0b0000_0000,
    // J
    0b0001_1100, 0b0000_1000, 0b0000_1000, 0b0000_1000,
    0b0000_1000, 0b1000_1000, 0b0111_0000, 0b0000_0000,
    // K
    0b1000_0100, 0b1000_1000, 0b1001_0000, 0b1110_0000,
    0b1001_0000, 0b1000_1000, 0b1000_0100, 0b0000_0000,
    // L
    0b1000_0000, 0b1000_0000, 0b1000_0000, 0b1000_0000,
    0b1000_0000, 0b1000_0000, 0b1111_1100, 0b0000_0000,
    // M
    0b1000_0100, 0b1100_1100, 0b1011_0100, 0b1000_0100,
    0b1000_0100, 0b1000_0100, 0b1000_0100, 0b0000_0000,
    // N
    0b1000_0100, 0b1100_0100, 0b1010_0100, 0b1001_0100,
    0b1000_1100, 0b1000_0100, 0b1000_0100, 0b0000_0000,
    // O
    0b0111_1000, 0b1000_0100, 0b1000_0100, 0b1000_0100,
    0b1000_0100, 0b1000_0100, 0b0111_1000, 0b0000_0000,
    // P
    0b1111_1000, 0b1000_0100, 0b1000_0100, 0b1111_1000,
    0b1000_0000, 0b1000_0000, 0b1000_0000, 0b0000_0000,
    // Q
    0b0111_1000, 0b1000_0100, 0b1000_0100, 0b1000_0100,
    0b1001_0100, 0b1000_1000, 0b0111_0100, 0b0000_0000,
    // R
    0b1111_1000, 0b1000_0100, 0b1000_0100, 0b1111_1000,
    0b1001_0000, 0b1000_1000, 0b1000_0100, 0b0000_0000,
    // S
    0b0111_1100, 0b1000_0000, 0b1000_0000, 0b0111_1000,
    0b0000_0100, 0b0000_0100, 0b1111_1000, 0b0000_0000,
    // T
    0b1111_1100, 0b0011_0000, 0b0011_0000, 0b0011_0000,
    0b0011_0000, 0b0011_0000, 0b0011_0000, 0b0000_0000,
    // U
    0b1000_0100, 0b1000_0100, 0b1000_0100, 0b1000_0100,
    0b1000_0100, 0b1000_0100, 0b0111_1000, 0b0000_0000,
    // V
    0b1000_0100, 0b1000_0100, 0b1000_0100, 0b0100_1000,
    0b0100_1000, 0b0011_0000, 0b0011_0000, 0b0000_0000,
    // W
    0b1000_0100, 0b1000_0100, 0b1000_0100, 0b1001_0100,
    0b1011_0100, 0b1110_1100, 0b1000_0100, 0b0000_0000,
    // X
    0b1000_0100, 0b0100_1000, 0b0011_0000, 0b0011_0000,
    0b0011_0000, 0b0100_1000, 0b1000_0100, 0b0000_0000,
    // Y
    0b1000_0100, 0b1000_0100, 0b0100_1000, 0b0011_0000,
    0b0011_0000, 0b0011_0000, 0b0011_0000, 0b0000_0000,
    // Z
    0b1111_1100, 0b0000_0100, 0b0000_1000, 0b0001_0000,
    0b0110_0000, 0b1000_0000, 0b1111_1100, 0b0000_0000,
    // 0
    0b0111_1000, 0b1000_1100, 0b1001_0100, 0b1001_0100,
    0b1010_0100, 0b1100_0100, 0b0111_1000, 0b0000_0000,
    // 1
    0b0011_0000, 0b0111_0000, 0b0011_0000, 0b0011_0000,
    0b0011_0000, 0b0011_0000, 0b1111_1100, 0b0000_0000,
    // 2
    0b0111_1000, 0b1000_0100, 0b0000_0100, 0b0001_1000,
    0b0110_0000, 0b1000_0000, 0b1111_1100, 0b0000_0000,
    // 3
    0b0111_1000, 0b1000_0100, 0b0000_0100, 0b0011_1000,
    0b0000_0100, 0b1000_0100, 0b0111_1000, 0b0000_0000,
    // 4
    0b0000_1000, 0b0001_1000, 0b0010_1000, 0b0100_1000,
    0b1111_1100, 0b0000_1000, 0b0000_1000, 0b0000_0000,
    // 5
    0b1111_1100, 0b1000_0000, 0b1111_1000, 0b0000_0100,
    0b0000_0100, 0b1000_0100, 0b0111_1000, 0b0000_0000,
    // 6
    0b0011_1000, 0b0100_0000, 0b1000_0000, 0b1111_1000,
    0b1000_0100, 0b1000_0100, 0b0111_1000, 0b0000_0000,
    // 7
    0b1111_1100, 0b0000_0100, 0b0000_1000, 0b0001_0000,
    0b0010_0000, 0b0010_0000, 0b0010_0000, 0b0000_0000,
    // 8
    0b0111_1000, 0b1000_0100, 0b1000_0100, 0b0111_1000,
    0b1000_0100, 0b1000_0100, 0b0111_1000, 0b0000_0000,
    // 9
    0b0111_1000, 0b1000_0100, 0b1000_0100, 0b0111_1100,
    0b0000_0100, 0b0000_1000, 0b0111_0000, 0b0000_0000,
];

/// Is it a capital letter or a digit of ASCII?
pub open spec fn has_glyph(ch: u8) -> bool {
    65 <= ch <= 90 || 48 <= ch <= 57
}

/// The place of the glyph of `ch`, letters first.
pub open spec fn place(ch: u8) -> int {
    if 65 <= ch {
        ch - 65
    } else {
        ch - 48 + 26
    }
}

/// The rows of the glyph of `ch`. A character without a glyph is blank.
pub open spec fn rows_of(ch: u8) -> Seq<u8> {
    if has_glyph(ch) {
        ROWS@.subrange(8 * place(ch), 8 * place(ch) + 8)
    } else {
        Seq::new(8, |k: int| 0u8)
    }
}

/// Is the dot at `row` and `col` of the glyph of `ch` set?
pub open spec fn is_set(ch: u8, row: int, col: int) -> bool {
    rows_of(ch)[row] & (0x80u8 >> col) != 0
}

/// The glyph of `ch`.
pub fn glyph(ch: u8) -> (r: [u8; 8])
    ensures
        r@ == rows_of(ch),
{
    let at: usize = if 65 <= ch && ch <= 90 {
        (ch - 65) as usize
    } else if 48 <= ch && ch <= 57 {
        (ch - 48) as usize + 26
    } else {
        let blank = [0u8, 0, 0, 0, 0, 0, 0, 0];
        assert(blank@ =~= rows_of(ch));
        return blank;
    };
    let b: usize = 8 * at;
    let r = [
        ROWS[b],
        ROWS[b + 1],
        ROWS[b + 2],
        ROWS[b + 3],
        ROWS[b + 4],
        ROWS[b + 5],
        ROWS[b + 6],
        ROWS[b + 7],
    ];
    assert(r@ =~= rows_of(ch));
    r
}

/// The first `n` rows keep clear of the last two columns, and of the last row of
/// their cell.
spec fn rows_are_small(n: nat) -> bool
    decreases n,
{
    n == 0 || (ROWS@[n - 1] % 4 == 0 && (n % 8 == 0 ==> ROWS@[n - 1] == 0) && rows_are_small(
        (n - 1) as nat,
    ))
}

proof fn lemma_row_is_small(n: nat, k: int)
    requires
        rows_are_small(n),
        0 <= k < n,
    ensures
        ROWS@[k] % 4 == 0,
        k % 8 == 7 ==> ROWS@[k] == 0,
    decreases n,
{
    if k < n - 1 {
        lemma_row_is_small((n - 1) as nat, k);
    }
}

proof fn lemma_rows_are_small()
    ensures
        rows_are_small(288),
{
    assert(rows_are_small(40)) by {
        reveal_with_fuel(rows_are_small, 41);
    }
    assert(rows_are_small(80)) by {
        reveal_with_fuel(rows_are_small, 41);
    }
    assert(rows_are_small(120)) by {
        reveal_with_fuel(rows_are_small, 41);
    }
    assert(rows_are_small(160)) by {
        reveal_with_fuel(rows_are_small, 41);
    }
    assert(rows_are_small(200)) by {
        reveal_with_fuel(rows_are_small, 41);
    }
    assert(rows_are_small(240)) by {
        reveal_with_fuel(rows_are_small, 41);
    }
    assert(rows_are_small(288)) by {
        reveal_with_fuel(rows_are_small, 49);
    }
}

/// Glyphs are six dots wide and seven high: the last two columns and the last
/// row of a cell are blank.
pub proof fn law_glyphs_are_small(ch: u8, row: int, col: int)
    requires
        0 <= row < 8,
        0 <= col < 8,
        row == 7 || col >= 6,
    ensures
        !is_set(ch, row, col),
{
    let bits = rows_of(ch)[row];
    lemma_rows_are_small();
    if has_glyph(ch) {
        lemma_row_is_small(288, 8 * place(ch) + row);
        assert(bits == ROWS@[8 * place(ch) + row]);
    }
    assert(bits % 4 == 0 ==> bits & (0x80u8 >> 6) == 0 && bits & (0x80u8 >> 7) == 0)
        by (bit_vector);
    assert(0u8 & (0x80u8 >> col) == 0) by {
        let mask = 0x80u8 >> col;
        assert(0u8 & mask == 0) by (bit_vector);
    }
}

/// A number that tells glyphs apart: their rows, weighted.
spec fn weight(rows: Seq<u8>) -> int {
    rows[0] + 2 * rows[1] + 4 * rows[2] + 8 * rows[3] + 16 * rows[4] + 32 * rows[5] + 64 * rows[6]
}

/// The place of the glyph with this weight.
spec fn weighed(w: int) -> int {
    if w == 17712 {
        0
    } else if w == 25232 {
        1
    } else if w == 15872 {
        2
    } else if w == 23920 {
        3
    } else if w == 25276 {
        4
    } else if w == 17340 {
        5
    } else if w == 16160 {
        6
    } else if w == 17724 {
        7
    } else if w == 19356 {
        8
    } else if w == 11788 {
        9
    } else if w == 17876 {
        10
    } else if w == 24192 {
        11
    } else if w == 17100 {
        12
    } else if w == 17276 {
        13
    } else if w == 15984 {
        14
    } else if w == 17360 {
        15
    } else if w == 16112 {
        16
    } else if w == 18128 {
        17
    } else if w == 17916 {
        18
    } else if w == 6300 {
        19
    } else if w == 15996 {
        20
    } else if w == 7260 {
        21
    } else if w == 20988 {
        22
    } else if w == 12372 {
        23
    } else if w == 6444 {
        24
    } else if w == 22180 {
        25
    } else if w == 18752 {
        26
    } else if w == 19280 {
        27
    } else if w == 22352 {
        28
    } else if w == 12816 {
        29
    } else if w == 5592 {
        30
    } else if w == 13500 {
        31
    } else if w == 16696 {
        32
    } else if w == 4004 {
        33
    } else if w == 15888 {
        34
    } else if w == 9392 {
        35
    } else {
        -1
    }
}

proof fn lemma_weights_1(at: int)
    requires
        0 <= at < 9,
    ensures
        weighed(weight(ROWS@.subrange(8 * at, 8 * at + 8))) == at,
{
    assert(weight(ROWS@.subrange(0, 8)) == 17712);
    assert(weight(ROWS@.subrange(8, 16)) == 25232);
    assert(weight(ROWS@.subrange(16, 24)) == 15872);
    assert(weight(ROWS@.subrange(24, 32)) == 23920);
    assert(weight(ROWS@.subrange(32, 40)) == 25276);
    assert(weight(ROWS@.subrange(40, 48)) == 17340);
    assert(weight(ROWS@.subrange(48, 56)) == 16160);
    assert(weight(ROWS@.subrange(56, 64)) == 17724);
    assert(weight(ROWS@.subrange(64, 72)) == 19356);
}

proof fn lemma_weights_2(at: int)
    requires
        9 <= at < 18,
    ensures
        weighed(weight(ROWS@.subrange(8 * at, 8 * at + 8))) == at,
{
    assert(weight(ROWS@.subrange(72, 80)) == 11788);
    assert(weight(ROWS@.subrange(80, 88)) == 17876);
    assert(weight(ROWS@.subrange(88, 96)) == 24192);
    assert(weight(ROWS@.subrange(96, 104)) == 17100);
    assert(weight(ROWS@.subrange(104, 112)) == 17276);
    assert(weight(ROWS@.subrange(112, 120)) == 15984);
    assert(weight(ROWS@.subrange(120, 128)) == 17360);
    assert(weight(ROWS@.subrange(128, 136)) == 16112);
    assert(weight(ROWS@.subrange(136, 144)) == 18128);
}

proof fn lemma_weights_3(at: int)
    requires
        18 <= at < 27,
    ensures
        weighed(weight(ROWS@.subrange(8 * at, 8 * at + 8))) == at,
{
    assert(weight(ROWS@.subrange(144, 152)) == 17916);
    assert(weight(ROWS@.subrange(152, 160)) == 6300);
    assert(weight(ROWS@.subrange(160, 168)) == 15996);
    assert(weight(ROWS@.subrange(168, 176)) == 7260);
    assert(weight(ROWS@.subrange(176, 184)) == 20988);
    assert(weight(ROWS@.subrange(184, 192)) == 12372);
    assert(weight(ROWS@.subrange(192, 200)) == 6444);
    assert(weight(ROWS@.subrange(200, 208)) == 22180);
    assert(weight(ROWS@.subrange(208, 216)) == 18752);
}

proof fn lemma_weights_4(at: int)
    requires
        27 <= at < 36,
    ensures
        weighed(weight(ROWS@.subrange(8 * at, 8 * at + 8))) == at,
{
    assert(weight(ROWS@.subrange(216, 224)) == 19280);
    assert(weight(ROWS@.subrange(224, 232)) == 22352);
    assert(weight(ROWS@.subrange(232, 240)) == 12816);
    assert(weight(ROWS@.subrange(240, 248)) == 5592);
    assert(weight(ROWS@.subrange(248, 256)) == 13500);
    assert(weight(ROWS@.subrange(256, 264)) == 16696);
    assert(weight(ROWS@.subrange(264, 272)) == 4004);
    assert(weight(ROWS@.subrange(272, 280)) == 15888);
    assert(weight(ROWS@.subrange(280, 288)) == 9392);
}

proof fn lemma_weights(at: int)
    requires
        0 <= at < GLYPHS,
    ensures
        weighed(weight(ROWS@.subrange(8 * at, 8 * at + 8))) == at,
{
    if at < 9 {
        lemma_weights_1(at);
    } else if at < 18 {
        lemma_weights_2(at);
    } else if at < 27 {
        lemma_weights_3(at);
    } else {
        lemma_weights_4(at);
    }
}

/// Every capital letter and every digit has a glyph, no two have the same one,
/// and every other character is blank.
pub proof fn law_glyphs_are_distinct(a: u8, b: u8)
    ensures
        has_glyph(a) <==> rows_of(a) != Seq::new(8, |k: int| 0u8),
        has_glyph(a) && a != b ==> rows_of(a) != rows_of(b),
{
    let blank = Seq::new(8, |k: int| 0u8);
    assert(weight(blank) == 0);
    assert(weighed(0) == -1);
    if has_glyph(a) {
        lemma_weights(place(a));
    }
    if has_glyph(b) {
        lemma_weights(place(b));
    }
}

/// The six dots of a row from right to left.
pub open spec fn mirrored(row: int) -> int {
    4 * (row / 4 % 2 * 32 + row / 8 % 2 * 16 + row / 16 % 2 * 8 + row / 32 % 2 * 4 + row / 64 % 2
        * 2 + row / 128 % 2)
}

/// `A`, `H`, `I`, `M`, `O`, `T`, `U`, `V`, `X`, `Y` and `8` look the same in a mirror.
pub open spec fn looks_the_same_mirrored(ch: u8) -> bool {
    ch == 65 || ch == 72 || ch == 73 || ch == 77 || ch == 79 || ch == 84
        || ch == 85 || ch == 86 || ch == 88 || ch == 89 || ch == 56
}

/// `B`, `C`, `D`, `E`, `H`, `I`, `K`, `O`, `X`, `3` and `8` look the same upside down in a
/// mirror.
pub open spec fn looks_the_same_in_water(ch: u8) -> bool {
    ch == 66 || ch == 67 || ch == 68 || ch == 69 || ch == 72 || ch == 73
        || ch == 75 || ch == 79 || ch == 88 || ch == 51 || ch == 56
}

/// Letters and digits have the symmetry that they are known by.
pub proof fn law_glyphs_are_symmetric(ch: u8, row: int)
    requires
        0 <= row < 7,
    ensures
        looks_the_same_mirrored(ch) ==> mirrored(rows_of(ch)[row] as int) == rows_of(ch)[row],
        looks_the_same_in_water(ch) ==> rows_of(ch)[row] == rows_of(ch)[6 - row],
{
    let n = 8 * place(ch);
    if looks_the_same_mirrored(ch) || looks_the_same_in_water(ch) {
        assert(rows_of(ch)[row] == ROWS@[n + row]);
        assert(rows_of(ch)[6 - row] == ROWS@[n + 6 - row]);
    }
}

/// The glyphs lie in the order of the alphabet, and those of the digits behind them
/// in the order of their values.
pub proof fn law_glyphs_lie_in_order(ch: u8, row: int)
    requires
        0 <= row < 8,
    ensures
        'A' as u8 <= ch <= 'Z' as u8 ==> rows_of(ch)[row] == ROWS@[8 * (ch - 'A' as u8) + row],
        '0' as u8 <= ch <= '9' as u8 ==> rows_of(ch)[row] == ROWS@[8 * (ch - '0' as u8) + 208
            + row],
        !('A' as u8 <= ch <= 'Z' as u8) && !('0' as u8 <= ch <= '9' as u8) ==> rows_of(ch)[row]
            == 0,
{
}

/// The dots of a row are the bits of a number, from left to right, the leftmost one
/// worth most.
pub proof fn law_leftmost_dot_is_worth_most(ch: u8, row: int)
    requires
        0 <= row < 8,
    ensures
        is_set(ch, row, 0) <==> rows_of(ch)[row] / 128 % 2 == 1,
        is_set(ch, row, 1) <==> rows_of(ch)[row] / 64 % 2 == 1,
        is_set(ch, row, 2) <==> rows_of(ch)[row] / 32 % 2 == 1,
        is_set(ch, row, 3) <==> rows_of(ch)[row] / 16 % 2 == 1,
        is_set(ch, row, 4) <==> rows_of(ch)[row] / 8 % 2 == 1,
        is_set(ch, row, 5) <==> rows_of(ch)[row] / 4 % 2 == 1,
        is_set(ch, row, 6) <==> rows_of(ch)[row] / 2 % 2 == 1,
        is_set(ch, row, 7) <==> rows_of(ch)[row] % 2 == 1,
{
    let bits = rows_of(ch)[row];
    assert(bits & (0x80u8 >> 0) != 0 <==> bits / 128 % 2 == 1) by (bit_vector);
    assert(bits & (0x80u8 >> 1) != 0 <==> bits / 64 % 2 == 1) by (bit_vector);
    assert(bits & (0x80u8 >> 2) != 0 <==> bits / 32 % 2 == 1) by (bit_vector);
    assert(bits & (0x80u8 >> 3) != 0 <==> bits / 16 % 2 == 1) by (bit_vector);
    assert(bits & (0x80u8 >> 4) != 0 <==> bits / 8 % 2 == 1) by (bit_vector);
    assert(bits & (0x80u8 >> 5) != 0 <==> bits / 4 % 2 == 1) by (bit_vector);
    assert(bits & (0x80u8 >> 6) != 0 <==> bits / 2 % 2 == 1) by (bit_vector);
    assert(bits & (0x80u8 >> 7) != 0 <==> bits % 2 == 1) by (bit_vector);
}

} // verus!
