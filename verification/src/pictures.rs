//! Pictures of the glyphs: what each letter and digit looks like, row by row.
use crate::font;
use crate::font::ROWS;
use vstd::prelude::*;

verus! {

/// `A`.
pub const PICTURE_A: &'static str = "\
     .####.\
     #....#\
     #....#\
     ######\
     #....#\
     #....#\
     #....#";

/// `B`.
pub const PICTURE_B: &'static str = "\
     #####.\
     #....#\
     #....#\
     #####.\
     #....#\
     #....#\
     #####.";

/// `C`.
pub const PICTURE_C: &'static str = "\
     .####.\
     #....#\
     #.....\
     #.....\
     #.....\
     #....#\
     .####.";

/// `D`.
pub const PICTURE_D: &'static str = "\
     ####..\
     #...#.\
     #....#\
     #....#\
     #....#\
     #...#.\
     ####..";

/// `E`.
pub const PICTURE_E: &'static str = "\
     ######\
     #.....\
     #.....\
     #####.\
     #.....\
     #.....\
     ######";

/// `F`.
pub const PICTURE_F: &'static str = "\
     ######\
     #.....\
     #.....\
     #####.\
     #.....\
     #.....\
     #.....";

/// `G`.
pub const PICTURE_G: &'static str = "\
     .####.\
     #....#\
     #.....\
     #..###\
     #....#\
     #....#\
     .####.";

/// `H`.
pub const PICTURE_H: &'static str = "\
     #....#\
     #....#\
     #....#\
     ######\
     #....#\
     #....#\
     #....#";

/// `I`.
pub const PICTURE_I: &'static str = "\
     ######\
     ..##..\
     ..##..\
     ..##..\
     ..##..\
     ..##..\
     ######";

/// `J`.
pub const PICTURE_J: &'static str = "\
     ...###\
     ....#.\
     ....#.\
     ....#.\
     ....#.\
     #...#.\
     .###..";

/// `K`.
pub const PICTURE_K: &'static str = "\
     #....#\
     #...#.\
     #..#..\
     ###...\
     #..#..\
     #...#.\
     #....#";

/// `L`.
pub const PICTURE_L: &'static str = "\
     #.....\
     #.....\
     #.....\
     #.....\
     #.....\
     #.....\
     ######";

/// `M`.
pub const PICTURE_M: &'static str = "\
     #....#\
     ##..##\
     #.##.#\
     #....#\
     #....#\
     #....#\
     #....#";

/// `N`.
pub const PICTURE_N: &'static str = "\
     #....#\
     ##...#\
     #.#..#\
     #..#.#\
     #...##\
     #....#\
     #....#";

/// `O`.
pub const PICTURE_O: &'static str = "\
     .####.\
     #....#\
     #....#\
     #....#\
     #....#\
     #....#\
     .####.";

/// `P`.
pub const PICTURE_P: &'static str = "\
     #####.\
     #....#\
     #....#\
     #####.\
     #.....\
     #.....\
     #.....";

/// `Q`.
pub const PICTURE_Q: &'static str = "\
     .####.\
     #....#\
     #....#\
     #....#\
     #..#.#\
     #...#.\
     .###.#";

/// `R`.
pub const PICTURE_R: &'static str = "\
     #####.\
     #....#\
     #....#\
     #####.\
     #..#..\
     #...#.\
     #....#";

/// `S`.
pub const PICTURE_S: &'static str = "\
     .#####\
     #.....\
     #.....\
     .####.\
     .....#\
     .....#\
     #####.";

/// `T`.
pub const PICTURE_T: &'static str = "\
     ######\
     ..##..\
     ..##..\
     ..##..\
     ..##..\
     ..##..\
     ..##..";

/// `U`.
pub const PICTURE_U: &'static str = "\
     #....#\
     #....#\
     #....#\
     #....#\
     #....#\
     #....#\
     .####.";

/// `V`.
pub const PICTURE_V: &'static str = "\
     #....#\
     #....#\
     #....#\
     .#..#.\
     .#..#.\
     ..##..\
     ..##..";

/// `W`.
pub const PICTURE_W: &'static str = "\
     #....#\
     #....#\
     #....#\
     #..#.#\
     #.##.#\
     ###.##\
     #....#";

/// `X`.
pub const PICTURE_X: &'static str = "\
     #....#\
     .#..#.\
     ..##..\
     ..##..\
     ..##..\
     .#..#.\
     #....#";

/// `Y`.
pub const PICTURE_Y: &'static str = "\
     #....#\
     #....#\
     .#..#.\
     ..##..\
     ..##..\
     ..##..\
     ..##..";

/// `Z`.
pub const PICTURE_Z: &'static str = "\
     ######\
     .....#\
     ....#.\
     ...#..\
     .##...\
     #.....\
     ######";

/// `0`.
pub const PICTURE_0: &'static str = "\
     .####.\
     #...##\
     #..#.#\
     #..#.#\
     #.#..#\
     ##...#\
     .####.";

/// `1`.
pub const PICTURE_1: &'static str = "\
     ..##..\
     .###..\
     ..##..\
     ..##..\
     ..##..\
     ..##..\
     ######";

/// `2`.
pub const PICTURE_2: &'static str = "\
     .####.\
     #....#\
     .....#\
     ...##.\
     .##...\
     #.....\
     ######";

/// `3`.
pub const PICTURE_3: &'static str = "\
     .####.\
     #....#\
     .....#\
     ..###.\
     .....#\
     #....#\
     .####.";

/// `4`.
pub const PICTURE_4: &'static str = "\
     ....#.\
     ...##.\
     ..#.#.\
     .#..#.\
     ######\
     ....#.\
     ....#.";

/// `5`.
pub const PICTURE_5: &'static str = "\
     ######\
     #.....\
     #####.\
     .....#\
     .....#\
     #....#\
     .####.";

/// `6`.
pub const PICTURE_6: &'static str = "\
     ..###.\
     .#....\
     #.....\
     #####.\
     #....#\
     #....#\
     .####.";

/// `7`.
pub const PICTURE_7: &'static str = "\
     ######\
     .....#\
     ....#.\
     ...#..\
     ..#...\
     ..#...\
     ..#...";

/// `8`.
pub const PICTURE_8: &'static str = "\
     .####.\
     #....#\
     #....#\
     .####.\
     #....#\
     #....#\
     .####.";

/// `9`.
pub const PICTURE_9: &'static str = "\
     .####.\
     #....#\
     #....#\
     .#####\
     .....#\
     ....#.\
     .###..";

/// What a character looks like: seven rows of six dots, `#` where one is set.
pub open spec fn picture(ch: u8) -> Seq<char> {
    if ch == 65 {
        PICTURE_A@
    } else if ch == 66 {
        PICTURE_B@
    } else if ch == 67 {
        PICTURE_C@
    } else if ch == 68 {
        PICTURE_D@
    } else if ch == 69 {
        PICTURE_E@
    } else if ch == 70 {
        PICTURE_F@
    } else if ch == 71 {
        PICTURE_G@
    } else if ch == 72 {
        PICTURE_H@
    } else if ch == 73 {
        PICTURE_I@
    } else if ch == 74 {
        PICTURE_J@
    } else if ch == 75 {
        PICTURE_K@
    } else if ch == 76 {
        PICTURE_L@
    } else if ch == 77 {
        PICTURE_M@
    } else if ch == 78 {
        PICTURE_N@
    } else if ch == 79 {
        PICTURE_O@
    } else if ch == 80 {
        PICTURE_P@
    } else if ch == 81 {
        PICTURE_Q@
    } else if ch == 82 {
        PICTURE_R@
    } else if ch == 83 {
        PICTURE_S@
    } else if ch == 84 {
        PICTURE_T@
    } else if ch == 85 {
        PICTURE_U@
    } else if ch == 86 {
        PICTURE_V@
    } else if ch == 87 {
        PICTURE_W@
    } else if ch == 88 {
        PICTURE_X@
    } else if ch == 89 {
        PICTURE_Y@
    } else if ch == 90 {
        PICTURE_Z@
    } else if ch == 48 {
        PICTURE_0@
    } else if ch == 49 {
        PICTURE_1@
    } else if ch == 50 {
        PICTURE_2@
    } else if ch == 51 {
        PICTURE_3@
    } else if ch == 52 {
        PICTURE_4@
    } else if ch == 53 {
        PICTURE_5@
    } else if ch == 54 {
        PICTURE_6@
    } else if ch == 55 {
        PICTURE_7@
    } else if ch == 56 {
        PICTURE_8@
    } else if ch == 57 {
        PICTURE_9@
    } else {
        Seq::new(42, |i: int| '.')
    }
}

proof fn lemma_letter_a(row: int, col: int)
    requires
        0 <= row < 7,
        0 <= col < 6,
    ensures
        font::is_set(65, row, col) <==> PICTURE_A@[6 * row + col] == '#',
{
    reveal_strlit(".####.#....##....########....##....##....#");
    font::law_leftmost_dot_is_worth_most(65, row);
    font::law_glyphs_lie_in_order(65, row);
    assert(ROWS@[0] == 120);
    assert(ROWS@[1] == 132);
    assert(ROWS@[2] == 132);
    assert(ROWS@[3] == 252);
    assert(ROWS@[4] == 132);
    assert(ROWS@[5] == 132);
    assert(ROWS@[6] == 132);
}

proof fn lemma_letter_b(row: int, col: int)
    requires
        0 <= row < 7,
        0 <= col < 6,
    ensures
        font::is_set(66, row, col) <==> PICTURE_B@[6 * row + col] == '#',
{
    reveal_strlit("#####.#....##....######.#....##....######.");
    font::law_leftmost_dot_is_worth_most(66, row);
    font::law_glyphs_lie_in_order(66, row);
    assert(ROWS@[8] == 248);
    assert(ROWS@[9] == 132);
    assert(ROWS@[10] == 132);
    assert(ROWS@[11] == 248);
    assert(ROWS@[12] == 132);
    assert(ROWS@[13] == 132);
    assert(ROWS@[14] == 248);
}

proof fn lemma_letter_c(row: int, col: int)
    requires
        0 <= row < 7,
        0 <= col < 6,
    ensures
        font::is_set(67, row, col) <==> PICTURE_C@[6 * row + col] == '#',
{
    reveal_strlit(".####.#....##.....#.....#.....#....#.####.");
    font::law_leftmost_dot_is_worth_most(67, row);
    font::law_glyphs_lie_in_order(67, row);
    assert(ROWS@[16] == 120);
    assert(ROWS@[17] == 132);
    assert(ROWS@[18] == 128);
    assert(ROWS@[19] == 128);
    assert(ROWS@[20] == 128);
    assert(ROWS@[21] == 132);
    assert(ROWS@[22] == 120);
}

proof fn lemma_letter_d(row: int, col: int)
    requires
        0 <= row < 7,
        0 <= col < 6,
    ensures
        font::is_set(68, row, col) <==> PICTURE_D@[6 * row + col] == '#',
{
    reveal_strlit("####..#...#.#....##....##....##...#.####..");
    font::law_leftmost_dot_is_worth_most(68, row);
    font::law_glyphs_lie_in_order(68, row);
    assert(ROWS@[24] == 240);
    assert(ROWS@[25] == 136);
    assert(ROWS@[26] == 132);
    assert(ROWS@[27] == 132);
    assert(ROWS@[28] == 132);
    assert(ROWS@[29] == 136);
    assert(ROWS@[30] == 240);
}

proof fn lemma_letter_e(row: int, col: int)
    requires
        0 <= row < 7,
        0 <= col < 6,
    ensures
        font::is_set(69, row, col) <==> PICTURE_E@[6 * row + col] == '#',
{
    reveal_strlit("#######.....#.....#####.#.....#.....######");
    font::law_leftmost_dot_is_worth_most(69, row);
    font::law_glyphs_lie_in_order(69, row);
    assert(ROWS@[32] == 252);
    assert(ROWS@[33] == 128);
    assert(ROWS@[34] == 128);
    assert(ROWS@[35] == 248);
    assert(ROWS@[36] == 128);
    assert(ROWS@[37] == 128);
    assert(ROWS@[38] == 252);
}

proof fn lemma_letter_f(row: int, col: int)
    requires
        0 <= row < 7,
        0 <= col < 6,
    ensures
        font::is_set(70, row, col) <==> PICTURE_F@[6 * row + col] == '#',
{
    reveal_strlit("#######.....#.....#####.#.....#.....#.....");
    font::law_leftmost_dot_is_worth_most(70, row);
    font::law_glyphs_lie_in_order(70, row);
    assert(ROWS@[40] == 252);
    assert(ROWS@[41] == 128);
    assert(ROWS@[42] == 128);
    assert(ROWS@[43] == 248);
    assert(ROWS@[44] == 128);
    assert(ROWS@[45] == 128);
    assert(ROWS@[46] == 128);
}

proof fn lemma_letter_g(row: int, col: int)
    requires
        0 <= row < 7,
        0 <= col < 6,
    ensures
        font::is_set(71, row, col) <==> PICTURE_G@[6 * row + col] == '#',
{
    reveal_strlit(".####.#....##.....#..####....##....#.####.");
    font::law_leftmost_dot_is_worth_most(71, row);
    font::law_glyphs_lie_in_order(71, row);
    assert(ROWS@[48] == 120);
    assert(ROWS@[49] == 132);
    assert(ROWS@[50] == 128);
    assert(ROWS@[51] == 156);
    assert(ROWS@[52] == 132);
    assert(ROWS@[53] == 132);
    assert(ROWS@[54] == 120);
}

proof fn lemma_letter_h(row: int, col: int)
    requires
        0 <= row < 7,
        0 <= col < 6,
    ensures
        font::is_set(72, row, col) <==> PICTURE_H@[6 * row + col] == '#',
{
    reveal_strlit("#....##....##....########....##....##....#");
    font::law_leftmost_dot_is_worth_most(72, row);
    font::law_glyphs_lie_in_order(72, row);
    assert(ROWS@[56] == 132);
    assert(ROWS@[57] == 132);
    assert(ROWS@[58] == 132);
    assert(ROWS@[59] == 252);
    assert(ROWS@[60] == 132);
    assert(ROWS@[61] == 132);
    assert(ROWS@[62] == 132);
}

proof fn lemma_letter_i(row: int, col: int)
    requires
        0 <= row < 7,
        0 <= col < 6,
    ensures
        font::is_set(73, row, col) <==> PICTURE_I@[6 * row + col] == '#',
{
    reveal_strlit("######..##....##....##....##....##..######");
    font::law_leftmost_dot_is_worth_most(73, row);
    font::law_glyphs_lie_in_order(73, row);
    assert(ROWS@[64] == 252);
    assert(ROWS@[65] == 48);
    assert(ROWS@[66] == 48);
    assert(ROWS@[67] == 48);
    assert(ROWS@[68] == 48);
    assert(ROWS@[69] == 48);
    assert(ROWS@[70] == 252);
}

proof fn lemma_letter_j(row: int, col: int)
    requires
        0 <= row < 7,
        0 <= col < 6,
    ensures
        font::is_set(74, row, col) <==> PICTURE_J@[6 * row + col] == '#',
{
    reveal_strlit("...###....#.....#.....#.....#.#...#..###..");
    font::law_leftmost_dot_is_worth_most(74, row);
    font::law_glyphs_lie_in_order(74, row);
    assert(ROWS@[72] == 28);
    assert(ROWS@[73] == 8);
    assert(ROWS@[74] == 8);
    assert(ROWS@[75] == 8);
    assert(ROWS@[76] == 8);
    assert(ROWS@[77] == 136);
    assert(ROWS@[78] == 112);
}

proof fn lemma_letter_k(row: int, col: int)
    requires
        0 <= row < 7,
        0 <= col < 6,
    ensures
        font::is_set(75, row, col) <==> PICTURE_K@[6 * row + col] == '#',
{
    reveal_strlit("#....##...#.#..#..###...#..#..#...#.#....#");
    font::law_leftmost_dot_is_worth_most(75, row);
    font::law_glyphs_lie_in_order(75, row);
    assert(ROWS@[80] == 132);
    assert(ROWS@[81] == 136);
    assert(ROWS@[82] == 144);
    assert(ROWS@[83] == 224);
    assert(ROWS@[84] == 144);
    assert(ROWS@[85] == 136);
    assert(ROWS@[86] == 132);
}

proof fn lemma_letter_l(row: int, col: int)
    requires
        0 <= row < 7,
        0 <= col < 6,
    ensures
        font::is_set(76, row, col) <==> PICTURE_L@[6 * row + col] == '#',
{
    reveal_strlit("#.....#.....#.....#.....#.....#.....######");
    font::law_leftmost_dot_is_worth_most(76, row);
    font::law_glyphs_lie_in_order(76, row);
    assert(ROWS@[88] == 128);
    assert(ROWS@[89] == 128);
    assert(ROWS@[90] == 128);
    assert(ROWS@[91] == 128);
    assert(ROWS@[92] == 128);
    assert(ROWS@[93] == 128);
    assert(ROWS@[94] == 252);
}

proof fn lemma_letter_m(row: int, col: int)
    requires
        0 <= row < 7,
        0 <= col < 6,
    ensures
        font::is_set(77, row, col) <==> PICTURE_M@[6 * row + col] == '#',
{
    reveal_strlit("#....###..###.##.##....##....##....##....#");
    font::law_leftmost_dot_is_worth_most(77, row);
    font::law_glyphs_lie_in_order(77, row);
    assert(ROWS@[96] == 132);
    assert(ROWS@[97] == 204);
    assert(ROWS@[98] == 180);
    assert(ROWS@[99] == 132);
    assert(ROWS@[100] == 132);
    assert(ROWS@[101] == 132);
    assert(ROWS@[102] == 132);
}

proof fn lemma_letter_n(row: int, col: int)
    requires
        0 <= row < 7,
        0 <= col < 6,
    ensures
        font::is_set(78, row, col) <==> PICTURE_N@[6 * row + col] == '#',
{
    reveal_strlit("#....###...##.#..##..#.##...###....##....#");
    font::law_leftmost_dot_is_worth_most(78, row);
    font::law_glyphs_lie_in_order(78, row);
    assert(ROWS@[104] == 132);
    assert(ROWS@[105] == 196);
    assert(ROWS@[106] == 164);
    assert(ROWS@[107] == 148);
    assert(ROWS@[108] == 140);
    assert(ROWS@[109] == 132);
    assert(ROWS@[110] == 132);
}

proof fn lemma_letter_o(row: int, col: int)
    requires
        0 <= row < 7,
        0 <= col < 6,
    ensures
        font::is_set(79, row, col) <==> PICTURE_O@[6 * row + col] == '#',
{
    reveal_strlit(".####.#....##....##....##....##....#.####.");
    font::law_leftmost_dot_is_worth_most(79, row);
    font::law_glyphs_lie_in_order(79, row);
    assert(ROWS@[112] == 120);
    assert(ROWS@[113] == 132);
    assert(ROWS@[114] == 132);
    assert(ROWS@[115] == 132);
    assert(ROWS@[116] == 132);
    assert(ROWS@[117] == 132);
    assert(ROWS@[118] == 120);
}

proof fn lemma_letter_p(row: int, col: int)
    requires
        0 <= row < 7,
        0 <= col < 6,
    ensures
        font::is_set(80, row, col) <==> PICTURE_P@[6 * row + col] == '#',
{
    reveal_strlit("#####.#....##....######.#.....#.....#.....");
    font::law_leftmost_dot_is_worth_most(80, row);
    font::law_glyphs_lie_in_order(80, row);
    assert(ROWS@[120] == 248);
    assert(ROWS@[121] == 132);
    assert(ROWS@[122] == 132);
    assert(ROWS@[123] == 248);
    assert(ROWS@[124] == 128);
    assert(ROWS@[125] == 128);
    assert(ROWS@[126] == 128);
}

proof fn lemma_letter_q(row: int, col: int)
    requires
        0 <= row < 7,
        0 <= col < 6,
    ensures
        font::is_set(81, row, col) <==> PICTURE_Q@[6 * row + col] == '#',
{
    reveal_strlit(".####.#....##....##....##..#.##...#..###.#");
    font::law_leftmost_dot_is_worth_most(81, row);
    font::law_glyphs_lie_in_order(81, row);
    assert(ROWS@[128] == 120);
    assert(ROWS@[129] == 132);
    assert(ROWS@[130] == 132);
    assert(ROWS@[131] == 132);
    assert(ROWS@[132] == 148);
    assert(ROWS@[133] == 136);
    assert(ROWS@[134] == 116);
}

proof fn lemma_letter_r(row: int, col: int)
    requires
        0 <= row < 7,
        0 <= col < 6,
    ensures
        font::is_set(82, row, col) <==> PICTURE_R@[6 * row + col] == '#',
{
    reveal_strlit("#####.#....##....######.#..#..#...#.#....#");
    font::law_leftmost_dot_is_worth_most(82, row);
    font::law_glyphs_lie_in_order(82, row);
    assert(ROWS@[136] == 248);
    assert(ROWS@[137] == 132);
    assert(ROWS@[138] == 132);
    assert(ROWS@[139] == 248);
    assert(ROWS@[140] == 144);
    assert(ROWS@[141] == 136);
    assert(ROWS@[142] == 132);
}

proof fn lemma_letter_s(row: int, col: int)
    requires
        0 <= row < 7,
        0 <= col < 6,
    ensures
        font::is_set(83, row, col) <==> PICTURE_S@[6 * row + col] == '#',
{
    reveal_strlit(".######.....#......####......#.....######.");
    font::law_leftmost_dot_is_worth_most(83, row);
    font::law_glyphs_lie_in_order(83, row);
    assert(ROWS@[144] == 124);
    assert(ROWS@[145] == 128);
    assert(ROWS@[146] == 128);
    assert(ROWS@[147] == 120);
    assert(ROWS@[148] == 4);
    assert(ROWS@[149] == 4);
    assert(ROWS@[150] == 248);
}

proof fn lemma_letter_t(row: int, col: int)
    requires
        0 <= row < 7,
        0 <= col < 6,
    ensures
        font::is_set(84, row, col) <==> PICTURE_T@[6 * row + col] == '#',
{
    reveal_strlit("######..##....##....##....##....##....##..");
    font::law_leftmost_dot_is_worth_most(84, row);
    font::law_glyphs_lie_in_order(84, row);
    assert(ROWS@[152] == 252);
    assert(ROWS@[153] == 48);
    assert(ROWS@[154] == 48);
    assert(ROWS@[155] == 48);
    assert(ROWS@[156] == 48);
    assert(ROWS@[157] == 48);
    assert(ROWS@[158] == 48);
}

proof fn lemma_letter_u(row: int, col: int)
    requires
        0 <= row < 7,
        0 <= col < 6,
    ensures
        font::is_set(85, row, col) <==> PICTURE_U@[6 * row + col] == '#',
{
    reveal_strlit("#....##....##....##....##....##....#.####.");
    font::law_leftmost_dot_is_worth_most(85, row);
    font::law_glyphs_lie_in_order(85, row);
    assert(ROWS@[160] == 132);
    assert(ROWS@[161] == 132);
    assert(ROWS@[162] == 132);
    assert(ROWS@[163] == 132);
    assert(ROWS@[164] == 132);
    assert(ROWS@[165] == 132);
    assert(ROWS@[166] == 120);
}

proof fn lemma_letter_v(row: int, col: int)
    requires
        0 <= row < 7,
        0 <= col < 6,
    ensures
        font::is_set(86, row, col) <==> PICTURE_V@[6 * row + col] == '#',
{
    reveal_strlit("#....##....##....#.#..#..#..#...##....##..");
    font::law_leftmost_dot_is_worth_most(86, row);
    font::law_glyphs_lie_in_order(86, row);
    assert(ROWS@[168] == 132);
    assert(ROWS@[169] == 132);
    assert(ROWS@[170] == 132);
    assert(ROWS@[171] == 72);
    assert(ROWS@[172] == 72);
    assert(ROWS@[173] == 48);
    assert(ROWS@[174] == 48);
}

proof fn lemma_letter_w(row: int, col: int)
    requires
        0 <= row < 7,
        0 <= col < 6,
    ensures
        font::is_set(87, row, col) <==> PICTURE_W@[6 * row + col] == '#',
{
    reveal_strlit("#....##....##....##..#.##.##.####.###....#");
    font::law_leftmost_dot_is_worth_most(87, row);
    font::law_glyphs_lie_in_order(87, row);
    assert(ROWS@[176] == 132);
    assert(ROWS@[177] == 132);
    assert(ROWS@[178] == 132);
    assert(ROWS@[179] == 148);
    assert(ROWS@[180] == 180);
    assert(ROWS@[181] == 236);
    assert(ROWS@[182] == 132);
}

proof fn lemma_letter_x(row: int, col: int)
    requires
        0 <= row < 7,
        0 <= col < 6,
    ensures
        font::is_set(88, row, col) <==> PICTURE_X@[6 * row + col] == '#',
{
    reveal_strlit("#....#.#..#...##....##....##...#..#.#....#");
    font::law_leftmost_dot_is_worth_most(88, row);
    font::law_glyphs_lie_in_order(88, row);
    assert(ROWS@[184] == 132);
    assert(ROWS@[185] == 72);
    assert(ROWS@[186] == 48);
    assert(ROWS@[187] == 48);
    assert(ROWS@[188] == 48);
    assert(ROWS@[189] == 72);
    assert(ROWS@[190] == 132);
}

proof fn lemma_letter_y(row: int, col: int)
    requires
        0 <= row < 7,
        0 <= col < 6,
    ensures
        font::is_set(89, row, col) <==> PICTURE_Y@[6 * row + col] == '#',
{
    reveal_strlit("#....##....#.#..#...##....##....##....##..");
    font::law_leftmost_dot_is_worth_most(89, row);
    font::law_glyphs_lie_in_order(89, row);
    assert(ROWS@[192] == 132);
    assert(ROWS@[193] == 132);
    assert(ROWS@[194] == 72);
    assert(ROWS@[195] == 48);
    assert(ROWS@[196] == 48);
    assert(ROWS@[197] == 48);
    assert(ROWS@[198] == 48);
}

proof fn lemma_letter_z(row: int, col: int)
    requires
        0 <= row < 7,
        0 <= col < 6,
    ensures
        font::is_set(90, row, col) <==> PICTURE_Z@[6 * row + col] == '#',
{
    reveal_strlit("######.....#....#....#...##...#.....######");
    font::law_leftmost_dot_is_worth_most(90, row);
    font::law_glyphs_lie_in_order(90, row);
    assert(ROWS@[200] == 252);
    assert(ROWS@[201] == 4);
    assert(ROWS@[202] == 8);
    assert(ROWS@[203] == 16);
    assert(ROWS@[204] == 96);
    assert(ROWS@[205] == 128);
    assert(ROWS@[206] == 252);
}

proof fn lemma_digit_0(row: int, col: int)
    requires
        0 <= row < 7,
        0 <= col < 6,
    ensures
        font::is_set(48, row, col) <==> PICTURE_0@[6 * row + col] == '#',
{
    reveal_strlit(".####.#...###..#.##..#.##.#..###...#.####.");
    font::law_leftmost_dot_is_worth_most(48, row);
    font::law_glyphs_lie_in_order(48, row);
    assert(ROWS@[208] == 120);
    assert(ROWS@[209] == 140);
    assert(ROWS@[210] == 148);
    assert(ROWS@[211] == 148);
    assert(ROWS@[212] == 164);
    assert(ROWS@[213] == 196);
    assert(ROWS@[214] == 120);
}

proof fn lemma_digit_1(row: int, col: int)
    requires
        0 <= row < 7,
        0 <= col < 6,
    ensures
        font::is_set(49, row, col) <==> PICTURE_1@[6 * row + col] == '#',
{
    reveal_strlit("..##...###....##....##....##....##..######");
    font::law_leftmost_dot_is_worth_most(49, row);
    font::law_glyphs_lie_in_order(49, row);
    assert(ROWS@[216] == 48);
    assert(ROWS@[217] == 112);
    assert(ROWS@[218] == 48);
    assert(ROWS@[219] == 48);
    assert(ROWS@[220] == 48);
    assert(ROWS@[221] == 48);
    assert(ROWS@[222] == 252);
}

proof fn lemma_digit_2(row: int, col: int)
    requires
        0 <= row < 7,
        0 <= col < 6,
    ensures
        font::is_set(50, row, col) <==> PICTURE_2@[6 * row + col] == '#',
{
    reveal_strlit(".####.#....#.....#...##..##...#.....######");
    font::law_leftmost_dot_is_worth_most(50, row);
    font::law_glyphs_lie_in_order(50, row);
    assert(ROWS@[224] == 120);
    assert(ROWS@[225] == 132);
    assert(ROWS@[226] == 4);
    assert(ROWS@[227] == 24);
    assert(ROWS@[228] == 96);
    assert(ROWS@[229] == 128);
    assert(ROWS@[230] == 252);
}

proof fn lemma_digit_3(row: int, col: int)
    requires
        0 <= row < 7,
        0 <= col < 6,
    ensures
        font::is_set(51, row, col) <==> PICTURE_3@[6 * row + col] == '#',
{
    reveal_strlit(".####.#....#.....#..###......##....#.####.");
    font::law_leftmost_dot_is_worth_most(51, row);
    font::law_glyphs_lie_in_order(51, row);
    assert(ROWS@[232] == 120);
    assert(ROWS@[233] == 132);
    assert(ROWS@[234] == 4);
    assert(ROWS@[235] == 56);
    assert(ROWS@[236] == 4);
    assert(ROWS@[237] == 132);
    assert(ROWS@[238] == 120);
}

proof fn lemma_digit_4(row: int, col: int)
    requires
        0 <= row < 7,
        0 <= col < 6,
    ensures
        font::is_set(52, row, col) <==> PICTURE_4@[6 * row + col] == '#',
{
    reveal_strlit("....#....##...#.#..#..#.######....#.....#.");
    font::law_leftmost_dot_is_worth_most(52, row);
    font::law_glyphs_lie_in_order(52, row);
    assert(ROWS@[240] == 8);
    assert(ROWS@[241] == 24);
    assert(ROWS@[242] == 40);
    assert(ROWS@[243] == 72);
    assert(ROWS@[244] == 252);
    assert(ROWS@[245] == 8);
    assert(ROWS@[246] == 8);
}

proof fn lemma_digit_5(row: int, col: int)
    requires
        0 <= row < 7,
        0 <= col < 6,
    ensures
        font::is_set(53, row, col) <==> PICTURE_5@[6 * row + col] == '#',
{
    reveal_strlit("#######.....#####......#.....##....#.####.");
    font::law_leftmost_dot_is_worth_most(53, row);
    font::law_glyphs_lie_in_order(53, row);
    assert(ROWS@[248] == 252);
    assert(ROWS@[249] == 128);
    assert(ROWS@[250] == 248);
    assert(ROWS@[251] == 4);
    assert(ROWS@[252] == 4);
    assert(ROWS@[253] == 132);
    assert(ROWS@[254] == 120);
}

proof fn lemma_digit_6(row: int, col: int)
    requires
        0 <= row < 7,
        0 <= col < 6,
    ensures
        font::is_set(54, row, col) <==> PICTURE_6@[6 * row + col] == '#',
{
    reveal_strlit("..###..#....#.....#####.#....##....#.####.");
    font::law_leftmost_dot_is_worth_most(54, row);
    font::law_glyphs_lie_in_order(54, row);
    assert(ROWS@[256] == 56);
    assert(ROWS@[257] == 64);
    assert(ROWS@[258] == 128);
    assert(ROWS@[259] == 248);
    assert(ROWS@[260] == 132);
    assert(ROWS@[261] == 132);
    assert(ROWS@[262] == 120);
}

proof fn lemma_digit_7(row: int, col: int)
    requires
        0 <= row < 7,
        0 <= col < 6,
    ensures
        font::is_set(55, row, col) <==> PICTURE_7@[6 * row + col] == '#',
{
    reveal_strlit("######.....#....#....#....#.....#.....#...");
    font::law_leftmost_dot_is_worth_most(55, row);
    font::law_glyphs_lie_in_order(55, row);
    assert(ROWS@[264] == 252);
    assert(ROWS@[265] == 4);
    assert(ROWS@[266] == 8);
    assert(ROWS@[267] == 16);
    assert(ROWS@[268] == 32);
    assert(ROWS@[269] == 32);
    assert(ROWS@[270] == 32);
}

proof fn lemma_digit_8(row: int, col: int)
    requires
        0 <= row < 7,
        0 <= col < 6,
    ensures
        font::is_set(56, row, col) <==> PICTURE_8@[6 * row + col] == '#',
{
    reveal_strlit(".####.#....##....#.####.#....##....#.####.");
    font::law_leftmost_dot_is_worth_most(56, row);
    font::law_glyphs_lie_in_order(56, row);
    assert(ROWS@[272] == 120);
    assert(ROWS@[273] == 132);
    assert(ROWS@[274] == 132);
    assert(ROWS@[275] == 120);
    assert(ROWS@[276] == 132);
    assert(ROWS@[277] == 132);
    assert(ROWS@[278] == 120);
}

proof fn lemma_digit_9(row: int, col: int)
    requires
        0 <= row < 7,
        0 <= col < 6,
    ensures
        font::is_set(57, row, col) <==> PICTURE_9@[6 * row + col] == '#',
{
    reveal_strlit(".####.#....##....#.#####.....#....#..###..");
    font::law_leftmost_dot_is_worth_most(57, row);
    font::law_glyphs_lie_in_order(57, row);
    assert(ROWS@[280] == 120);
    assert(ROWS@[281] == 132);
    assert(ROWS@[282] == 132);
    assert(ROWS@[283] == 124);
    assert(ROWS@[284] == 4);
    assert(ROWS@[285] == 8);
    assert(ROWS@[286] == 112);
}

/// Every letter and every digit looks like its picture, and what is neither looks
/// like nothing.
pub proof fn law_glyphs_look_like_their_pictures(ch: u8, row: int, col: int)
    requires
        0 <= row < 7,
        0 <= col < 6,
    ensures
        font::is_set(ch, row, col) <==> picture(ch)[6 * row + col] == '#',
{
    if ch == 65 {
        lemma_letter_a(row, col);
    } else if ch == 66 {
        lemma_letter_b(row, col);
    } else if ch == 67 {
        lemma_letter_c(row, col);
    } else if ch == 68 {
        lemma_letter_d(row, col);
    } else if ch == 69 {
        lemma_letter_e(row, col);
    } else if ch == 70 {
        lemma_letter_f(row, col);
    } else if ch == 71 {
        lemma_letter_g(row, col);
    } else if ch == 72 {
        lemma_letter_h(row, col);
    } else if ch == 73 {
        lemma_letter_i(row, col);
    } else if ch == 74 {
        lemma_letter_j(row, col);
    } else if ch == 75 {
        lemma_letter_k(row, col);
    } else if ch == 76 {
        lemma_letter_l(row, col);
    } else if ch == 77 {
        lemma_letter_m(row, col);
    } else if ch == 78 {
        lemma_letter_n(row, col);
    } else if ch == 79 {
        lemma_letter_o(row, col);
    } else if ch == 80 {
        lemma_letter_p(row, col);
    } else if ch == 81 {
        lemma_letter_q(row, col);
    } else if ch == 82 {
        lemma_letter_r(row, col);
    } else if ch == 83 {
        lemma_letter_s(row, col);
    } else if ch == 84 {
        lemma_letter_t(row, col);
    } else if ch == 85 {
        lemma_letter_u(row, col);
    } else if ch == 86 {
        lemma_letter_v(row, col);
    } else if ch == 87 {
        lemma_letter_w(row, col);
    } else if ch == 88 {
        lemma_letter_x(row, col);
    } else if ch == 89 {
        lemma_letter_y(row, col);
    } else if ch == 90 {
        lemma_letter_z(row, col);
    } else if ch == 48 {
        lemma_digit_0(row, col);
    } else if ch == 49 {
        lemma_digit_1(row, col);
    } else if ch == 50 {
        lemma_digit_2(row, col);
    } else if ch == 51 {
        lemma_digit_3(row, col);
    } else if ch == 52 {
        lemma_digit_4(row, col);
    } else if ch == 53 {
        lemma_digit_5(row, col);
    } else if ch == 54 {
        lemma_digit_6(row, col);
    } else if ch == 55 {
        lemma_digit_7(row, col);
    } else if ch == 56 {
        lemma_digit_8(row, col);
    } else if ch == 57 {
        lemma_digit_9(row, col);
    } else {
        font::law_leftmost_dot_is_worth_most(ch, row);
        font::law_glyphs_lie_in_order(ch, row);
        assert(0 <= 6 * row + col < 42);
    }
}

} // verus!
