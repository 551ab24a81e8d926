//! The canvas: a frame of pixels, what is drawn on it, and the state behind its
//! button.
//!
//! A frame has four bytes for each pixel, red, green, blue and opacity, row by
//! row from the top.
use crate::font;
use crate::mem;
use vstd::prelude::*;

verus! {

/// Width of a frame in pixels.
pub const WIDTH: usize = 320;

/// Height of a frame in pixels.
pub const HEIGHT: usize = 240;

/// Bytes in a frame.
pub const FRAME_LEN: usize = 307_200;

/// Width of the sidebar at the left.
pub const SIDEBAR_W: usize = 96;

/// Where the view starts, behind the sidebar.
pub const VIEW_X0: usize = 96;

/// Width of the view.
pub const VIEW_W: usize = 224;

/// Left edge of the button.
pub const BTN_X: usize = 12;

/// Upper edge of the button.
pub const BTN_Y: usize = 64;

/// Width of the button.
pub const BTN_W: usize = 72;

/// Height of the button.
pub const BTN_H: usize = 30;

/// Distance of one character from the next, in dots.
pub const ADVANCE: usize = 7;

/// `WASM UI`.
pub const TITLE: [u8; 7] = [87, 65, 83, 77, 32, 85, 73];

/// `PLAY`.
pub const PLAY: [u8; 4] = [80, 76, 65, 89];

/// `PAUSE`.
pub const PAUSE: [u8; 5] = [80, 65, 85, 83, 69];

/// `PAUSED`.
pub const PAUSED: [u8; 6] = [80, 65, 85, 83, 69, 68];

/// `LIVE`.
pub const LIVE: [u8; 4] = [76, 73, 86, 69];

/// `CLICKS`.
pub const CLICKS: [u8; 6] = [67, 76, 73, 67, 75, 83];

/// `MOVE MOUSE`.
pub const MOVE_MOUSE: [u8; 10] = [77, 79, 86, 69, 32, 77, 79, 85, 83, 69];

/// `TO EXPLORE`.
pub const TO_EXPLORE: [u8; 10] = [84, 79, 32, 69, 88, 80, 76, 79, 82, 69];

/// `CLICK PAUSE`.
pub const CLICK_PAUSE: [u8; 11] = [67, 76, 73, 67, 75, 32, 80, 65, 85, 83, 69];

/// `HELLO WORLD`.
pub const HELLO_WORLD: [u8; 11] = [72, 69, 76, 76, 79, 32, 87, 79, 82, 76, 68];

/// Red, green and blue.
pub type Rgb = (u8, u8, u8);

/// The width of a frame.
pub fn width() -> (r: u32)
    ensures
        r == WIDTH,
{
    WIDTH as u32
}

/// The height of a frame.
pub fn height() -> (r: u32)
    ensures
        r == HEIGHT,
{
    HEIGHT as u32
}

/// A frame has the length that its size demands, and fits into an output
/// buffer together with the eight bytes that an archived list takes.
pub proof fn law_frame_fits()
    ensures
        FRAME_LEN == WIDTH * HEIGHT * 4,
        VIEW_X0 == SIDEBAR_W,
        VIEW_X0 + VIEW_W == WIDTH,
        FRAME_LEN + 8 <= mem::MAX_BUFFER_SIZE,
{
}

// Pixels.

/// The column of the pixel that the byte with index `o` belongs to.
pub open spec fn column(o: int) -> int {
    o / 4 % (WIDTH as int)
}

/// The row of the pixel that the byte with index `o` belongs to.
pub open spec fn row(o: int) -> int {
    o / 4 / (WIDTH as int)
}

/// A byte of an opaque pixel of colour `c`.
pub open spec fn channel(c: Rgb, k: int) -> u8 {
    if k == 0 {
        c.0
    } else if k == 1 {
        c.1
    } else if k == 2 {
        c.2
    } else {
        255
    }
}

/// The pixel of the byte with index `o` lies in the columns from `x0` up to
/// `x1` and the rows from `y0` up to `y1`.
pub open spec fn inside(o: int, x0: int, y0: int, x1: int, y1: int) -> bool {
    x0 <= column(o) < x1 && y0 <= row(o) < y1
}

/// `frame` with the pixels in these columns and rows in colour `c`.
pub open spec fn painted(frame: Seq<u8>, x0: int, y0: int, x1: int, y1: int, c: Rgb) -> Seq<u8> {
    Seq::new(
        frame.len(),
        |o: int|
            if inside(o, x0, y0, x1, y1) {
                channel(c, o % 4)
            } else {
                frame[o]
            },
    )
}

/// `frame` with the pixels in these columns and rows at half their brightness.
pub open spec fn dimmed(frame: Seq<u8>, x0: int, y0: int, x1: int, y1: int) -> Seq<u8> {
    Seq::new(
        frame.len(),
        |o: int|
            if inside(o, x0, y0, x1, y1) && o % 4 < 3 {
                (frame[o] / 2) as u8
            } else {
                frame[o]
            },
    )
}

proof fn lemma_pixel(o: int, x: int, y: int, j: int)
    requires
        0 <= x < WIDTH,
        0 <= y,
        o == (y * WIDTH + x) * 4,
        0 <= j,
    ensures
        column(j) == x && row(j) == y <==> o <= j < o + 4,
        o <= j < o + 4 ==> j % 4 == j - o,
{
}

/// Where byte `k` of the pixel in column `x` and row `y` is in a frame.
pub open spec fn byte_at(x: int, y: int, k: int) -> int {
    (y * 320 + x) * 4 + k
}

/// The byte is one of a pixel in the frame.
pub open spec fn in_frame(x: int, y: int, k: int) -> bool {
    0 <= x < 320 && 0 <= y < 240 && 0 <= k < 4
}

proof fn lemma_byte_at(x: int, y: int, k: int)
    requires
        in_frame(x, y, k),
    ensures
        0 <= byte_at(x, y, k) < 307_200,
        column(byte_at(x, y, k)) == x,
        row(byte_at(x, y, k)) == y,
        byte_at(x, y, k) % 4 == k,
{
    lemma_pixel((y * WIDTH + x) * 4, x, y, byte_at(x, y, k));
}

/// A pixel of a painted rectangle has the colour and is opaque, and every other
/// pixel is as it was.
pub proof fn law_rectangle_is_painted(
    frame: Seq<u8>,
    x0: int,
    y0: int,
    x1: int,
    y1: int,
    c: Rgb,
    x: int,
    y: int,
    k: int,
)
    requires
        frame.len() == 307_200,
        in_frame(x, y, k),
    ensures
        painted(frame, x0, y0, x1, y1, c).len() == 307_200,
        painted(frame, x0, y0, x1, y1, c)[byte_at(x, y, k)] == if x0 <= x < x1 && y0 <= y < y1 {
            seq![c.0, c.1, c.2, 255u8][k]
        } else {
            frame[byte_at(x, y, k)]
        },
{
    lemma_byte_at(x, y, k);
}

/// A pixel of a dimmed rectangle has half of its brightness and is as opaque as
/// it was, and every other pixel is as it was.
pub proof fn law_rectangle_is_dimmed(
    frame: Seq<u8>,
    x0: int,
    y0: int,
    x1: int,
    y1: int,
    x: int,
    y: int,
    k: int,
)
    requires
        frame.len() == 307_200,
        in_frame(x, y, k),
    ensures
        dimmed(frame, x0, y0, x1, y1).len() == 307_200,
        dimmed(frame, x0, y0, x1, y1)[byte_at(x, y, k)] == if x0 <= x < x1 && y0 <= y < y1 && k
            != 3 {
            frame[byte_at(x, y, k)] as int / 2
        } else {
            frame[byte_at(x, y, k)] as int
        },
{
    lemma_byte_at(x, y, k);
}

/// Paints one pixel.
fn put_pixel(frame: &mut Vec<u8>, x: usize, y: usize, c: Rgb)
    requires
        x < WIDTH,
        y < HEIGHT,
        old(frame)@.len() == FRAME_LEN,
    ensures
        final(frame)@ == painted(old(frame)@, x as int, y as int, x + 1, y + 1, c),
{
    let o: usize = (y * WIDTH + x) * 4;
    frame.set(o, c.0);
    frame.set(o + 1, c.1);
    frame.set(o + 2, c.2);
    frame.set(o + 3, 255);
    proof {
        let want = painted(old(frame)@, x as int, y as int, x + 1, y + 1, c);
        assert forall|j: int| 0 <= j < FRAME_LEN implies frame@[j] == want[j] by {
            lemma_pixel(o as int, x as int, y as int, j);
        }
        assert(frame@ =~= want);
    }
}

/// Halves the brightness of one pixel.
fn dim_pixel(frame: &mut Vec<u8>, x: usize, y: usize)
    requires
        x < WIDTH,
        y < HEIGHT,
        old(frame)@.len() == FRAME_LEN,
    ensures
        final(frame)@ == dimmed(old(frame)@, x as int, y as int, x + 1, y + 1),
{
    let o: usize = (y * WIDTH + x) * 4;
    let r: u8 = frame[o] / 2;
    let g: u8 = frame[o + 1] / 2;
    let b: u8 = frame[o + 2] / 2;
    frame.set(o, r);
    frame.set(o + 1, g);
    frame.set(o + 2, b);
    proof {
        let want = dimmed(old(frame)@, x as int, y as int, x + 1, y + 1);
        assert forall|j: int| 0 <= j < FRAME_LEN implies frame@[j] == want[j] by {
            lemma_pixel(o as int, x as int, y as int, j);
        }
        assert(frame@ =~= want);
    }
}

/// The smaller of two numbers.
fn smaller(a: usize, b: usize) -> (r: usize)
    ensures
        r == if a < b {
            a
        } else {
            b
        },
{
    if a < b {
        a
    } else {
        b
    }
}

/// Columns and rows outside of a frame do not matter.
proof fn lemma_clip(o: int, x0: int, y0: int, x1: int, y1: int)
    requires
        0 <= o < FRAME_LEN,
    ensures
        inside(o, x0, y0, x1, y1) == inside(
            o,
            x0,
            y0,
            if x1 < WIDTH {
                x1
            } else {
                WIDTH as int
            },
            if y1 < HEIGHT {
                y1
            } else {
                HEIGHT as int
            },
        ),
{
}

/// Paints a rectangle, as far as it lies in the frame.
pub fn fill_rect(frame: &mut Vec<u8>, x: usize, y: usize, w: usize, h: usize, c: Rgb)
    requires
        old(frame)@.len() == FRAME_LEN,
        x + w <= usize::MAX,
        y + h <= usize::MAX,
    ensures
        final(frame)@ == painted(old(frame)@, x as int, y as int, x + w, y + h, c),
{
    let x1: usize = smaller(x + w, WIDTH);
    let y1: usize = smaller(y + h, HEIGHT);
    let mut yy: usize = y;
    assert(frame@ =~= painted(old(frame)@, x as int, y as int, x1 as int, yy as int, c));
    while yy < y1
        invariant
            y <= yy,
            x1 <= WIDTH,
            y1 <= HEIGHT,
            y < y1 ==> yy <= y1,
            y >= y1 ==> yy == y,
            frame@.len() == FRAME_LEN,
            frame@ == painted(old(frame)@, x as int, y as int, x1 as int, yy as int, c),
        decreases y1 - yy,
    {
        let ghost before = frame@;
        let mut xx: usize = x;
        assert(frame@ =~= painted(before, x as int, yy as int, xx as int, yy + 1, c));
        while xx < x1
            invariant
                x <= xx,
                yy < HEIGHT,
                x1 <= WIDTH,
                x < x1 ==> xx <= x1,
                x >= x1 ==> xx == x,
                frame@.len() == FRAME_LEN,
                frame@ == painted(before, x as int, yy as int, xx as int, yy + 1, c),
            decreases x1 - xx,
        {
            put_pixel(frame, xx, yy, c);
            assert(frame@ =~= painted(before, x as int, yy as int, xx + 1, yy + 1, c));
            xx = xx + 1;
        }
        assert(frame@ =~= painted(old(frame)@, x as int, y as int, x1 as int, yy + 1, c));
        yy = yy + 1;
    }
    proof {
        let want = painted(old(frame)@, x as int, y as int, x + w, y + h, c);
        assert forall|o: int| 0 <= o < FRAME_LEN implies frame@[o] == want[o] by {
            lemma_clip(o, x as int, y as int, x + w, y + h);
        }
        assert(frame@ =~= want);
    }
}

/// Halves the brightness of a rectangle, as far as it lies in the frame.
pub fn darken_rect(frame: &mut Vec<u8>, x: usize, y: usize, w: usize, h: usize)
    requires
        old(frame)@.len() == FRAME_LEN,
        x + w <= usize::MAX,
        y + h <= usize::MAX,
    ensures
        final(frame)@ == dimmed(old(frame)@, x as int, y as int, x + w, y + h),
{
    let x1: usize = smaller(x + w, WIDTH);
    let y1: usize = smaller(y + h, HEIGHT);
    let mut yy: usize = y;
    assert(frame@ =~= dimmed(old(frame)@, x as int, y as int, x1 as int, yy as int));
    while yy < y1
        invariant
            y <= yy,
            x1 <= WIDTH,
            y1 <= HEIGHT,
            y < y1 ==> yy <= y1,
            y >= y1 ==> yy == y,
            frame@.len() == FRAME_LEN,
            frame@ == dimmed(old(frame)@, x as int, y as int, x1 as int, yy as int),
        decreases y1 - yy,
    {
        let ghost before = frame@;
        let mut xx: usize = x;
        assert(frame@ =~= dimmed(before, x as int, yy as int, xx as int, yy + 1));
        while xx < x1
            invariant
                x <= xx,
                yy < HEIGHT,
                x1 <= WIDTH,
                x < x1 ==> xx <= x1,
                x >= x1 ==> xx == x,
                frame@.len() == FRAME_LEN,
                frame@ == dimmed(before, x as int, yy as int, xx as int, yy + 1),
            decreases x1 - xx,
        {
            dim_pixel(frame, xx, yy);
            assert(frame@ =~= dimmed(before, x as int, yy as int, xx + 1, yy + 1));
            xx = xx + 1;
        }
        assert(frame@ =~= dimmed(old(frame)@, x as int, y as int, x1 as int, yy + 1));
        yy = yy + 1;
    }
    proof {
        let want = dimmed(old(frame)@, x as int, y as int, x + w, y + h);
        assert forall|o: int| 0 <= o < FRAME_LEN implies frame@[o] == want[o] by {
            lemma_clip(o, x as int, y as int, x + w, y + h);
        }
        assert(frame@ =~= want);
    }
}

// Text.

/// A dot of a character covers the pixel of the byte with index `o`: that of
/// the character with index `i` in a text that starts at `x` and `y`, in the
/// glyph's row `r` and column `b`.
pub open spec fn covers(
    text: Seq<u8>,
    x: int,
    y: int,
    scale: int,
    i: int,
    r: int,
    b: int,
    o: int,
) -> bool {
    font::is_set(text[i], r, b) && inside(
        o,
        x + i * ADVANCE * scale + b * scale,
        y + r * scale,
        x + i * ADVANCE * scale + b * scale + scale,
        y + r * scale + scale,
    )
}

/// A dot with indices before `n`, `rows` and `cols` covers the pixel.
pub open spec fn inked_before(
    text: Seq<u8>,
    x: int,
    y: int,
    scale: int,
    n: int,
    rows: int,
    cols: int,
    o: int,
) -> bool {
    exists|i: int, r: int, b: int|
        {
            &&& 0 <= i && 0 <= r < 8 && 0 <= b < 8
            &&& i < n || (i == n && (r < rows || (r == rows && b < cols)))
            &&& #[trigger] covers(text, x, y, scale, i, r, b, o)
        }
}

/// `frame` with the pixels in colour `c` that are covered by the dots of the
/// text with indices before `n`, `rows` and `cols`.
pub open spec fn partly_written(
    frame: Seq<u8>,
    x: int,
    y: int,
    scale: int,
    text: Seq<u8>,
    c: Rgb,
    n: int,
    rows: int,
    cols: int,
) -> Seq<u8> {
    Seq::new(
        frame.len(),
        |o: int|
            if inked_before(text, x, y, scale, n, rows, cols, o) {
                channel(c, o % 4)
            } else {
                frame[o]
            },
    )
}

/// `frame` with `text` at `x` and `y` in colour `c`, each dot `scale` pixels
/// wide and high.
pub open spec fn written(frame: Seq<u8>, x: int, y: int, scale: int, text: Seq<u8>, c: Rgb) -> Seq<
    u8,
> {
    partly_written(frame, x, y, scale, text, c, text.len() as int, 0, 0)
}

/// The width of a text in pixels.
pub open spec fn width_of(len: nat, scale: nat) -> nat {
    len * ADVANCE as nat * scale
}

/// One more column: either its dot covers the pixel, or an earlier one does.
proof fn lemma_next_column(
    text: Seq<u8>,
    x: int,
    y: int,
    scale: int,
    n: int,
    r: int,
    b: int,
    o: int,
)
    requires
        0 <= n,
        0 <= r < 8,
        0 <= b < 8,
    ensures
        inked_before(text, x, y, scale, n, r, b + 1, o) <==> inked_before(
            text,
            x,
            y,
            scale,
            n,
            r,
            b,
            o,
        ) || covers(text, x, y, scale, n, r, b, o),
{
    if inked_before(text, x, y, scale, n, r, b + 1, o) && !inked_before(
        text,
        x,
        y,
        scale,
        n,
        r,
        b,
        o,
    ) {
        let (i, rr, bb) = choose|i: int, rr: int, bb: int|
            {
                &&& 0 <= i && 0 <= rr < 8 && 0 <= bb < 8
                &&& i < n || (i == n && (rr < r || (rr == r && bb < b + 1)))
                &&& #[trigger] covers(text, x, y, scale, i, rr, bb, o)
            };
        assert(covers(text, x, y, scale, i, rr, bb, o));
        assert(i == n && rr == r && bb == b);
    }
}

/// The end of a row is the start of the next, and the end of a character the
/// start of the next.
proof fn lemma_next_row(
    text: Seq<u8>,
    x: int,
    y: int,
    scale: int,
    n: int,
    r: int,
    o: int,
)
    ensures
        inked_before(text, x, y, scale, n, r, 8, o) <==> inked_before(
            text,
            x,
            y,
            scale,
            n,
            r + 1,
            0,
            o,
        ),
        inked_before(text, x, y, scale, n, 8, 0, o) <==> inked_before(
            text,
            x,
            y,
            scale,
            n + 1,
            0,
            0,
            o,
        ),
{
}

proof fn lemma_dot_fits(x: int, scale: int, n: int, b: int, len: int)
    requires
        0 <= n < len,
        0 <= b < 8,
        0 <= scale,
        0 <= x,
    ensures
        0 <= n * ADVANCE * scale <= len * ADVANCE * scale,
        0 <= b * scale <= 7 * scale,
{
    assert(0 <= n * 7 * scale <= len * 7 * scale) by (nonlinear_arith)
        requires
            0 <= n < len,
            0 <= scale,
    ;
    assert(0 <= b * scale <= 7 * scale) by (nonlinear_arith)
        requires
            0 <= b < 8,
            0 <= scale,
    ;
}

/// Paints one dot of a character, if it is set.
fn draw_dot(
    frame: &mut Vec<u8>,
    x: usize,
    y: usize,
    scale: usize,
    text: &[u8],
    c: Rgb,
    i: usize,
    r: usize,
    b: usize,
    bits: u8,
)
    requires
        old(frame)@.len() == FRAME_LEN,
        i < text@.len(),
        r < 8,
        b < 8,
        bits == font::rows_of(text@[i as int])[r as int],
        x + text@.len() * ADVANCE * scale + 8 * scale <= usize::MAX,
        y + 8 * scale <= usize::MAX,
    ensures
        final(frame)@.len() == FRAME_LEN,
        forall|o: int|
            0 <= o < FRAME_LEN ==> (#[trigger] final(frame)@[o]) == if covers(
                text@,
                x as int,
                y as int,
                scale as int,
                i as int,
                r as int,
                b as int,
                o,
            ) {
                channel(c, o % 4)
            } else {
                old(frame)@[o]
            },
{
    proof {
        lemma_dot_fits(x as int, scale as int, i as int, b as int, text@.len() as int);
        lemma_dot_fits(y as int, scale as int, 0, r as int, 1);
        assert(i * 7 * scale <= text@.len() * 7 * scale);
        assert(i * 7 <= i * 7 * scale || scale == 0) by (nonlinear_arith);
    }
    if scale == 0 {
        return;
    }
    if bits & (0x80u8 >> b) != 0 {
        let gx: usize = x + i * ADVANCE * scale + b * scale;
        let gy: usize = y + r * scale;
        fill_rect(frame, gx, gy, scale, scale, c);
    }
}

/// Paints one character.
fn draw_char(
    frame: &mut Vec<u8>,
    x: usize,
    y: usize,
    scale: usize,
    text: &[u8],
    c: Rgb,
    i: usize,
    Ghost(start): Ghost<Seq<u8>>,
)
    requires
        old(frame)@.len() == FRAME_LEN,
        start.len() == FRAME_LEN,
        i < text@.len(),
        x + text@.len() * ADVANCE * scale + 8 * scale <= usize::MAX,
        y + 8 * scale <= usize::MAX,
        old(frame)@ == partly_written(
            start,
            x as int,
            y as int,
            scale as int,
            text@,
            c,
            i as int,
            0,
            0,
        ),
    ensures
        final(frame)@ == partly_written(
            start,
            x as int,
            y as int,
            scale as int,
            text@,
            c,
            i + 1,
            0,
            0,
        ),
{
    let ghost (gx, gy, gs) = (x as int, y as int, scale as int);
    let rows = font::glyph(text[i]);
    let mut r: usize = 0;
    while r < 8
        invariant
            r <= 8,
            rows@ == font::rows_of(text@[i as int]),
            gx == x && gy == y && gs == scale,
            frame@.len() == FRAME_LEN == start.len(),
            i < text@.len(),
            x + text@.len() * ADVANCE * scale + 8 * scale <= usize::MAX,
            y + 8 * scale <= usize::MAX,
            frame@ == partly_written(start, gx, gy, gs, text@, c, i as int, r as int, 0),
        decreases 8 - r,
    {
        let mut b: usize = 0;
        while b < 8
            invariant
                r < 8,
                b <= 8,
                rows@ == font::rows_of(text@[i as int]),
                gx == x && gy == y && gs == scale,
                frame@.len() == FRAME_LEN == start.len(),
                i < text@.len(),
                x + text@.len() * ADVANCE * scale + 8 * scale <= usize::MAX,
                y + 8 * scale <= usize::MAX,
                frame@ == partly_written(start, gx, gy, gs, text@, c, i as int, r as int, b as int),
            decreases 8 - b,
        {
            draw_dot(frame, x, y, scale, text, c, i, r, b, rows[r]);
            proof {
                let want = partly_written(start, gx, gy, gs, text@, c, i as int, r as int, b + 1);
                assert forall|o: int| 0 <= o < FRAME_LEN implies frame@[o] == want[o] by {
                    lemma_next_column(text@, gx, gy, gs, i as int, r as int, b as int, o);
                }
                assert(frame@ =~= want);
            }
            b = b + 1;
        }
        proof {
            let want = partly_written(start, gx, gy, gs, text@, c, i as int, r + 1, 0);
            assert forall|o: int| 0 <= o < FRAME_LEN implies frame@[o] == want[o] by {
                lemma_next_row(text@, gx, gy, gs, i as int, r as int, o);
            }
            assert(frame@ =~= want);
        }
        r = r + 1;
    }
    proof {
        let want = partly_written(start, gx, gy, gs, text@, c, i + 1, 0, 0);
        assert forall|o: int| 0 <= o < FRAME_LEN implies frame@[o] == want[o] by {
            lemma_next_row(text@, gx, gy, gs, i as int, 0, o);
        }
        assert(frame@ =~= want);
    }
}

/// Writes `text` at `x` and `y`, each dot `scale` pixels wide and high.
pub fn draw_text(frame: &mut Vec<u8>, x: usize, y: usize, scale: usize, text: &[u8], c: Rgb)
    requires
        old(frame)@.len() == FRAME_LEN,
        x + text@.len() * ADVANCE * scale + 8 * scale <= usize::MAX,
        y + 8 * scale <= usize::MAX,
    ensures
        final(frame)@ == written(old(frame)@, x as int, y as int, scale as int, text@, c),
{
    let ghost start = frame@;
    let mut i: usize = 0;
    assert(frame@ =~= partly_written(start, x as int, y as int, scale as int, text@, c, 0, 0, 0));
    while i < text.len()
        invariant
            i <= text@.len(),
            start == old(frame)@,
            frame@.len() == FRAME_LEN == start.len(),
            x + text@.len() * ADVANCE * scale + 8 * scale <= usize::MAX,
            y + 8 * scale <= usize::MAX,
            frame@ == partly_written(
                start,
                x as int,
                y as int,
                scale as int,
                text@,
                c,
                i as int,
                0,
                0,
            ),
        decreases text@.len() - i,
    {
        draw_char(frame, x, y, scale, text, c, i, Ghost(start));
        i = i + 1;
    }
}

/// A pixel of a dot of a character has the colour where the dot is set, and is as
/// it was where it is not: seven dots further right for each character before it.
#[verifier::rlimit(40)]
pub proof fn law_dots_are_written(
    frame: Seq<u8>,
    x: int,
    y: int,
    scale: nat,
    text: Seq<u8>,
    c: Rgb,
    i: int,
    r: int,
    b: int,
    dx: int,
    dy: int,
    k: int,
)
    requires
        frame.len() == 307_200,
        0 <= i < text.len(),
        0 <= r < 8,
        0 <= b < 7,
        0 <= dx < scale,
        0 <= dy < scale,
        in_frame(x + (7 * i + b) * scale + dx, y + r * scale + dy, k),
    ensures
        ({
            let o = byte_at(x + (7 * i + b) * scale + dx, y + r * scale + dy, k);
            written(frame, x, y, scale as int, text, c)[o] == if font::is_set(text[i], r, b) {
                seq![c.0, c.1, c.2, 255u8][k]
            } else {
                frame[o]
            }
        }),
{
    let (px, py) = (x + (7 * i + b) * scale + dx, y + r * scale + dy);
    let o = byte_at(px, py, k);
    let s = scale as int;
    lemma_byte_at(px, py, k);
    assert(i * ADVANCE * s + b * s == (7 * i + b) * s) by (nonlinear_arith)
        requires
            ADVANCE == 7,
    ;
    if font::is_set(text[i], r, b) {
        assert(covers(text, x, y, s, i, r, b, o));
    }
    if inked_before(text, x, y, s, text.len() as int, 0, 0, o) {
        let (j, q, d) = choose|j: int, q: int, d: int|
            {
                &&& 0 <= j && 0 <= q < 8 && 0 <= d < 8
                &&& j < text.len() || (j == text.len() && (q < 0 || (q == 0 && d < 0)))
                &&& #[trigger] covers(text, x, y, s, j, q, d, o)
            };
        assert(covers(text, x, y, s, j, q, d, o));
        if d >= 6 {
            font::law_glyphs_are_small(text[j], q, d);
        }
        assert(j * ADVANCE * s + d * s == (7 * j + d) * s) by (nonlinear_arith)
            requires
                ADVANCE == 7,
        ;
        lemma_same_step((7 * i + b), dx, (7 * j + d), px - x - (7 * j + d) * s, s);
        lemma_same_step(r, dy, q, py - y - q * s, s);
        assert(i == j && b == d && r == q);
    }
}

/// A distance is so many steps and a rest in one way only.
proof fn lemma_same_step(a: int, e: int, b: int, f: int, s: int)
    requires
        0 <= e < s,
        0 <= f < s,
        a * s + e == b * s + f,
    ensures
        a == b,
{
    vstd::arithmetic::div_mod::lemma_fundamental_div_mod_converse(a * s + e, s, a, e);
    vstd::arithmetic::div_mod::lemma_fundamental_div_mod_converse(b * s + f, s, b, f);
}

/// What is not under the box of a text is as it was: the box is seven dots wide for
/// each character, and eight high.
pub proof fn law_text_stays_in_its_box(
    frame: Seq<u8>,
    x: int,
    y: int,
    scale: nat,
    text: Seq<u8>,
    c: Rgb,
    px: int,
    py: int,
    k: int,
)
    requires
        frame.len() == 307_200,
        in_frame(px, py, k),
        !(x <= px < x + width_of(text.len(), scale) && y <= py < y + 8 * scale),
    ensures
        width_of(text.len(), scale) == 7 * text.len() * scale,
        written(frame, x, y, scale as int, text, c)[byte_at(px, py, k)] == frame[byte_at(
            px,
            py,
            k,
        )],
{
    let o = byte_at(px, py, k);
    let s = scale as int;
    lemma_byte_at(px, py, k);
    assert(text.len() * ADVANCE * s == 7 * text.len() * s) by (nonlinear_arith)
        requires
            ADVANCE == 7,
    ;
    if inked_before(text, x, y, s, text.len() as int, 0, 0, o) {
        let (j, q, d) = choose|j: int, q: int, d: int|
            {
                &&& 0 <= j && 0 <= q < 8 && 0 <= d < 8
                &&& j < text.len() || (j == text.len() && (q < 0 || (q == 0 && d < 0)))
                &&& #[trigger] covers(text, x, y, s, j, q, d, o)
            };
        assert(covers(text, x, y, s, j, q, d, o));
        if d >= 6 {
            font::law_glyphs_are_small(text[j], q, d);
        }
        assert(j * ADVANCE * s + d * s == (7 * j + d) * s) by (nonlinear_arith)
            requires
                ADVANCE == 7,
        ;
        assert((7 * j + d) * s + s <= 7 * text.len() * s && 0 <= (7 * j + d) * s)
            by (nonlinear_arith)
            requires
                0 <= j < text.len(),
                0 <= d < 6,
                0 <= s,
        ;
        assert(q * s + s <= 8 * s && 0 <= q * s) by (nonlinear_arith)
            requires
                0 <= q < 8,
                0 <= s,
        ;
    }
}

/// The width of a text in pixels.
pub fn text_width(text: &[u8], scale: usize) -> (r: usize)
    requires
        width_of(text@.len(), scale as nat) <= usize::MAX,
        text@.len() * ADVANCE <= usize::MAX,
    ensures
        r == width_of(text@.len(), scale as nat),
{
    text.len() * ADVANCE * scale
}

/// The text of a number, in ASCII.
pub open spec fn digits(n: nat) -> Seq<u8>
    decreases n,
{
    if n < 10 {
        seq![(48 + n) as u8]
    } else {
        digits(n / 10).push((48 + n % 10) as u8)
    }
}

/// The number that digits in ASCII spell.
pub open spec fn value(text: Seq<u8>) -> nat
    decreases text.len(),
{
    if text.len() == 0 {
        0
    } else {
        value(text.drop_last()) * 10 + (text.last() - 48) as nat
    }
}

/// A number is the value of its digits, of which there are as many as it needs.
pub proof fn law_digits_spell_the_number(n: nat)
    ensures
        value(digits(n)) == n,
        digits(n).len() >= 1,
        n > 0 ==> digits(n)[0] != 48,
        n <= u32::MAX ==> digits(n).len() <= 10,
        forall|i: int| 0 <= i < digits(n).len() ==> 48 <= #[trigger] digits(n)[i] <= 57,
    decreases n,
{
    if n < 10 {
        let d = digits(n);
        assert(d.drop_last() =~= Seq::empty());
        assert(value(d.drop_last()) == 0);
    } else {
        law_digits_spell_the_number(n / 10);
        assert(digits(n).drop_last() =~= digits(n / 10));
        lemma_digit_count(n, 10);
    }
}

spec fn power_of_ten(k: nat) -> nat
    decreases k,
{
    if k == 0 {
        1
    } else {
        10 * power_of_ten((k - 1) as nat)
    }
}

proof fn lemma_digit_count(n: nat, k: nat)
    requires
        k >= 1,
    ensures
        n < power_of_ten(k) ==> digits(n).len() <= k,
        power_of_ten(10) == 10_000_000_000,
    decreases k,
{
    assert(power_of_ten(10) == 10_000_000_000) by {
        reveal_with_fuel(power_of_ten, 11);
    }
    if n < power_of_ten(k) && n >= 10 {
        if k == 1 {
            assert(power_of_ten(0) == 1);
        } else {
            lemma_digit_count(n / 10, (k - 1) as nat);
        }
    }
}

/// The digits of a number, in ASCII.
pub fn fmt_u32(n: u32) -> (r: Vec<u8>)
    ensures
        r@ == digits(n as nat),
    decreases n,
{
    if n < 10 {
        let mut out: Vec<u8> = Vec::new();
        out.push(48 + n as u8);
        assert(out@ =~= digits(n as nat));
        out
    } else {
        let mut out: Vec<u8> = fmt_u32(n / 10);
        out.push(48 + (n % 10) as u8);
        out
    }
}

// The picture.

/// `n` less `by`, or 0.
pub open spec fn less_by(n: int, by: int) -> int {
    if n < by {
        0
    } else {
        n - by
    }
}

/// Where a banner starts that is `tw` wide.
pub open spec fn banner_x(tw: int) -> int {
    VIEW_X0 + (VIEW_W - tw) / 2
}

/// `frame` with `text` in the middle of the view, on a darkened plate that
/// reaches six pixels beyond it.
pub open spec fn with_banner(frame: Seq<u8>, text: Seq<u8>) -> Seq<u8> {
    let tw = width_of(text.len(), 2) as int;
    let x = banner_x(tw);
    written(dimmed(frame, x - 6, 106, x + tw + 6, 134), x, 112, 2, text, (255, 255, 255))
}

/// `frame` with a cross at `x` and `y`.
pub open spec fn with_crosshair(frame: Seq<u8>, x: int, y: int) -> Seq<u8> {
    let left = less_by(x, 4);
    let upper = less_by(y, 4);
    painted(
        painted(frame, left, y, left + 9, y + 1, (255, 255, 255)),
        x,
        upper,
        x + 1,
        upper + 9,
        (255, 255, 255),
    )
}

/// `frame` with the panel of the sidebar and its title.
pub open spec fn with_panel(frame: Seq<u8>) -> Seq<u8> {
    let a = painted(frame, 0, 0, SIDEBAR_W as int, HEIGHT as int, (24, 26, 32));
    let b = painted(a, SIDEBAR_W - 2, 0, SIDEBAR_W as int, HEIGHT as int, (52, 56, 70));
    let c = written(b, 11, 12, 1, TITLE@, (205, 215, 235));
    painted(c, 11, 28, 71, 29, (52, 56, 70))
}

/// The colour of the button.
pub open spec fn button_colour(over: bool, down: bool) -> Rgb {
    if over && down {
        (58, 92, 168)
    } else if over {
        (70, 82, 116)
    } else {
        (44, 50, 66)
    }
}

/// `frame` with the button and its border.
pub open spec fn with_button(frame: Seq<u8>, over: bool, down: bool) -> Seq<u8> {
    let (x, y, x1, y1) = (BTN_X as int, BTN_Y as int, BTN_X + BTN_W, BTN_Y + BTN_H);
    let border: Rgb = (90, 100, 130);
    let a = painted(frame, x, y, x1, y1, button_colour(over, down));
    let b = painted(a, x, y, x1, y + 1, border);
    let c = painted(b, x, y1 - 1, x1, y1, border);
    let d = painted(c, x, y, x + 1, y1, border);
    painted(d, x1 - 1, y, x1, y1, border)
}

/// What the button says.
pub open spec fn button_label(paused: bool) -> Seq<u8> {
    if paused {
        PLAY@
    } else {
        PAUSE@
    }
}

/// `frame` with what the button says, in its middle, and the state below it.
pub open spec fn with_labels(frame: Seq<u8>, paused: bool) -> Seq<u8> {
    let label = button_label(paused);
    let x = BTN_X + (BTN_W - width_of(label.len(), 1)) / 2;
    let y = BTN_Y + (BTN_H - 8) / 2;
    let a = written(frame, x, y, 1, label, (240, 244, 252));
    if paused {
        written(a, 12, BTN_Y + BTN_H + 10, 1, PAUSED@, (245, 185, 85))
    } else {
        written(a, 12, BTN_Y + BTN_H + 10, 1, LIVE@, (120, 220, 145))
    }
}

/// `frame` with the number of clicks and a hint.
pub open spec fn with_counter(frame: Seq<u8>, paused: bool, clicks: nat) -> Seq<u8> {
    let a = written(frame, 12, 132, 1, CLICKS@, (150, 160, 180));
    let b = written(a, 12, 146, 1, digits(clicks), (220, 226, 238));
    if paused {
        let c = written(b, 12, HEIGHT - 26, 1, MOVE_MOUSE@, (120, 132, 152));
        written(c, 12, HEIGHT - 16, 1, TO_EXPLORE@, (120, 132, 152))
    } else {
        written(b, 12, HEIGHT - 16, 1, CLICK_PAUSE@, (110, 120, 140))
    }
}

/// `frame` with the sidebar.
pub open spec fn with_sidebar(
    frame: Seq<u8>,
    paused: bool,
    clicks: nat,
    over: bool,
    down: bool,
) -> Seq<u8> {
    with_counter(with_labels(with_button(with_panel(frame), over, down), paused), paused, clicks)
}

/// Writes `text` in the middle of the view, on a darkened plate.
pub fn draw_banner(frame: &mut Vec<u8>, text: &[u8])
    requires
        old(frame)@.len() == FRAME_LEN,
        width_of(text@.len(), 2) <= VIEW_W,
    ensures
        final(frame)@ == with_banner(old(frame)@, text@),
{
    let scale: usize = 2;
    let tw: usize = text_width(text, scale);
    let th: usize = 8 * scale;
    let x0: usize = VIEW_X0 + (VIEW_W - tw) / 2;
    let y0: usize = (HEIGHT - th) / 2;
    let pad: usize = 6;
    darken_rect(frame, x0 - pad, y0 - pad, tw + pad * 2, th + pad * 2);
    draw_text(frame, x0, y0, scale, text, (255, 255, 255));
}

/// Draws a cross at `x` and `y`.
pub fn draw_crosshair(frame: &mut Vec<u8>, x: usize, y: usize)
    requires
        old(frame)@.len() == FRAME_LEN,
        x < WIDTH,
        y < HEIGHT,
    ensures
        final(frame)@ == with_crosshair(old(frame)@, x as int, y as int),
{
    let left: usize = if x < 4 {
        0
    } else {
        x - 4
    };
    let upper: usize = if y < 4 {
        0
    } else {
        y - 4
    };
    fill_rect(frame, left, y, 9, 1, (255, 255, 255));
    fill_rect(frame, x, upper, 1, 9, (255, 255, 255));
}

/// Draws the panel of the sidebar and its title.
fn draw_panel(frame: &mut Vec<u8>)
    requires
        old(frame)@.len() == FRAME_LEN,
    ensures
        final(frame)@ == with_panel(old(frame)@),
{
    fill_rect(frame, 0, 0, SIDEBAR_W, HEIGHT, (24, 26, 32));
    fill_rect(frame, SIDEBAR_W - 2, 0, 2, HEIGHT, (52, 56, 70));
    draw_text(frame, 11, 12, 1, TITLE.as_slice(), (205, 215, 235));
    fill_rect(frame, 11, 28, 60, 1, (52, 56, 70));
}

/// Draws the button and its border.
fn draw_button(frame: &mut Vec<u8>, over: bool, down: bool)
    requires
        old(frame)@.len() == FRAME_LEN,
    ensures
        final(frame)@ == with_button(old(frame)@, over, down),
{
    let colour: Rgb = if over && down {
        (58, 92, 168)
    } else if over {
        (70, 82, 116)
    } else {
        (44, 50, 66)
    };
    fill_rect(frame, BTN_X, BTN_Y, BTN_W, BTN_H, colour);
    fill_rect(frame, BTN_X, BTN_Y, BTN_W, 1, (90, 100, 130));
    fill_rect(frame, BTN_X, BTN_Y + BTN_H - 1, BTN_W, 1, (90, 100, 130));
    fill_rect(frame, BTN_X, BTN_Y, 1, BTN_H, (90, 100, 130));
    fill_rect(frame, BTN_X + BTN_W - 1, BTN_Y, 1, BTN_H, (90, 100, 130));
}

/// Writes what the button says, and the state below it.
fn draw_labels(frame: &mut Vec<u8>, paused: bool)
    requires
        old(frame)@.len() == FRAME_LEN,
    ensures
        final(frame)@ == with_labels(old(frame)@, paused),
{
    let label: &[u8] = if paused {
        PLAY.as_slice()
    } else {
        PAUSE.as_slice()
    };
    let lw: usize = text_width(label, 1);
    let lx: usize = BTN_X + (BTN_W - lw) / 2;
    let ly: usize = BTN_Y + (BTN_H - 8) / 2;
    draw_text(frame, lx, ly, 1, label, (240, 244, 252));
    if paused {
        draw_text(frame, 12, BTN_Y + BTN_H + 10, 1, PAUSED.as_slice(), (245, 185, 85));
    } else {
        draw_text(frame, 12, BTN_Y + BTN_H + 10, 1, LIVE.as_slice(), (120, 220, 145));
    }
}

/// Writes the number of clicks and a hint.
fn draw_counter(frame: &mut Vec<u8>, paused: bool, clicks: u32)
    requires
        old(frame)@.len() == FRAME_LEN,
    ensures
        final(frame)@ == with_counter(old(frame)@, paused, clicks as nat),
{
    draw_text(frame, 12, 132, 1, CLICKS.as_slice(), (150, 160, 180));
    let count = fmt_u32(clicks);
    proof {
        law_digits_spell_the_number(clicks as nat);
    }
    draw_text(frame, 12, 146, 1, count.as_slice(), (220, 226, 238));
    if paused {
        draw_text(frame, 12, HEIGHT - 26, 1, MOVE_MOUSE.as_slice(), (120, 132, 152));
        draw_text(frame, 12, HEIGHT - 16, 1, TO_EXPLORE.as_slice(), (120, 132, 152));
    } else {
        draw_text(frame, 12, HEIGHT - 16, 1, CLICK_PAUSE.as_slice(), (110, 120, 140));
    }
}

/// Draws the sidebar.
pub fn draw_sidebar(frame: &mut Vec<u8>, paused: bool, clicks: u32, over: bool, down: bool)
    requires
        old(frame)@.len() == FRAME_LEN,
    ensures
        final(frame)@ == with_sidebar(old(frame)@, paused, clicks as nat, over, down),
{
    draw_panel(frame);
    draw_button(frame, over, down);
    draw_labels(frame, paused);
    draw_counter(frame, paused, clicks);
}

/// The two frames are the same outside of the sidebar.
pub open spec fn same_view(a: Seq<u8>, b: Seq<u8>) -> bool {
    a.len() == b.len() && forall|o: int|
        0 <= o < a.len() && column(o) >= SIDEBAR_W ==> #[trigger] a[o] == b[o]
}

/// A text of `len` characters reaches no further than one dot beyond its width.
proof fn lemma_text_stays_left(frame: Seq<u8>, x: int, y: int, text: Seq<u8>, c: Rgb)
    requires
        x + text.len() * 7 + 1 <= SIDEBAR_W,
    ensures
        same_view(written(frame, x, y, 1, text, c), frame),
{
    let after = written(frame, x, y, 1, text, c);
    assert forall|o: int| 0 <= o < after.len() && column(o) >= SIDEBAR_W implies #[trigger] after[o]
        == frame[o] by {
        if inked_before(text, x, y, 1, text.len() as int, 0, 0, o) {
            let (i, r, b) = choose|i: int, r: int, b: int|
                {
                    &&& 0 <= i && 0 <= r < 8 && 0 <= b < 8
                    &&& i < text.len() || (i == text.len() && (r < 0 || (r == 0 && b < 0)))
                    &&& #[trigger] covers(text, x, y, 1, i, r, b, o)
                };
            assert(i < text.len());
            assert(i * ADVANCE * 1 == i * 7);
            assert(b * 1 == b);
        }
    }
}

/// The sidebar is drawn in the sidebar: the view stays as it was.
pub proof fn law_sidebar_leaves_the_view(
    frame: Seq<u8>,
    paused: bool,
    clicks: u32,
    over: bool,
    down: bool,
)
    requires
        frame.len() == FRAME_LEN,
    ensures
        same_view(with_sidebar(frame, paused, clicks as nat, over, down), frame),
{
    let panel = with_panel(frame);
    let a = painted(frame, 0, 0, SIDEBAR_W as int, HEIGHT as int, (24, 26, 32));
    let b = painted(a, SIDEBAR_W - 2, 0, SIDEBAR_W as int, HEIGHT as int, (52, 56, 70));
    lemma_text_stays_left(b, 11, 12, TITLE@, (205, 215, 235));
    assert(same_view(panel, frame));
    let button = with_button(panel, over, down);
    assert(same_view(button, panel));
    let label = button_label(paused);
    let x = BTN_X + (BTN_W - width_of(label.len(), 1)) / 2;
    let y = BTN_Y + (BTN_H - 8) / 2;
    let labels = with_labels(button, paused);
    let named = written(button, x, y, 1, label, (240, 244, 252));
    lemma_text_stays_left(button, x, y, label, (240, 244, 252));
    lemma_text_stays_left(named, 12, BTN_Y + BTN_H + 10, PAUSED@, (245, 185, 85));
    lemma_text_stays_left(named, 12, BTN_Y + BTN_H + 10, LIVE@, (120, 220, 145));
    assert(same_view(labels, button));
    law_digits_spell_the_number(clicks as nat);
    let c = written(labels, 12, 132, 1, CLICKS@, (150, 160, 180));
    let d = written(c, 12, 146, 1, digits(clicks as nat), (220, 226, 238));
    let e = written(d, 12, HEIGHT - 26, 1, MOVE_MOUSE@, (120, 132, 152));
    lemma_text_stays_left(labels, 12, 132, CLICKS@, (150, 160, 180));
    lemma_text_stays_left(c, 12, 146, digits(clicks as nat), (220, 226, 238));
    lemma_text_stays_left(d, 12, HEIGHT - 26, MOVE_MOUSE@, (120, 132, 152));
    lemma_text_stays_left(e, 12, HEIGHT - 16, TO_EXPLORE@, (120, 132, 152));
    lemma_text_stays_left(d, 12, HEIGHT - 16, CLICK_PAUSE@, (110, 120, 140));
}

/// Below the line under the title the sidebar has one colour but for the button,
/// which is filled with its own.
proof fn lemma_background(frame: Seq<u8>, over: bool, down: bool, px: int, py: int, k: int)
    requires
        frame.len() == 307_200,
        in_frame(px, py, k),
        px < 94,
        py > 28,
    ensures
        ({
            let got = with_button(with_panel(frame), over, down)[byte_at(px, py, k)];
            let fill = button_colour(over, down);
            &&& !(12 <= px <= 83 && 64 <= py <= 93) ==> got == seq![24u8, 26, 32, 255][k]
            &&& 12 < px < 83 && 64 < py < 93 ==> got == seq![fill.0, fill.1, fill.2, 255u8][k]
        }),
        with_button(with_panel(frame), over, down).len() == 307_200,
{
    let a = painted(frame, 0, 0, 96, 240, (24, 26, 32));
    law_rectangle_is_painted(frame, 0, 0, 96, 240, (24, 26, 32), px, py, k);
    let b = painted(a, 94, 0, 96, 240, (52, 56, 70));
    law_rectangle_is_painted(a, 94, 0, 96, 240, (52, 56, 70), px, py, k);
    let c = written(b, 11, 12, 1, TITLE@, (205, 215, 235));
    law_text_stays_in_its_box(b, 11, 12, 1, TITLE@, (205, 215, 235), px, py, k);
    law_rectangle_is_painted(c, 11, 28, 71, 29, (52, 56, 70), px, py, k);
    law_button_is_drawn(with_panel(frame), over, down, px, py, k);
}

/// The sidebar says how many clicks there were, in decimal, and whether the
/// picture moves: each dot of the text has the colour of the text where it is set,
/// and else that of the sidebar.
pub proof fn law_sidebar_says_the_state(
    frame: Seq<u8>,
    paused: bool,
    clicks: u32,
    over: bool,
    down: bool,
    i: int,
    r: int,
    b: int,
    k: int,
)
    requires
        frame.len() == 307_200,
        0 <= i,
        0 <= r < 8,
        0 <= b < 7,
        0 <= k < 4,
    ensures
        ({
            let got = with_sidebar(frame, paused, clicks as nat, over, down);
            let dot = |text: Seq<u8>, y: int, c: Rgb|
                i < text.len() ==> got[byte_at(12 + 7 * i + b, y + r, k)] == if font::is_set(
                    text[i],
                    r,
                    b,
                ) {
                    seq![c.0, c.1, c.2, 255u8][k]
                } else {
                    seq![24u8, 26, 32, 255][k]
                };
            &&& dot(digits(clicks as nat), 146, (220, 226, 238))
            &&& dot(seq![67u8, 76, 73, 67, 75, 83], 132, (150, 160, 180))
            &&& if paused {
                &&& dot(seq![80u8, 65, 85, 83, 69, 68], 104, (245, 185, 85))
                &&& dot(seq![77u8, 79, 86, 69, 32, 77, 79, 85, 83, 69], 214, (120, 132, 152))
                &&& dot(seq![84u8, 79, 32, 69, 88, 80, 76, 79, 82, 69], 224, (120, 132, 152))
            } else {
                &&& dot(seq![76u8, 73, 86, 69], 104, (120, 220, 145))
                &&& dot(seq![67u8, 76, 73, 67, 75, 32, 80, 65, 85, 83, 69], 224, (110, 120, 140))
            }
        }),
{
    law_digits_spell_the_number(clicks as nat);
    assert(CLICKS@ =~= seq![67u8, 76, 73, 67, 75, 83]);
    assert(PAUSED@ =~= seq![80u8, 65, 85, 83, 69, 68]);
    assert(MOVE_MOUSE@ =~= seq![77u8, 79, 86, 69, 32, 77, 79, 85, 83, 69]);
    assert(TO_EXPLORE@ =~= seq![84u8, 79, 32, 69, 88, 80, 76, 79, 82, 69]);
    assert(LIVE@ =~= seq![76u8, 73, 86, 69]);
    assert(CLICK_PAUSE@ =~= seq![67u8, 76, 73, 67, 75, 32, 80, 65, 85, 83, 69]);
    lemma_line(frame, paused, clicks, over, down, 0, i, r, b, k);
    lemma_line(frame, paused, clicks, over, down, 1, i, r, b, k);
    lemma_line(frame, paused, clicks, over, down, 2, i, r, b, k);
    lemma_line(frame, paused, clicks, over, down, 3, i, r, b, k);
    if paused {
        lemma_line(frame, paused, clicks, over, down, 4, i, r, b, k);
    }
}

/// The lines below the button, from the top: their text, row and colour.
spec fn line(paused: bool, clicks: nat, n: int) -> (Seq<u8>, int, Rgb) {
    if n == 0 {
        if paused {
            (PAUSED@, 104, (245, 185, 85))
        } else {
            (LIVE@, 104, (120, 220, 145))
        }
    } else if n == 1 {
        (CLICKS@, 132, (150, 160, 180))
    } else if n == 2 {
        (digits(clicks), 146, (220, 226, 238))
    } else if !paused {
        (CLICK_PAUSE@, 224, (110, 120, 140))
    } else if n == 3 {
        (MOVE_MOUSE@, 214, (120, 132, 152))
    } else {
        (TO_EXPLORE@, 224, (120, 132, 152))
    }
}

/// `frame` with the first `n` lines.
spec fn with_lines(frame: Seq<u8>, paused: bool, clicks: nat, n: int) -> Seq<u8>
    decreases n,
{
    if n <= 0 {
        frame
    } else {
        let (text, y, c) = line(paused, clicks, n - 1);
        written(with_lines(frame, paused, clicks, n - 1), 12, y, 1, text, c)
    }
}

/// What is not in the rows of a line is as it was before the line.
proof fn lemma_other_rows(
    frame: Seq<u8>,
    paused: bool,
    clicks: nat,
    from: int,
    n: int,
    px: int,
    py: int,
    k: int,
)
    requires
        frame.len() == 307_200,
        0 <= from <= n,
        in_frame(px, py, k),
        forall|j: int|
            from <= j < n ==> !(line(paused, clicks, j).1 <= py < (#[trigger] line(
                paused,
                clicks,
                j,
            )).1 + 8),
    ensures
        with_lines(frame, paused, clicks, n)[byte_at(px, py, k)] == with_lines(
            frame,
            paused,
            clicks,
            from,
        )[byte_at(px, py, k)],
        with_lines(frame, paused, clicks, n).len() == 307_200,
        with_lines(frame, paused, clicks, from).len() == 307_200,
    decreases n,
{
    if from < n {
        lemma_other_rows(frame, paused, clicks, from, n - 1, px, py, k);
        let (text, y, c) = line(paused, clicks, n - 1);
        law_text_stays_in_its_box(
            with_lines(frame, paused, clicks, n - 1),
            12,
            y,
            1,
            text,
            c,
            px,
            py,
            k,
        );
    } else if n > 0 {
        lemma_lines_len(frame, paused, clicks, n);
    }
}

proof fn lemma_lines_len(frame: Seq<u8>, paused: bool, clicks: nat, n: int)
    requires
        frame.len() == 307_200,
    ensures
        with_lines(frame, paused, clicks, n).len() == 307_200,
    decreases n,
{
    if n > 0 {
        lemma_lines_len(frame, paused, clicks, n - 1);
    }
}

#[verifier::rlimit(60)]
proof fn lemma_line(
    frame: Seq<u8>,
    paused: bool,
    clicks: u32,
    over: bool,
    down: bool,
    n: int,
    i: int,
    r: int,
    b: int,
    k: int,
)
    requires
        frame.len() == 307_200,
        0 <= n <= if paused {
            4int
        } else {
            3
        },
        0 <= i,
        0 <= r < 8,
        0 <= b < 7,
        0 <= k < 4,
    ensures
        ({
            let (text, y, c) = line(paused, clicks as nat, n);
            i < text.len() ==> with_sidebar(frame, paused, clicks as nat, over, down)[byte_at(
                12 + 7 * i + b,
                y + r,
                k,
            )] == if font::is_set(text[i], r, b) {
                seq![c.0, c.1, c.2, 255u8][k]
            } else {
                seq![24u8, 26, 32, 255][k]
            }
        }),
{
    let count = clicks as nat;
    let (text, y, c) = line(paused, count, n);
    let last = if paused {
        5int
    } else {
        4
    };
    law_digits_spell_the_number(count);
    if i < text.len() {
        let (px, py) = (12 + 7 * i + b, y + r);
        let button = with_button(with_panel(frame), over, down);
        lemma_background(frame, over, down, px, py, k);
        let label = button_label(paused);
        let lx = BTN_X + (BTN_W - width_of(label.len(), 1)) / 2;
        let ly = BTN_Y + (BTN_H - 8) / 2;
        let named = written(button, lx, ly, 1, label, (240, 244, 252));
        law_text_stays_in_its_box(button, lx, ly, 1, label, (240, 244, 252), px, py, k);
        reveal_with_fuel(with_lines, 6);
        assert(with_sidebar(frame, paused, count, over, down) == with_lines(
            named,
            paused,
            count,
            last,
        ));
        lemma_other_rows(named, paused, count, 0, n, px, py, k);
        lemma_other_rows(named, paused, count, n + 1, last, px, py, k);
        let before = with_lines(named, paused, count, n);
        assert((7 * i + b) * 1 == 7 * i + b && r * 1 == r);
        law_dots_are_written(before, 12, y, 1, text, c, i, r, b, 0, 0, k);
    }
}

/// The button says what a click on it does: each dot of the text has the colour
/// of the text where it is set, and else that of the button.
#[verifier::rlimit(60)]
pub proof fn law_button_says_what_it_does(
    frame: Seq<u8>,
    paused: bool,
    clicks: u32,
    over: bool,
    down: bool,
    i: int,
    r: int,
    b: int,
    k: int,
)
    requires
        frame.len() == 307_200,
        0 <= r < 8,
        0 <= b < 7,
        0 <= k < 4,
        0 <= i < if paused {
            4int
        } else {
            5
        },
    ensures
        ({
            let text = if paused {
                seq![80u8, 76, 65, 89]
            } else {
                seq![80u8, 65, 85, 83, 69]
            };
            let x = if paused {
                34int
            } else {
                30
            };
            let fill = button_colour(over, down);
            with_sidebar(frame, paused, clicks as nat, over, down)[byte_at(
                x + 7 * i + b,
                75 + r,
                k,
            )] == if font::is_set(text[i], r, b) {
                seq![240u8, 244, 252, 255][k]
            } else {
                seq![fill.0, fill.1, fill.2, 255u8][k]
            }
        }),
{
    let count = clicks as nat;
    let label = button_label(paused);
    assert(PLAY@ =~= seq![80u8, 76, 65, 89]);
    assert(PAUSE@ =~= seq![80u8, 65, 85, 83, 69]);
    let last = if paused {
        5int
    } else {
        4
    };
    let lx = BTN_X + (BTN_W - width_of(label.len(), 1)) / 2;
    assert(label.len() * ADVANCE as nat * 1 == 7 * label.len());
    let (px, py) = (lx + 7 * i + b, 75 + r);
    let button = with_button(with_panel(frame), over, down);
    lemma_background(frame, over, down, px, py, k);
    let named = written(button, lx, 75, 1, label, (240, 244, 252));
    assert((7 * i + b) * 1 == 7 * i + b && r * 1 == r);
    law_dots_are_written(button, lx, 75, 1, label, (240, 244, 252), i, r, b, 0, 0, k);
    reveal_with_fuel(with_lines, 6);
    assert(with_sidebar(frame, paused, count, over, down) == with_lines(
        named,
        paused,
        count,
        last,
    ));
    lemma_other_rows(named, paused, count, 0, last, px, py, k);
}

/// Where the sidebar says nothing it has one colour, with an edge of two columns
/// towards the view and a line under the title.
#[verifier::rlimit(60)]
pub proof fn law_sidebar_is_plain_elsewhere(
    frame: Seq<u8>,
    paused: bool,
    clicks: u32,
    over: bool,
    down: bool,
    px: int,
    py: int,
    k: int,
)
    requires
        frame.len() == 307_200,
        in_frame(px, py, k),
        px < 96,
        !(11 <= px < 60 && 12 <= py < 20),
        !(12 <= px <= 83 && 64 <= py <= 93),
        px < 94 ==> !(104 <= py < 112 || 132 <= py < 140 || 146 <= py < 154 || 214 <= py < 222
            || 224 <= py < 232),
    ensures
        with_sidebar(frame, paused, clicks as nat, over, down)[byte_at(px, py, k)] == if px >= 94
            || (11 <= px < 71 && py == 28) {
            seq![52u8, 56, 70, 255][k]
        } else {
            seq![24u8, 26, 32, 255][k]
        },
{
    let count = clicks as nat;
    let last = if paused {
        5int
    } else {
        4
    };
    law_digits_spell_the_number(count);
    lemma_panel(frame, px, py, k);
    law_button_is_drawn(with_panel(frame), over, down, px, py, k);
    let button = with_button(with_panel(frame), over, down);
    let label = button_label(paused);
    let lx = BTN_X + (BTN_W - width_of(label.len(), 1)) / 2;
    assert(label.len() * ADVANCE as nat * 1 == 7 * label.len());
    let named = written(button, lx, 75, 1, label, (240, 244, 252));
    law_text_stays_in_its_box(button, lx, 75, 1, label, (240, 244, 252), px, py, k);
    reveal_with_fuel(with_lines, 6);
    assert(with_sidebar(frame, paused, count, over, down) == with_lines(
        named,
        paused,
        count,
        last,
    ));
    if px < 94 {
        lemma_other_rows(named, paused, count, 0, last, px, py, k);
    } else {
        lemma_beside_the_lines(named, paused, count, last, px, py, k);
    }
}

/// The panel of the sidebar outside of the box of its title.
proof fn lemma_panel(frame: Seq<u8>, px: int, py: int, k: int)
    requires
        frame.len() == 307_200,
        in_frame(px, py, k),
        px < 96,
        !(11 <= px < 60 && 12 <= py < 20),
    ensures
        with_panel(frame).len() == 307_200,
        with_panel(frame)[byte_at(px, py, k)] == if px >= 94 || (11 <= px < 71 && py == 28) {
            seq![52u8, 56, 70, 255][k]
        } else {
            seq![24u8, 26, 32, 255][k]
        },
{
    let a = painted(frame, 0, 0, 96, 240, (24, 26, 32));
    law_rectangle_is_painted(frame, 0, 0, 96, 240, (24, 26, 32), px, py, k);
    let b = painted(a, 94, 0, 96, 240, (52, 56, 70));
    law_rectangle_is_painted(a, 94, 0, 96, 240, (52, 56, 70), px, py, k);
    let c = written(b, 11, 12, 1, TITLE@, (205, 215, 235));
    assert(7nat * ADVANCE as nat * 1 == 49);
    law_text_stays_in_its_box(b, 11, 12, 1, TITLE@, (205, 215, 235), px, py, k);
    law_rectangle_is_painted(c, 11, 28, 71, 29, (52, 56, 70), px, py, k);
}

/// No line reaches the edge of the sidebar.
proof fn lemma_beside_the_lines(
    frame: Seq<u8>,
    paused: bool,
    clicks: nat,
    n: int,
    px: int,
    py: int,
    k: int,
)
    requires
        frame.len() == 307_200,
        in_frame(px, py, k),
        px >= 94,
        digits(clicks).len() <= 10,
    ensures
        with_lines(frame, paused, clicks, n).len() == 307_200,
        with_lines(frame, paused, clicks, n)[byte_at(px, py, k)] == frame[byte_at(px, py, k)],
    decreases n,
{
    if n > 0 {
        lemma_beside_the_lines(frame, paused, clicks, n - 1, px, py, k);
        let (text, y, c) = line(paused, clicks, n - 1);
        assert(text.len() <= 11);
        assert(text.len() * ADVANCE as nat * 1 == 7 * text.len());
        law_text_stays_in_its_box(
            with_lines(frame, paused, clicks, n - 1),
            12,
            y,
            1,
            text,
            c,
            px,
            py,
            k,
        );
    }
}

/// The sidebar has its title: each dot of it has its colour where it is set, and else
/// that of the sidebar.
#[verifier::rlimit(60)]
pub proof fn law_sidebar_has_its_title(
    frame: Seq<u8>,
    paused: bool,
    clicks: u32,
    over: bool,
    down: bool,
    i: int,
    r: int,
    b: int,
    k: int,
)
    requires
        frame.len() == 307_200,
        0 <= i < 7,
        0 <= r < 8,
        0 <= b < 7,
        0 <= k < 4,
    ensures
        with_sidebar(frame, paused, clicks as nat, over, down)[byte_at(
            11 + 7 * i + b,
            12 + r,
            k,
        )] == if font::is_set(seq![87u8, 65, 83, 77, 32, 85, 73][i], r, b) {
            seq![205u8, 215, 235, 255][k]
        } else {
            seq![24u8, 26, 32, 255][k]
        },
{
    let count = clicks as nat;
    let last = if paused {
        5int
    } else {
        4
    };
    let (px, py) = (11 + 7 * i + b, 12 + r);
    assert(TITLE@ =~= seq![87u8, 65, 83, 77, 32, 85, 73]);
    let a = painted(frame, 0, 0, 96, 240, (24, 26, 32));
    law_rectangle_is_painted(frame, 0, 0, 96, 240, (24, 26, 32), px, py, k);
    let e = painted(a, 94, 0, 96, 240, (52, 56, 70));
    law_rectangle_is_painted(a, 94, 0, 96, 240, (52, 56, 70), px, py, k);
    let c = written(e, 11, 12, 1, TITLE@, (205, 215, 235));
    assert((7 * i + b) * 1 == 7 * i + b && r * 1 == r);
    law_dots_are_written(e, 11, 12, 1, TITLE@, (205, 215, 235), i, r, b, 0, 0, k);
    law_rectangle_is_painted(c, 11, 28, 71, 29, (52, 56, 70), px, py, k);
    law_button_is_drawn(with_panel(frame), over, down, px, py, k);
    let button = with_button(with_panel(frame), over, down);
    let label = button_label(paused);
    let lx = BTN_X + (BTN_W - width_of(label.len(), 1)) / 2;
    let named = written(button, lx, 75, 1, label, (240, 244, 252));
    law_text_stays_in_its_box(button, lx, 75, 1, label, (240, 244, 252), px, py, k);
    reveal_with_fuel(with_lines, 6);
    assert(with_sidebar(frame, paused, count, over, down) == with_lines(
        named,
        paused,
        count,
        last,
    ));
    lemma_other_rows(named, paused, count, 0, last, px, py, k);
}

// The state.

/// What the user interface remembers from one frame to the next.
#[derive(Clone, Copy, Debug, PartialEq, Eq, Structural)]
pub struct Ui {
    pub paused: bool,
    pub clicks: u32,
    pub prev_down: bool,
}

/// Where the constant of a frame comes from.
#[derive(Clone, Copy, Debug, PartialEq, Eq, Structural)]
pub enum Source {
    /// From the orbit that the host computes.
    Orbit,
    /// From where the pointer is in the view.
    Pointer,
    /// From the frame before.
    Kept,
}

impl Ui {
    /// Each click on the button pauses or goes on.
    pub open spec fn wf(self) -> bool {
        self.paused == (self.clicks % 2 == 1)
    }

    /// The pointer was pressed on the button just now.
    pub open spec fn is_click(self, over_btn: bool, down: bool) -> bool {
        over_btn && down && !self.prev_down
    }

    /// The state after the pointer is taken in.
    pub open spec fn pointed(self, over_btn: bool, down: bool) -> Ui {
        if self.is_click(over_btn, down) {
            Ui { paused: !self.paused, clicks: (self.clicks + 1) as u32, prev_down: down }
        } else {
            Ui { paused: self.paused, clicks: self.clicks, prev_down: down }
        }
    }

    /// The state before the first frame.
    pub fn new() -> (r: Ui)
        ensures
            r.wf(),
            r == (Ui { paused: false, clicks: 0, prev_down: false }),
    {
        Ui { paused: false, clicks: 0, prev_down: false }
    }

    /// Takes in the pointer: a click is counted once, however long it lasts.
    pub fn point(&mut self, over_btn: bool, down: bool)
        requires
            old(self).wf(),
            old(self).is_click(over_btn, down) ==> old(self).clicks < u32::MAX,
        ensures
            final(self).wf(),
            *final(self) == old(self).pointed(over_btn, down),
    {
        if over_btn && down && !self.prev_down {
            self.paused = !self.paused;
            self.clicks = self.clicks + 1;
        }
        self.prev_down = down;
    }

    /// Where the constant of this frame comes from: the orbit, or, while
    /// paused, the pointer, as long as it is over the view.
    pub fn source(&self, over_view: bool) -> (r: Source)
        ensures
            r == source_of(self.paused, over_view),
            r == if !self.paused {
                Source::Orbit
            } else if over_view {
                Source::Pointer
            } else {
                Source::Kept
            },
    {
        if !self.paused {
            Source::Orbit
        } else if over_view {
            Source::Pointer
        } else {
            Source::Kept
        }
    }
}

/// Where the constant of a frame comes from.
pub open spec fn source_of(paused: bool, over_view: bool) -> Source {
    if !paused {
        Source::Orbit
    } else if over_view {
        Source::Pointer
    } else {
        Source::Kept
    }
}

/// While the picture moves the pointer does not matter; while it is paused the
/// constant is that of the pointer over the view, and stays where it leaves it.
pub proof fn law_pointer_matters_while_paused(ui: Ui, over_view: bool)
    ensures
        !ui.paused ==> source_of(ui.paused, over_view) == Source::Orbit,
        ui.paused ==> source_of(ui.paused, true) == Source::Pointer,
        ui.paused ==> source_of(ui.paused, false) == Source::Kept,
{
}

/// A click is when the pointer goes down over the button. Each one is counted and
/// pauses or goes on; nothing else does either.
pub proof fn law_only_clicks_count(ui: Ui, over_btn: bool, down: bool)
    requires
        ui.clicks < u32::MAX,
    ensures
        ({
            let after = ui.pointed(over_btn, down);
            let click = over_btn && down && !ui.prev_down;
            &&& after.prev_down == down
            &&& after.clicks == ui.clicks + if click {
                1int
            } else {
                0
            }
            &&& (after.paused != ui.paused) == click
            &&& ui.wf() ==> after.wf()
        }),
{
}

/// A pointer that is held down, wherever it goes, clicks no more than once.
pub proof fn law_held_pointer_clicks_once(ui: Ui, first_over: bool, then_over: bool)
    ensures
        ui.pointed(first_over, true).pointed(then_over, true) == ui.pointed(first_over, true),
{
}

/// Two clicks, with the pointer let go between them, pause and go on, and are
/// both counted.
pub proof fn law_two_clicks_go_back(ui: Ui, over_btn: bool)
    requires
        !ui.prev_down,
        ui.clicks < u32::MAX - 1,
    ensures
        ({
            let twice = ui.pointed(true, true).pointed(over_btn, false).pointed(true, true);
            twice.paused == ui.paused && twice.clicks == ui.clicks + 2
        }),
{
}

/// `frame` with the pixels of the view in these colours, row by row.
pub open spec fn with_view(frame: Seq<u8>, colours: Seq<Rgb>) -> Seq<u8> {
    Seq::new(
        frame.len(),
        |o: int|
            if column(o) >= VIEW_X0 {
                channel(colours[row(o) * VIEW_W + column(o) - VIEW_X0], o % 4)
            } else {
                frame[o]
            },
    )
}

/// What is drawn over the view: the banner, a cross at the pointer while paused,
/// and the sidebar.
pub open spec fn finished(
    frame: Seq<u8>,
    ui: Ui,
    pointer: Option<(usize, usize)>,
    over_btn: bool,
    down: bool,
) -> Seq<u8> {
    let a = with_banner(frame, HELLO_WORLD@);
    let b = match pointer {
        Some((x, y)) if ui.paused => with_crosshair(a, x as int, y as int),
        _ => a,
    };
    with_sidebar(b, ui.paused, ui.clicks as nat, over_btn, down)
}

/// The pixels of the view have these colours, row by row, and the sidebar is as it
/// was.
pub proof fn law_view_is_painted(frame: Seq<u8>, colours: Seq<Rgb>, x: int, y: int, k: int)
    requires
        frame.len() == 307_200,
        colours.len() == 224 * 240,
        in_frame(x, y, k),
    ensures
        with_view(frame, colours)[byte_at(x, y, k)] == if x < 96 {
            frame[byte_at(x, y, k)]
        } else {
            let c = colours[224 * y + (x - 96)];
            seq![c.0, c.1, c.2, 255u8][k]
        },
{
    lemma_byte_at(x, y, k);
    assert(row(byte_at(x, y, k)) * VIEW_W == 224 * y);
}

/// A banner is in the middle of the view: as far from its left edge as from its
/// right one, and from the upper as from the lower, but for a pixel.
pub proof fn law_banner_is_in_the_middle(len: nat)
    requires
        14 * len <= 224,
    ensures
        ({
            let tw = width_of(len, 2) as int;
            let left = banner_x(tw) - 96;
            let right = 320 - (banner_x(tw) + tw);
            tw == 14 * len && 0 <= right - left <= 1
        }),
{
    assert(len * ADVANCE as nat * 2 == 14 * len);
}

/// A cross is a row and a column of nine white pixels, both through its point.
pub proof fn law_cross_is_drawn(frame: Seq<u8>, x: int, y: int, px: int, py: int, k: int)
    requires
        frame.len() == 307_200,
        0 <= x < 320,
        0 <= y < 240,
        in_frame(px, py, k),
    ensures
        ({
            let left = if x < 4 {
                0
            } else {
                x - 4
            };
            let upper = if y < 4 {
                0
            } else {
                y - 4
            };
            let o = byte_at(px, py, k);
            with_crosshair(frame, x, y)[o] == if (py == y && left <= px <= left + 8) || (px == x
                && upper <= py <= upper + 8) {
                255u8
            } else {
                frame[o]
            }
        }),
{
    let left = less_by(x, 4);
    let row = painted(frame, left, y, left + 9, y + 1, (255, 255, 255));
    law_rectangle_is_painted(frame, left, y, left + 9, y + 1, (255, 255, 255), px, py, k);
    let upper = less_by(y, 4);
    law_rectangle_is_painted(row, x, upper, x + 1, upper + 9, (255, 255, 255), px, py, k);
}

/// The button is filled with a colour that tells whether the pointer is over it and
/// whether it is pressed there, within a border of one pixel; what is around it is
/// as it was.
#[verifier::rlimit(40)]
pub proof fn law_button_is_drawn(
    frame: Seq<u8>,
    over: bool,
    down: bool,
    px: int,
    py: int,
    k: int,
)
    requires
        frame.len() == 307_200,
        in_frame(px, py, k),
    ensures
        ({
            let o = byte_at(px, py, k);
            let got = with_button(frame, over, down)[o];
            let fill: Rgb = button_colour(over, down);
            if 12 < px < 83 && 64 < py < 93 {
                got == seq![fill.0, fill.1, fill.2, 255u8][k]
            } else if 12 <= px <= 83 && 64 <= py <= 93 {
                got == seq![90u8, 100, 130, 255][k]
            } else {
                got == frame[o]
            }
        }),
        button_colour(true, true) != button_colour(true, false),
        button_colour(true, down) != button_colour(false, down),
        button_colour(false, true) == button_colour(false, false),
{
    let (x, y, x1, y1) = (12int, 64int, 84int, 94int);
    let border: Rgb = (90, 100, 130);
    let fill = button_colour(over, down);
    let a = painted(frame, x, y, x1, y1, fill);
    law_rectangle_is_painted(frame, x, y, x1, y1, fill, px, py, k);
    let b = painted(a, x, y, x1, y + 1, border);
    law_rectangle_is_painted(a, x, y, x1, y + 1, border, px, py, k);
    let c = painted(b, x, y1 - 1, x1, y1, border);
    law_rectangle_is_painted(b, x, y1 - 1, x1, y1, border, px, py, k);
    let d = painted(c, x, y, x + 1, y1, border);
    law_rectangle_is_painted(c, x, y, x + 1, y1, border, px, py, k);
    law_rectangle_is_painted(d, x1 - 1, y, x1, y1, border, px, py, k);
}

/// A frame is finished with the banner, while paused with a cross at the pointer,
/// if there is one, and with the sidebar, which lies over both.
pub proof fn law_frame_is_finished(
    frame: Seq<u8>,
    ui: Ui,
    pointer: Option<(usize, usize)>,
    over_btn: bool,
    down: bool,
)
    ensures
        ({
            let hello = seq![72u8, 69, 76, 76, 79, 32, 87, 79, 82, 76, 68];
            let tw = 154int;
            let x = 131int;
            let plate = dimmed(frame, x - 6, 106, x + tw + 6, 134);
            let banner = written(plate, x, 112, 2, hello, (255, 255, 255));
            let crossed = if ui.paused && pointer is Some {
                let (px, py) = pointer->Some_0;
                with_crosshair(banner, px as int, py as int)
            } else {
                banner
            };
            finished(frame, ui, pointer, over_btn, down) == with_sidebar(
                crossed,
                ui.paused,
                ui.clicks as nat,
                over_btn,
                down,
            )
        }),
{
    assert(HELLO_WORLD@ =~= seq![72u8, 69, 76, 76, 79, 32, 87, 79, 82, 76, 68]);
    assert(11nat * ADVANCE as nat * 2 == 154);
}

/// Paints the pixels of the view in these colours, row by row.
pub fn paint_view(frame: &mut Vec<u8>, colours: &Vec<Rgb>)
    requires
        old(frame)@.len() == FRAME_LEN,
        colours@.len() == VIEW_W * HEIGHT,
    ensures
        final(frame)@ == with_view(old(frame)@, colours@),
{
    let ghost start = frame@;
    let ghost want = with_view(start, colours@);
    let mut y: usize = 0;
    while y < HEIGHT
        invariant
            y <= HEIGHT,
            colours@.len() == VIEW_W * HEIGHT,
            frame@.len() == FRAME_LEN == start.len(),
            want == with_view(start, colours@),
            forall|o: int|
                0 <= o < FRAME_LEN ==> (#[trigger] frame@[o]) == if row(o) < y {
                    want[o]
                } else {
                    start[o]
                },
        decreases HEIGHT - y,
    {
        let ghost before = frame@;
        let mut x: usize = VIEW_X0;
        while x < WIDTH
            invariant
                VIEW_X0 <= x <= WIDTH,
                y < HEIGHT,
                colours@.len() == VIEW_W * HEIGHT,
                frame@.len() == FRAME_LEN == start.len() == before.len(),
                want == with_view(start, colours@),
                forall|o: int|
                    0 <= o < FRAME_LEN ==> (#[trigger] before[o]) == if row(o) < y {
                        want[o]
                    } else {
                        start[o]
                    },
                forall|o: int|
                    0 <= o < FRAME_LEN ==> (#[trigger] frame@[o]) == if row(o) == y && column(o)
                        < x {
                        want[o]
                    } else {
                        before[o]
                    },
            decreases WIDTH - x,
        {
            let ghost last = frame@;
            put_pixel(frame, x, y, colours[y * VIEW_W + (x - VIEW_X0)]);
            assert forall|o: int| 0 <= o < FRAME_LEN implies (#[trigger] frame@[o]) == if row(o)
                == y && column(o) < x + 1 {
                want[o]
            } else {
                before[o]
            } by {
                assert(last[o] == if row(o) == y && column(o) < x {
                    want[o]
                } else {
                    before[o]
                });
            }
            x = x + 1;
        }
        assert forall|o: int| 0 <= o < FRAME_LEN implies (#[trigger] frame@[o]) == if row(o) < y
            + 1 {
            want[o]
        } else {
            start[o]
        } by {
            assert(before[o] == if row(o) < y {
                want[o]
            } else {
                start[o]
            });
        }
        y = y + 1;
    }
    assert forall|o: int| 0 <= o < FRAME_LEN implies (#[trigger] frame@[o]) == want[o] by {
        assert(row(o) < HEIGHT);
    }
    assert(frame@ =~= want);
}

/// Draws what lies over the view: the banner, a cross at the pointer while
/// paused, and the sidebar.
pub fn finish_frame(
    frame: &mut Vec<u8>,
    ui: &Ui,
    pointer: Option<(usize, usize)>,
    over_btn: bool,
    down: bool,
)
    requires
        old(frame)@.len() == FRAME_LEN,
        pointer matches Some((x, y)) ==> x < WIDTH && y < HEIGHT,
    ensures
        final(frame)@ == finished(old(frame)@, *ui, pointer, over_btn, down),
{
    draw_banner(frame, HELLO_WORLD.as_slice());
    if ui.paused {
        if let Some((x, y)) = pointer {
            draw_crosshair(frame, x, y);
        }
    }
    draw_sidebar(frame, ui.paused, ui.clicks, over_btn, down);
}

} // verus!
