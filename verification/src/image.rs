//! Inline image protocols: Sixel (DCS q ... ST) and the Kitty graphics
//! protocol (APC _G ... ST). Decoded images become an RGBA buffer plus the
//! cell where the image's top-left corner is anchored.
//!
//! Arithmetic on numbers taken from the byte stream wraps on overflow, as a
//! release build of the program does.

use vstd::prelude::*;
use vstd::string::StringSliceAdditionalSpecFns;
use vstd::wrapping::{i64_specs, u32_specs};

verus! {

pub struct DecodedImage {
    pub width: u32,
    pub height: u32,
    pub rgba: Vec<u8>,
    /// Cell column where the image's top-left should be anchored.
    pub cell_col: usize,
    /// Cell row where the image's top-left should be anchored.
    pub cell_row: usize,
}

pub struct ImageView {
    pub width: u32,
    pub height: u32,
    pub rgba: Seq<u8>,
    pub cell_col: usize,
    pub cell_row: usize,
}

impl View for DecodedImage {
    type V = ImageView;

    open spec fn view(&self) -> ImageView {
        ImageView {
            width: self.width,
            height: self.height,
            rgba: self.rgba@,
            cell_col: self.cell_col,
            cell_row: self.cell_row,
        }
    }
}

/// Why an image could not be decoded.
#[derive(Clone, Copy, Debug, PartialEq, Eq, Structural)]
pub enum ImageError {
    /// The Sixel stream painted no pixel.
    EmptySixel,
    /// Kitty `f=100` (PNG) payloads are not supported.
    KittyPng,
    /// The Kitty control data gave no width (`s=`) or no height (`v=`).
    KittyMissingSize,
    /// The Kitty payload holds fewer bytes than width * height * channels.
    KittyShortPayload,
}

pub open spec fn result_view(r: Result<DecodedImage, ImageError>) -> Result<ImageView, ImageError> {
    match r {
        Ok(img) => Ok(img@),
        Err(e) => Err(e),
    }
}

// ---------------------------------------------------------------------------
// Decimal numbers in Sixel data
// ---------------------------------------------------------------------------

pub open spec fn is_digit(b: u8) -> bool {
    0x30 <= b <= 0x39
}

/// Number of consecutive ASCII digits in `data` starting at `i`.
pub open spec fn digit_run(data: Seq<u8>, i: int) -> nat
    decreases data.len() - i,
{
    if 0 <= i < data.len() && is_digit(data[i]) {
        1 + digit_run(data, i + 1)
    } else {
        0
    }
}

/// `acc` followed by the `n` digits at `i`, accumulated as `acc * 10 + d`
/// with wrapping 64-bit arithmetic.
pub open spec fn digits_value(data: Seq<u8>, i: int, n: nat, acc: i64) -> i64
    decreases n,
{
    if n == 0 {
        acc
    } else {
        digits_value(
            data,
            i + 1,
            (n - 1) as nat,
            i64_specs::wrapping_add(i64_specs::wrapping_mul(acc, 10), (data[i] - 0x30) as i64),
        )
    }
}

/// The number at `data[i..]` (if a digit starts there) and how many bytes it takes.
pub open spec fn read_int_spec(data: Seq<u8>, i: int) -> (Option<i64>, nat) {
    let n = digit_run(data, i);
    (if n > 0 { Some(digits_value(data, i, n, 0)) } else { None }, n)
}

proof fn lemma_digit_run_bound(data: Seq<u8>, i: int)
    requires
        0 <= i,
    ensures
        i + digit_run(data, i) <= data.len() || digit_run(data, i) == 0,
    decreases data.len() - i,
{
    if 0 <= i < data.len() && is_digit(data[i]) {
        lemma_digit_run_bound(data, i + 1);
    }
}

fn read_int(data: &[u8], start: usize) -> (r: (Option<i64>, usize))
    requires
        start <= data@.len(),
    ensures
        r.0 == read_int_spec(data@, start as int).0,
        r.1 == read_int_spec(data@, start as int).1,
        start + r.1 <= data@.len(),
{
    let mut i = start;
    let mut val: i64 = 0;
    let mut any = false;
    let ghost n0 = digit_run(data@, start as int);
    while i < data.len() && data[i] >= 0x30 && data[i] <= 0x39
        invariant
            start <= i <= data@.len(),
            n0 == digit_run(data@, start as int),
            n0 == (i - start) + digit_run(data@, i as int),
            digits_value(data@, i as int, digit_run(data@, i as int), val)
                == digits_value(data@, start as int, n0, 0),
            any == (i > start),
        decreases data@.len() - i,
    {
        val = val.wrapping_mul(10).wrapping_add((data[i] - 0x30) as i64);
        any = true;
        i = i + 1;
    }
    (if any { Some(val) } else { None }, i - start)
}

// ---------------------------------------------------------------------------
// Sixel
// ---------------------------------------------------------------------------

/// Decoder state between two bytes of a Sixel stream.
pub struct SixelState {
    pub palette: Seq<(u8, u8, u8)>,
    pub x: i64,
    pub y: i64,
    pub cur_color: usize,
    pub max_x: i64,
    pub max_y: i64,
    pub pixels: Seq<(i64, i64, usize)>,
    pub repeat: u32,
}

pub open spec fn sixel_start() -> SixelState {
    SixelState {
        palette: Seq::new(256, |i: int| (0u8, 0u8, 0u8)),
        x: 0,
        y: 0,
        cur_color: 0,
        max_x: 0,
        max_y: 0,
        pixels: Seq::empty(),
        repeat: 1,
    }
}

/// A colour component given in percent (clamped to 0..=100) scaled to 0..=255,
/// rounded down.
pub open spec fn scale_percent(v: i64) -> u8 {
    let c: int = if v < 0 { 0 } else if v > 100 { 100 } else { v as int };
    (c * 255 / 100) as u8
}

/// The `;`-separated parameters of a colour introducer: at most four numbers,
/// each defaulting to 0; returns them and the index after the last one.
pub open spec fn color_parts(data: Seq<u8>, i: int, parts: Seq<i64>, pi: nat) -> (Seq<i64>, int)
    decreases 4 - pi,
{
    if pi < 4 && 0 <= i < data.len() && data[i] == 0x3b {
        let (n, len) = read_int_spec(data, i + 1);
        let v = match n {
            Some(v) => v,
            None => 0,
        };
        color_parts(data, i + 1 + len, parts.update(pi as int, v), pi + 1)
    } else {
        (parts, i)
    }
}

pub open spec fn max_i64(a: i64, b: i64) -> i64 {
    if a < b { b } else { a }
}

/// One sixel column at the current position: bit `bit` and up of `value`
/// paint pixels `bit` rows below the current sixel row, in the current colour.
pub open spec fn sixel_bits(st: SixelState, value: u8, bit: nat) -> SixelState
    decreases 6 - bit,
{
    if bit >= 6 {
        st
    } else {
        let st2 = if value & (1u8 << (bit as u8)) != 0 {
            let py = i64_specs::wrapping_add(st.y, bit as i64);
            SixelState {
                pixels: st.pixels.push((st.x, py, st.cur_color)),
                max_x: max_i64(st.max_x, st.x),
                max_y: max_i64(st.max_y, py),
                ..st
            }
        } else {
            st
        };
        sixel_bits(st2, value, bit + 1)
    }
}

/// `k` repetitions of a sixel column, each one column to the right of the last.
pub open spec fn sixel_repeat(st: SixelState, value: u8, k: nat) -> SixelState
    decreases k,
{
    if k == 0 {
        st
    } else {
        let st2 = sixel_bits(st, value, 0);
        sixel_repeat(SixelState { x: i64_specs::wrapping_add(st2.x, 1), ..st2 }, value, (k - 1) as nat)
    }
}

/// The effect of the item starting at `data[i]` and the index after it.
pub open spec fn sixel_step(data: Seq<u8>, i: int, st: SixelState) -> (SixelState, int) {
    let b = data[i];
    if b == 0x23 {
        // '#': select colour register, optionally define it as `;2;r;g;b` (percent RGB)
        let (num, len) = read_int_spec(data, i + 1);
        let j = i + 1 + len;
        let cur: usize = match num {
            Some(v) => v as usize,
            None => 0,
        };
        if j < data.len() && data[j] == 0x3b {
            let (parts, j2) = color_parts(data, j, seq![0i64, 0i64, 0i64, 0i64], 0);
            let palette = if parts[0] == 2 && cur < st.palette.len() {
                st.palette.update(
                    cur as int,
                    (scale_percent(parts[1]), scale_percent(parts[2]), scale_percent(parts[3])),
                )
            } else {
                st.palette
            };
            (SixelState { cur_color: cur, palette, ..st }, j2)
        } else {
            (SixelState { cur_color: cur, ..st }, j)
        }
    } else if b == 0x21 {
        // '!': repeat count for the next sixel
        let (num, len) = read_int_spec(data, i + 1);
        let r: i64 = match num {
            Some(v) => if v < 1 { 1 } else { v },
            None => 1,
        };
        (SixelState { repeat: r as u32, ..st }, i + 1 + len)
    } else if b == 0x24 {
        // '$': back to column 0
        (SixelState { x: 0, ..st }, i + 1)
    } else if b == 0x2d {
        // '-': next sixel row, six pixels down
        (SixelState { x: 0, y: i64_specs::wrapping_add(st.y, 6), ..st }, i + 1)
    } else if 0x3f <= b <= 0x7e {
        let st2 = sixel_repeat(st, (b - 0x3f) as u8, st.repeat as nat);
        (SixelState { repeat: 1, ..st2 }, i + 1)
    } else {
        (st, i + 1)
    }
}

/// The decoder state after the stream from `data[i]` on.
pub open spec fn sixel_run(data: Seq<u8>, i: int, st: SixelState) -> SixelState
    decreases data.len() - i,
{
    if i < 0 || i >= data.len() {
        st
    } else {
        let (st2, j) = sixel_step(data, i, st);
        if i < j <= data.len() {
            sixel_run(data, j, st2)
        } else {
            st2
        }
    }
}

/// One pixel written into the RGBA buffer of width `w`, when it lies inside it.
pub open spec fn paint_pixel(rgba: Seq<u8>, p: (i64, i64, usize), palette: Seq<(u8, u8, u8)>, w: u32) -> Seq<u8> {
    let (px, py, ci) = p;
    if px < 0 || py < 0 {
        rgba
    } else {
        let (r, g, b) = if ci < palette.len() { palette[ci as int] } else { (255u8, 255u8, 255u8) };
        let idx = u32_specs::wrapping_mul(
            u32_specs::wrapping_add(u32_specs::wrapping_mul(py as u32, w), px as u32),
            4,
        ) as int;
        if idx + 3 < rgba.len() {
            rgba.update(idx, r).update(idx + 1, g).update(idx + 2, b).update(idx + 3, 255u8)
        } else {
            rgba
        }
    }
}

/// The pixels written in order, later ones over earlier ones.
pub open spec fn paint_pixels(rgba: Seq<u8>, pixels: Seq<(i64, i64, usize)>, palette: Seq<(u8, u8, u8)>, w: u32) -> Seq<u8>
    decreases pixels.len(),
{
    if pixels.len() == 0 {
        rgba
    } else {
        paint_pixel(paint_pixels(rgba, pixels.drop_last(), palette, w), pixels.last(), palette, w)
    }
}

/// Image extent along one axis from the largest coordinate painted.
pub open spec fn sixel_extent(max: i64) -> u32 {
    let e = i64_specs::wrapping_add(max, 1);
    (if e < 1 { 1 } else { e }) as u32
}

/// What decoding the Sixel stream `data` gives.
pub open spec fn sixel_decode(data: Seq<u8>, cell_col: usize, cell_row: usize) -> Result<ImageView, ImageError> {
    let st = sixel_run(data, 0, sixel_start());
    if st.pixels.len() == 0 {
        Err(ImageError::EmptySixel)
    } else {
        let w = sixel_extent(st.max_x);
        let h = sixel_extent(st.max_y);
        let size = u32_specs::wrapping_mul(u32_specs::wrapping_mul(w, h), 4) as nat;
        Ok(ImageView {
            width: w,
            height: h,
            rgba: paint_pixels(Seq::new(size, |k: int| 0u8), st.pixels, st.palette, w),
            cell_col,
            cell_row,
        })
    }
}

// Locality of the Sixel parser: an item reads only its own bytes and, at
// its end, whether the next byte is a digit or `;`.

/// `a` from `i` on and `b` from `j` on are the same bytes.
pub open spec fn same_tail(a: Seq<u8>, i: int, b: Seq<u8>, j: int) -> bool {
    &&& 0 <= i <= a.len()
    &&& 0 <= j <= b.len()
    &&& a.len() - i == b.len() - j
    &&& forall|k: int| 0 <= k < a.len() - i ==> #[trigger] a[i + k] == b[j + k]
}

proof fn lemma_tail_shift(a: Seq<u8>, i: int, b: Seq<u8>, j: int, d: int)
    requires
        same_tail(a, i, b, j),
        0 <= d <= a.len() - i,
    ensures
        same_tail(a, i + d, b, j + d),
{
    assert forall|k: int| 0 <= k < a.len() - (i + d) implies #[trigger] a[i + d + k] == b[j + d + k] by {
        assert(a[i + (d + k)] == b[j + (d + k)]);
    }
}

proof fn lemma_tail_digits(a: Seq<u8>, i: int, b: Seq<u8>, j: int)
    requires
        same_tail(a, i, b, j),
    ensures
        digit_run(a, i) == digit_run(b, j),
        forall|n: nat, acc: i64| n <= a.len() - i ==> #[trigger] digits_value(a, i, n, acc) == digits_value(b, j, n, acc),
    decreases a.len() - i,
{
    if i < a.len() {
        assert(a[i + 0] == b[j + 0]);
        lemma_tail_shift(a, i, b, j, 1);
        lemma_tail_digits(a, i + 1, b, j + 1);
        assert forall|n: nat, acc: i64| n <= a.len() - i implies #[trigger] digits_value(a, i, n, acc) == digits_value(b, j, n, acc) by {
            if n > 0 {
                let acc2 = i64_specs::wrapping_add(i64_specs::wrapping_mul(acc, 10), (a[i] - 0x30) as i64);
                assert(digits_value(a, i + 1, (n - 1) as nat, acc2) == digits_value(b, j + 1, (n - 1) as nat, acc2));
            }
        }
    } else {
        assert forall|n: nat, acc: i64| n <= a.len() - i implies #[trigger] digits_value(a, i, n, acc) == digits_value(b, j, n, acc) by {
            assert(n == 0);
        }
    }
}

proof fn lemma_tail_read_int(a: Seq<u8>, i: int, b: Seq<u8>, j: int)
    requires
        same_tail(a, i, b, j),
    ensures
        read_int_spec(a, i) == read_int_spec(b, j),
        i + read_int_spec(a, i).1 <= a.len(),
{
    lemma_tail_digits(a, i, b, j);
    lemma_digit_run_bound(a, i);
    let n = digit_run(a, i);
    assert(digits_value(a, i, n, 0) == digits_value(b, j, n, 0));
}

proof fn lemma_tail_color_parts(a: Seq<u8>, i: int, b: Seq<u8>, j: int, parts: Seq<i64>, pi: nat)
    requires
        same_tail(a, i, b, j),
    ensures
        color_parts(a, i, parts, pi).0 == color_parts(b, j, parts, pi).0,
        color_parts(a, i, parts, pi).1 - i == color_parts(b, j, parts, pi).1 - j,
        i <= color_parts(a, i, parts, pi).1 <= a.len(),
    decreases 4 - pi,
{
    if i < a.len() {
        assert(a[i + 0] == b[j + 0]);
    }
    if pi < 4 && 0 <= i < a.len() && a[i] == 0x3b {
        lemma_tail_shift(a, i, b, j, 1);
        lemma_tail_read_int(a, i + 1, b, j + 1);
        let len = read_int_spec(a, i + 1).1 as int;
        lemma_tail_shift(a, i, b, j, 1 + len);
        let v = match read_int_spec(a, i + 1).0 {
            Some(v) => v,
            None => 0,
        };
        lemma_tail_color_parts(a, i + 1 + len, b, j + 1 + len, parts.update(pi as int, v), pi + 1);
    }
}

#[verifier::rlimit(30)]
proof fn lemma_tail_step(a: Seq<u8>, i: int, b: Seq<u8>, j: int, st: SixelState)
    requires
        same_tail(a, i, b, j),
        i < a.len(),
    ensures
        sixel_step(a, i, st).0 == sixel_step(b, j, st).0,
        sixel_step(a, i, st).1 - i == sixel_step(b, j, st).1 - j,
        i < sixel_step(a, i, st).1 <= a.len(),
{
    assert(a[i + 0] == b[j + 0]);
    lemma_tail_shift(a, i, b, j, 1);
    lemma_tail_read_int(a, i + 1, b, j + 1);
    let len = read_int_spec(a, i + 1).1 as int;
    lemma_tail_shift(a, i, b, j, 1 + len);
    let k = i + 1 + len;
    if k < a.len() {
        assert(a[k + 0] == b[j + 1 + len + 0]);
    }
    lemma_tail_color_parts(a, k, b, j + 1 + len, seq![0i64, 0i64, 0i64, 0i64], 0);
}

/// The parser gives the same final state on two streams whose remaining bytes agree.
proof fn lemma_tail_run(a: Seq<u8>, i: int, b: Seq<u8>, j: int, st: SixelState)
    requires
        same_tail(a, i, b, j),
    ensures
        sixel_run(a, i, st) == sixel_run(b, j, st),
    decreases a.len() - i,
{
    if i < a.len() {
        lemma_tail_step(a, i, b, j, st);
        let (st2, i2) = sixel_step(a, i, st);
        lemma_tail_shift(a, i, b, j, i2 - i);
        lemma_tail_run(a, i2, b, j + (i2 - i), st2);
    }
}

/// A byte that ends a number or a colour definition: neither a digit nor `;`.
pub open spec fn sixel_stopper(x: u8) -> bool {
    !is_digit(x) && x != 0x3b
}

/// `a` and `b` agree from `i` up to `p`, and both have a stopper at `p`.
pub open spec fn same_upto(a: Seq<u8>, b: Seq<u8>, i: int, p: int) -> bool {
    &&& 0 <= i <= p
    &&& p < a.len()
    &&& p < b.len()
    &&& forall|k: int| i <= k < p ==> #[trigger] a[k] == b[k]
    &&& sixel_stopper(a[p])
    &&& sixel_stopper(b[p])
}

proof fn lemma_upto_digits(a: Seq<u8>, b: Seq<u8>, i: int, p: int)
    requires
        same_upto(a, b, i, p),
    ensures
        digit_run(a, i) == digit_run(b, i),
        i + digit_run(a, i) <= p,
        forall|n: nat, acc: i64| i + n <= p ==> #[trigger] digits_value(a, i, n, acc) == digits_value(b, i, n, acc),
    decreases p - i,
{
    if i < p {
        assert(a[i] == b[i]);
        lemma_upto_digits(a, b, i + 1, p);
        assert forall|n: nat, acc: i64| i + n <= p implies #[trigger] digits_value(a, i, n, acc) == digits_value(b, i, n, acc) by {
            if n > 0 {
                let acc2 = i64_specs::wrapping_add(i64_specs::wrapping_mul(acc, 10), (a[i] - 0x30) as i64);
                assert(digits_value(a, i + 1, (n - 1) as nat, acc2) == digits_value(b, i + 1, (n - 1) as nat, acc2));
            }
        }
    } else {
        assert forall|n: nat, acc: i64| i + n <= p implies #[trigger] digits_value(a, i, n, acc) == digits_value(b, i, n, acc) by {
            assert(n == 0);
        }
    }
}

proof fn lemma_upto_read_int(a: Seq<u8>, b: Seq<u8>, i: int, p: int)
    requires
        same_upto(a, b, i, p),
    ensures
        read_int_spec(a, i) == read_int_spec(b, i),
        i + read_int_spec(a, i).1 <= p,
{
    lemma_upto_digits(a, b, i, p);
    let n = digit_run(a, i);
    assert(digits_value(a, i, n, 0) == digits_value(b, i, n, 0));
}

proof fn lemma_upto_color_parts(a: Seq<u8>, b: Seq<u8>, i: int, p: int, parts: Seq<i64>, pi: nat)
    requires
        same_upto(a, b, i, p),
    ensures
        color_parts(a, i, parts, pi) == color_parts(b, i, parts, pi),
        i <= color_parts(a, i, parts, pi).1 <= p,
    decreases 4 - pi,
{
    if i < p {
        assert(a[i] == b[i]);
    }
    if pi < 4 && 0 <= i < a.len() && a[i] == 0x3b {
        assert(i < p);
        lemma_upto_read_int(a, b, i + 1, p);
        let len = read_int_spec(a, i + 1).1 as int;
        let v = match read_int_spec(a, i + 1).0 {
            Some(v) => v,
            None => 0,
        };
        lemma_upto_color_parts(a, b, i + 1 + len, p, parts.update(pi as int, v), pi + 1);
    }
}

#[verifier::rlimit(30)]
proof fn lemma_upto_step(a: Seq<u8>, b: Seq<u8>, i: int, p: int, st: SixelState)
    requires
        same_upto(a, b, i, p),
        i < p,
    ensures
        sixel_step(a, i, st) == sixel_step(b, i, st),
        i < sixel_step(a, i, st).1 <= p,
{
    assert(a[i] == b[i]);
    lemma_upto_read_int(a, b, i + 1, p);
    let len = read_int_spec(a, i + 1).1 as int;
    let k = i + 1 + len;
    if k < p {
        assert(a[k] == b[k]);
    }
    lemma_upto_color_parts(a, b, k, p, seq![0i64, 0i64, 0i64, 0i64], 0);
}

/// Two streams that agree up to a stopper at `p`, and whose parses from `p`
/// on agree in every state, parse alike from any `i` before `p`.
proof fn lemma_upto_run(a: Seq<u8>, b: Seq<u8>, i: int, p: int, st: SixelState)
    requires
        same_upto(a, b, i, p),
        forall|s: SixelState| #[trigger] sixel_run(a, p, s) == sixel_run(b, p, s),
    ensures
        sixel_run(a, i, st) == sixel_run(b, i, st),
    decreases p - i,
{
    if i < p {
        lemma_upto_step(a, b, i, p, st);
        let (st2, i2) = sixel_step(a, i, st);
        lemma_upto_run(a, b, i2, p, st2);
    } else {
        assert(sixel_run(a, p, st) == sixel_run(b, p, st));
    }
}

/// A byte that starts a Sixel item: `#`, `!`, `$`, `-` or a sixel character.
pub open spec fn sixel_item_start(x: u8) -> bool {
    x == 0x23 || x == 0x21 || x == 0x24 || x == 0x2d || (0x3f <= x <= 0x7e)
}

/// A byte the Sixel decoder skips: no digit, no `;`, and no item start.
pub open spec fn sixel_ignorable(x: u8) -> bool {
    sixel_stopper(x) && !sixel_item_start(x)
}

/// A byte the decoder skips (a space or a line break, say), inserted at the
/// front of a Sixel stream or right before one of its items, changes
/// nothing that decoding gives.
pub proof fn law_sixel_skips_stray_byte(d: Seq<u8>, p: int, z: u8, cell_col: usize, cell_row: usize)
    requires
        sixel_ignorable(z),
        p == 0 || (0 < p < d.len() && sixel_item_start(d[p])),
    ensures
        sixel_decode(d.take(p) + seq![z] + d.skip(p), cell_col, cell_row) == sixel_decode(d, cell_col, cell_row),
{
    let d2 = d.take(p) + seq![z] + d.skip(p);
    assert(d2[p] == z);
    assert forall|k: int| 0 <= k < d2.len() - (p + 1) implies #[trigger] d2[p + 1 + k] == d[p + k] by {}
    assert(same_tail(d2, p + 1, d, p));
    assert forall|s: SixelState| #[trigger] sixel_run(d2, p, s) == sixel_run(d, p, s) by {
        assert(sixel_step(d2, p, s) == (s, p + 1));
        lemma_tail_run(d2, p + 1, d, p, s);
    }
    if p > 0 {
        assert forall|k: int| 0 <= k < p implies #[trigger] d2[k] == d[k] by {}
        assert(same_upto(d2, d, 0, p));
        lemma_upto_run(d2, d, 0, p, sixel_start());
    } else {
        assert(sixel_run(d2, 0, sixel_start()) == sixel_run(d, 0, sixel_start()));
    }
}

fn scale(v: i64) -> (r: u8)
    ensures
        r == scale_percent(v),
{
    let c: i64 = if v < 0 { 0 } else if v > 100 { 100 } else { v };
    (c * 255 / 100) as u8
}

/// Decodes a Sixel data stream: the bytes between the DCS introducer and the
/// ST terminator, without the framing. `#` selects (and optionally defines) a
/// colour register, `!` gives a repeat count, `$` returns to column 0, `-`
/// moves six pixels down, and each byte in `?`..`~` paints a column of six
/// pixels (its value minus 63, one bit per pixel row).
pub fn decode_sixel(data: &[u8], cell_col: usize, cell_row: usize) -> (r: Result<DecodedImage, ImageError>)
    ensures
        result_view(r) == sixel_decode(data@, cell_col, cell_row),
{
    let mut palette: Vec<(u8, u8, u8)> = Vec::new();
    while palette.len() < 256
        invariant
            palette@.len() <= 256,
            palette@ =~= Seq::new(palette@.len(), |i: int| (0u8, 0u8, 0u8)),
        decreases 256 - palette@.len(),
    {
        palette.push((0, 0, 0));
    }
    let mut x: i64 = 0;
    let mut y: i64 = 0;
    let mut cur_color: usize = 0;
    let mut max_x: i64 = 0;
    let mut max_y: i64 = 0;
    let mut pixels: Vec<(i64, i64, usize)> = Vec::new();
    let mut repeat: u32 = 1;
    let mut i: usize = 0;
    let ghost target = sixel_run(data@, 0, sixel_start());
    assert(palette@ =~= sixel_start().palette);
    assert(pixels@ =~= sixel_start().pixels);

    while i < data.len()
        invariant
            i <= data@.len(),
            palette@.len() == 256,
            sixel_run(data@, i as int, SixelState { palette: palette@, x, y, cur_color, max_x, max_y, pixels: pixels@, repeat })
                == target,
        decreases data@.len() - i,
    {
        let ghost st0 = SixelState { palette: palette@, x, y, cur_color, max_x, max_y, pixels: pixels@, repeat };
        let ghost i0 = i as int;
        let ghost step = sixel_step(data@, i0, st0);
        let b = data[i];
        if b == 0x23 {
            i = i + 1;
            let (num, len) = read_int(data, i);
            i = i + len;
            cur_color = match num {
                Some(v) => v as usize,
                None => 0,
            };
            if i < data.len() && data[i] == 0x3b {
                let mut parts: Vec<i64> = vec![0, 0, 0, 0];
                let mut pi: usize = 0;
                let ghost j0 = i as int;
                let ghost pt = color_parts(data@, j0, seq![0i64, 0i64, 0i64, 0i64], 0);
                assert(parts@ =~= seq![0i64, 0i64, 0i64, 0i64]);
                while i < data.len() && data[i] == 0x3b && pi < 4
                    invariant
                        j0 <= i <= data@.len(),
                        pi <= 4,
                        parts@.len() == 4,
                        color_parts(data@, i as int, parts@, pi as nat) == pt,
                    decreases 4 - pi,
                {
                    i = i + 1;
                    let (n, len) = read_int(data, i);
                    let v = match n {
                        Some(v) => v,
                        None => 0,
                    };
                    parts.set(pi, v);
                    i = i + len;
                    pi = pi + 1;
                }
                if parts[0] == 2 {
                    let color = (scale(parts[1]), scale(parts[2]), scale(parts[3]));
                    if cur_color < palette.len() {
                        palette.set(cur_color, color);
                    }
                }
                proof {
                    assert(parts@ == pt.0);
                    assert(i as int == pt.1);
                }
            }
        } else if b == 0x21 {
            i = i + 1;
            let (num, len) = read_int(data, i);
            let r: i64 = match num {
                Some(v) => if v < 1 { 1 } else { v },
                None => 1,
            };
            repeat = r as u32;
            i = i + len;
        } else if b == 0x24 {
            x = 0;
            i = i + 1;
        } else if b == 0x2d {
            x = 0;
            y = y.wrapping_add(6);
            i = i + 1;
        } else if b >= 0x3f && b <= 0x7e {
            let value: u8 = b - 0x3f;
            let ghost rep_target = sixel_repeat(st0, value, repeat as nat);
            let mut k: u32 = 0;
            while k < repeat
                invariant
                    k <= repeat,
                    repeat == st0.repeat,
                    palette@ == st0.palette,
                    palette@.len() == 256,
                    cur_color == st0.cur_color,
                    y == st0.y,
                    sixel_repeat(
                        SixelState { palette: palette@, x, y, cur_color, max_x, max_y, pixels: pixels@, repeat },
                        value,
                        (repeat - k) as nat,
                    ) == rep_target,
                decreases repeat - k,
            {
                let ghost col_start = SixelState { palette: palette@, x, y, cur_color, max_x, max_y, pixels: pixels@, repeat };
                let ghost col_target = sixel_bits(col_start, value, 0);
                let mut bit: u8 = 0;
                while bit < 6
                    invariant
                        bit <= 6,
                        palette@ == st0.palette,
                        cur_color == st0.cur_color,
                        y == st0.y,
                        x == col_start.x,
                        repeat == st0.repeat,
                        sixel_bits(
                            SixelState { palette: palette@, x, y, cur_color, max_x, max_y, pixels: pixels@, repeat },
                            value,
                            bit as nat,
                        ) == col_target,
                    decreases 6 - bit,
                {
                    if value & (1u8 << bit) != 0 {
                        let py = y.wrapping_add(bit as i64);
                        pixels.push((x, py, cur_color));
                        max_x = if max_x < x { x } else { max_x };
                        max_y = if max_y < py { py } else { max_y };
                    }
                    bit = bit + 1;
                }
                x = x.wrapping_add(1);
                k = k + 1;
            }
            repeat = 1;
            i = i + 1;
        } else {
            i = i + 1;
        }
        proof {
            assert(step.1 == i as int);
            assert(step.0 == SixelState { palette: palette@, x, y, cur_color, max_x, max_y, pixels: pixels@, repeat });
        }
    }

    if pixels.len() == 0 {
        return Err(ImageError::EmptySixel);
    }

    let ex = max_x.wrapping_add(1);
    let w: u32 = (if ex < 1 { 1 } else { ex }) as u32;
    let ey = max_y.wrapping_add(1);
    let h: u32 = (if ey < 1 { 1 } else { ey }) as u32;
    let size = w.wrapping_mul(h).wrapping_mul(4) as usize;
    let mut rgba: Vec<u8> = Vec::new();
    while rgba.len() < size
        invariant
            rgba@.len() <= size,
            rgba@ =~= Seq::new(rgba@.len(), |k: int| 0u8),
        decreases size - rgba@.len(),
    {
        rgba.push(0);
    }
    let ghost init = rgba@;
    let mut k: usize = 0;
    while k < pixels.len()
        invariant
            k <= pixels@.len(),
            rgba@ == paint_pixels(init, pixels@.take(k as int), palette@, w),
            rgba@.len() == size,
        decreases pixels@.len() - k,
    {
        let (px, py, color_idx) = pixels[k];
        proof {
            assert(pixels@.take(k + 1).drop_last() =~= pixels@.take(k as int));
            assert(pixels@.take(k + 1).last() == pixels@[k as int]);
        }
        if !(px < 0 || py < 0) {
            let (r, g, b) = if color_idx < palette.len() { palette[color_idx] } else { (255u8, 255u8, 255u8) };
            let idx = (py as u32).wrapping_mul(w).wrapping_add(px as u32).wrapping_mul(4) as usize;
            if idx + 3 < rgba.len() {
                rgba.set(idx, r);
                rgba.set(idx + 1, g);
                rgba.set(idx + 2, b);
                rgba.set(idx + 3, 255);
            }
        }
        k = k + 1;
    }
    assert(pixels@.take(pixels@.len() as int) =~= pixels@);
    Ok(DecodedImage { width: w, height: h, rgba, cell_col, cell_row })
}

// ---------------------------------------------------------------------------
// Base64
// ---------------------------------------------------------------------------

/// Value of a base64 alphabet character.
pub open spec fn b64_value(c: u8) -> Option<u8> {
    if 0x41 <= c <= 0x5a {
        Some((c - 0x41) as u8)
    } else if 0x61 <= c <= 0x7a {
        Some((c - 0x61 + 26) as u8)
    } else if 0x30 <= c <= 0x39 {
        Some((c - 0x30 + 52) as u8)
    } else if c == 0x2b {
        Some(62u8)
    } else if c == 0x2f {
        Some(63u8)
    } else {
        None
    }
}

/// The 6-bit values of `s` up to the first `=`; characters outside the
/// alphabet (line breaks among them) are skipped.
pub open spec fn b64_sextets(s: Seq<u8>) -> Seq<u8>
    decreases s.len(),
{
    if s.len() == 0 || s[0] == 0x3d {
        Seq::empty()
    } else {
        match b64_value(s[0]) {
            Some(v) => seq![v] + b64_sextets(s.drop_first()),
            None => b64_sextets(s.drop_first()),
        }
    }
}

pub open spec fn b64_byte0(a: u8, b: u8) -> u8 {
    (a << 2u8) | (b >> 4u8)
}

pub open spec fn b64_byte1(b: u8, c: u8) -> u8 {
    (b << 4u8) | (c >> 2u8)
}

pub open spec fn b64_byte2(c: u8, d: u8) -> u8 {
    (c << 6u8) | d
}

/// Bytes from 6-bit values: three per group of four; a final group of two
/// gives one byte and of three gives two.
pub open spec fn b64_bytes(sx: Seq<u8>) -> Seq<u8>
    decreases sx.len(),
{
    if sx.len() >= 4 {
        seq![b64_byte0(sx[0], sx[1]), b64_byte1(sx[1], sx[2]), b64_byte2(sx[2], sx[3])] + b64_bytes(
            sx.subrange(4, sx.len() as int),
        )
    } else if sx.len() == 3 {
        seq![b64_byte0(sx[0], sx[1]), b64_byte1(sx[1], sx[2])]
    } else if sx.len() == 2 {
        seq![b64_byte0(sx[0], sx[1])]
    } else {
        Seq::empty()
    }
}

pub open spec fn base64_decode_spec(s: Seq<u8>) -> Seq<u8> {
    b64_bytes(b64_sextets(s))
}

proof fn lemma_b64_sextets_len(s: Seq<u8>)
    ensures
        b64_sextets(s).len() <= s.len(),
    decreases s.len(),
{
    if s.len() > 0 {
        lemma_b64_sextets_len(s.drop_first());
    }
}

proof fn lemma_b64_bytes_len(sx: Seq<u8>)
    ensures
        b64_bytes(sx).len() <= sx.len(),
    decreases sx.len(),
{
    if sx.len() >= 4 {
        lemma_b64_bytes_len(sx.subrange(4, sx.len() as int));
    }
}

/// The decoded payload is never longer than the text it came from.
pub proof fn lemma_base64_len(s: Seq<u8>)
    ensures
        base64_decode_spec(s).len() <= s.len(),
{
    lemma_b64_sextets_len(s);
    lemma_b64_bytes_len(b64_sextets(s));
}

/// The base64 alphabet character of a 6-bit value.
pub open spec fn b64_char(v: u8) -> u8 {
    if v < 26 {
        (v + 0x41) as u8
    } else if v < 52 {
        (v - 26 + 0x61) as u8
    } else if v < 62 {
        (v - 52 + 0x30) as u8
    } else if v == 62 {
        0x2b
    } else {
        0x2f
    }
}

/// The 6-bit values that encode `b`: four per group of three bytes; a final
/// byte gives two and a final pair gives three.
pub open spec fn b64_encode_sextets(b: Seq<u8>) -> Seq<u8>
    decreases b.len(),
{
    if b.len() >= 3 {
        seq![
            b[0] >> 2u8,
            ((b[0] & 3u8) << 4u8) | (b[1] >> 4u8),
            ((b[1] & 15u8) << 2u8) | (b[2] >> 6u8),
            b[2] & 63u8,
        ] + b64_encode_sextets(b.subrange(3, b.len() as int))
    } else if b.len() == 2 {
        seq![b[0] >> 2u8, ((b[0] & 3u8) << 4u8) | (b[1] >> 4u8), (b[1] & 15u8) << 2u8]
    } else if b.len() == 1 {
        seq![b[0] >> 2u8, (b[0] & 3u8) << 4u8]
    } else {
        Seq::empty()
    }
}

/// The standard base64 text of `b`, without padding.
pub open spec fn b64_text(b: Seq<u8>) -> Seq<u8> {
    b64_encode_sextets(b).map_values(|v: u8| b64_char(v))
}

/// The alphabet characters of `s` before its first `=`: what the decoder reads.
pub open spec fn b64_letters(s: Seq<u8>) -> Seq<u8>
    decreases s.len(),
{
    if s.len() == 0 || s[0] == 0x3d {
        Seq::empty()
    } else if b64_value(s[0]) is Some {
        seq![s[0]] + b64_letters(s.drop_first())
    } else {
        b64_letters(s.drop_first())
    }
}

proof fn lemma_b64_char_value(v: u8)
    requires
        v < 64,
    ensures
        b64_value(b64_char(v)) == Some(v),
        b64_char(v) != 0x3d,
{
}

proof fn lemma_encode_sextets_small(b: Seq<u8>)
    ensures
        forall|k: int| 0 <= k < b64_encode_sextets(b).len() ==> #[trigger] b64_encode_sextets(b)[k] < 64,
    decreases b.len(),
{
    if b.len() >= 3 {
        lemma_encode_sextets_small(b.subrange(3, b.len() as int));
        let (x, y, z) = (b[0], b[1], b[2]);
        assert(x >> 2u8 < 64u8 && ((x & 3u8) << 4u8) | (y >> 4u8) < 64u8 && ((y & 15u8) << 2u8) | (z >> 6u8) < 64u8
            && z & 63u8 < 64u8) by (bit_vector);
        let e = b64_encode_sextets(b);
        let r = b64_encode_sextets(b.subrange(3, b.len() as int));
        assert forall|k: int| 0 <= k < e.len() implies #[trigger] e[k] < 64 by {
            if k >= 4 {
                assert(e[k] == r[k - 4]);
            }
        }
    } else if b.len() == 2 {
        let (x, y) = (b[0], b[1]);
        assert(x >> 2u8 < 64u8 && ((x & 3u8) << 4u8) | (y >> 4u8) < 64u8 && (y & 15u8) << 2u8 < 64u8) by (bit_vector);
    } else if b.len() == 1 {
        let x = b[0];
        assert(x >> 2u8 < 64u8 && (x & 3u8) << 4u8 < 64u8) by (bit_vector);
    }
}

/// Reading the characters of 6-bit values gives the values back.
proof fn lemma_sextets_of_chars(v: Seq<u8>)
    requires
        forall|k: int| 0 <= k < v.len() ==> #[trigger] v[k] < 64,
    ensures
        b64_sextets(v.map_values(|x: u8| b64_char(x))) == v,
        b64_letters(v.map_values(|x: u8| b64_char(x))) == v.map_values(|x: u8| b64_char(x)),
    decreases v.len(),
{
    let t = v.map_values(|x: u8| b64_char(x));
    if v.len() > 0 {
        lemma_b64_char_value(v[0]);
        assert(t.drop_first() =~= v.drop_first().map_values(|x: u8| b64_char(x)));
        lemma_sextets_of_chars(v.drop_first());
        assert(b64_sextets(t) =~= v);
        assert(b64_letters(t) =~= t);
    } else {
        assert(b64_sextets(t) =~= v);
        assert(b64_letters(t) =~= t);
    }
}

/// Decoding the 6-bit values of an encoding gives the bytes back.
proof fn lemma_bytes_of_encoding(b: Seq<u8>)
    ensures
        b64_bytes(b64_encode_sextets(b)) == b,
    decreases b.len(),
{
    let e = b64_encode_sextets(b);
    if b.len() >= 3 {
        let (x, y, z) = (b[0], b[1], b[2]);
        let rest = b.subrange(3, b.len() as int);
        lemma_bytes_of_encoding(rest);
        assert(e.subrange(4, e.len() as int) =~= b64_encode_sextets(rest));
        assert(b64_byte0(x >> 2u8, ((x & 3u8) << 4u8) | (y >> 4u8)) == x) by (bit_vector);
        assert(b64_byte1(((x & 3u8) << 4u8) | (y >> 4u8), ((y & 15u8) << 2u8) | (z >> 6u8)) == y) by (bit_vector);
        assert(b64_byte2(((y & 15u8) << 2u8) | (z >> 6u8), z & 63u8) == z) by (bit_vector);
        assert(b64_bytes(e) =~= b);
    } else if b.len() == 2 {
        let (x, y) = (b[0], b[1]);
        assert(b64_byte0(x >> 2u8, ((x & 3u8) << 4u8) | (y >> 4u8)) == x) by (bit_vector);
        assert(b64_byte1(((x & 3u8) << 4u8) | (y >> 4u8), (y & 15u8) << 2u8) == y) by (bit_vector);
        assert(b64_bytes(e) =~= b);
    } else if b.len() == 1 {
        let x = b[0];
        assert(b64_byte0(x >> 2u8, (x & 3u8) << 4u8) == x) by (bit_vector);
        assert(b64_bytes(e) =~= b);
    } else {
        assert(b64_bytes(e) =~= b);
    }
}

/// The decoder reads only the alphabet characters before the first `=`.
proof fn lemma_sextets_of_letters(s: Seq<u8>)
    ensures
        b64_sextets(s) == b64_sextets(b64_letters(s)),
    decreases s.len(),
{
    if s.len() > 0 && s[0] != 0x3d {
        lemma_sextets_of_letters(s.drop_first());
        if b64_value(s[0]) is Some {
            let l = seq![s[0]] + b64_letters(s.drop_first());
            assert(l.drop_first() =~= b64_letters(s.drop_first()));
        }
    }
}

/// Base64 round trip: any text whose alphabet characters before the first
/// `=` spell the standard encoding of `b` decodes to `b`. So padding, line
/// breaks and other characters outside the alphabet change nothing; the
/// bare encoding itself is such a text.
pub proof fn law_base64_round_trip(b: Seq<u8>, s: Seq<u8>)
    requires
        b64_letters(s) == b64_text(b),
    ensures
        base64_decode_spec(s) == b,
        b64_letters(b64_text(b)) == b64_text(b),
        base64_decode_spec(b64_text(b)) == b,
{
    let e = b64_encode_sextets(b);
    lemma_encode_sextets_small(b);
    lemma_sextets_of_chars(e);
    lemma_bytes_of_encoding(b);
    lemma_sextets_of_letters(s);
}

proof fn lemma_letters_concat(t: Seq<u8>, u: Seq<u8>)
    requires
        forall|k: int| 0 <= k < t.len() ==> #[trigger] t[k] != 0x3d,
    ensures
        b64_letters(t + u) == b64_letters(t) + b64_letters(u),
    decreases t.len(),
{
    if t.len() == 0 {
        assert(t + u =~= u);
        assert(b64_letters(t) + b64_letters(u) =~= b64_letters(u));
    } else {
        assert((t + u).drop_first() =~= t.drop_first() + u);
        assert((t + u)[0] == t[0]);
        lemma_letters_concat(t.drop_first(), u);
        if b64_value(t[0]) is Some {
            assert(b64_letters(t + u) =~= b64_letters(t) + b64_letters(u));
        }
    }
}

/// `=` padding, and anything after it, does not change what an encoding
/// decodes to.
pub proof fn law_base64_padding(b: Seq<u8>, pad: Seq<u8>)
    requires
        pad.len() > 0,
        pad[0] == 0x3d,
    ensures
        base64_decode_spec(b64_text(b) + pad) == b,
{
    let e = b64_encode_sextets(b);
    let t = b64_text(b);
    lemma_encode_sextets_small(b);
    assert forall|k: int| 0 <= k < t.len() implies #[trigger] t[k] != 0x3d by {
        lemma_b64_char_value(e[k]);
    }
    lemma_letters_concat(t, pad);
    lemma_sextets_of_chars(e);
    assert(b64_letters(t + pad) =~= b64_letters(t));
    law_base64_round_trip(b, t + pad);
}

fn b64_value_of(c: u8) -> (r: Option<u8>)
    ensures
        r == b64_value(c),
{
    if c >= 0x41 && c <= 0x5a {
        Some(c - 0x41)
    } else if c >= 0x61 && c <= 0x7a {
        Some(c - 0x61 + 26)
    } else if c >= 0x30 && c <= 0x39 {
        Some(c - 0x30 + 52)
    } else if c == 0x2b {
        Some(62)
    } else if c == 0x2f {
        Some(63)
    } else {
        None
    }
}

/// Minimal base64 decoder over `s[lo..hi]`: stops at the first `=` and skips
/// characters outside the alphabet.
pub fn base64_decode(s: &[u8], lo: usize, hi: usize) -> (out: Vec<u8>)
    requires
        lo <= hi <= s@.len(),
    ensures
        out@ == base64_decode_spec(s@.subrange(lo as int, hi as int)),
{
    let ghost src = s@.subrange(lo as int, hi as int);
    let mut out: Vec<u8> = Vec::new();
    let mut chunk: Vec<u8> = vec![0, 0, 0, 0];
    let mut chunk_len: usize = 0;
    let mut i = lo;
    while i < hi && s[i] != 0x3d
        invariant
            lo <= i <= hi,
            hi <= s@.len(),
            src == s@.subrange(lo as int, hi as int),
            chunk@.len() == 4,
            chunk_len < 4,
            out@ + b64_bytes(chunk@.take(chunk_len as int) + b64_sextets(s@.subrange(i as int, hi as int)))
                == b64_bytes(b64_sextets(src)),
        decreases hi - i,
    {
        let b = s[i];
        let ghost rest = s@.subrange(i as int, hi as int);
        assert(rest.drop_first() =~= s@.subrange(i + 1, hi as int));
        match b64_value_of(b) {
            None => {},
            Some(v) => {
                let ghost pending = chunk@.take(chunk_len as int);
                let ghost tail = b64_sextets(s@.subrange(i + 1, hi as int));
                assert(pending + b64_sextets(rest) =~= pending.push(v) + tail);
                chunk.set(chunk_len, v);
                chunk_len = chunk_len + 1;
                assert(chunk@.take(chunk_len as int) =~= pending.push(v));
                if chunk_len == 4 {
                    let ghost full = chunk@.take(4);
                    let b0 = (chunk[0] << 2u8) | (chunk[1] >> 4u8);
                    let b1 = (chunk[1] << 4u8) | (chunk[2] >> 2u8);
                    let b2 = (chunk[2] << 6u8) | chunk[3];
                    let ghost out0 = out@;
                    out.push(b0);
                    out.push(b1);
                    out.push(b2);
                    chunk_len = 0;
                    proof {
                        let all = full + tail;
                        assert(all.subrange(4, all.len() as int) =~= tail);
                        assert(b64_bytes(all) == seq![b0, b1, b2] + b64_bytes(tail));
                        assert(out@ =~= out0 + seq![b0, b1, b2]);
                        assert(chunk@.take(0) + tail =~= tail);
                        assert(out@ + b64_bytes(tail) =~= out0 + b64_bytes(all));
                    }
                }
            },
        }
        i = i + 1;
    }
    let ghost pending = chunk@.take(chunk_len as int);
    let ghost out0 = out@;
    proof {
        assert(b64_sextets(s@.subrange(i as int, hi as int)) =~= Seq::<u8>::empty());
        assert(pending + Seq::<u8>::empty() =~= pending);
        assert(out0 + b64_bytes(pending) == b64_bytes(b64_sextets(src)));
    }
    if chunk_len >= 2 {
        out.push((chunk[0] << 2u8) | (chunk[1] >> 4u8));
        if chunk_len == 3 {
            out.push((chunk[1] << 4u8) | (chunk[2] >> 2u8));
        }
    }
    proof {
        if chunk_len == 3 {
            assert(b64_bytes(pending) == seq![b64_byte0(pending[0], pending[1]), b64_byte1(pending[1], pending[2])]);
        } else if chunk_len == 2 {
            assert(b64_bytes(pending) == seq![b64_byte0(pending[0], pending[1])]);
        } else {
            assert(b64_bytes(pending) =~= Seq::<u8>::empty());
        }
        assert(out@ =~= base64_decode_spec(src));
    }
    out
}

// ---------------------------------------------------------------------------
// Unsigned decimal numbers (as `str::parse::<u32>` reads them)
// ---------------------------------------------------------------------------

pub open spec fn all_digits(s: Seq<u8>) -> bool {
    forall|i: int| 0 <= i < s.len() ==> is_digit(#[trigger] s[i])
}

pub open spec fn decimal_value(s: Seq<u8>) -> nat
    decreases s.len(),
{
    if s.len() == 0 {
        0
    } else {
        decimal_value(s.drop_last()) * 10 + (s.last() - 0x30) as nat
    }
}

/// An optional `+` followed by one or more ASCII digits whose value fits in
/// `u32`; anything else is not a number.
pub open spec fn parse_u32_spec(s: Seq<u8>) -> Option<u32> {
    let d = if s.len() > 0 && s[0] == 0x2b { s.drop_first() } else { s };
    if d.len() == 0 || !all_digits(d) || decimal_value(d) > u32::MAX {
        None
    } else {
        Some(decimal_value(d) as u32)
    }
}

proof fn lemma_decimal_prefix_grows(s: Seq<u8>, k: int)
    requires
        0 <= k <= s.len(),
        all_digits(s),
    ensures
        decimal_value(s.take(k)) <= decimal_value(s),
    decreases s.len() - k,
{
    if k < s.len() {
        lemma_decimal_prefix_grows(s, k + 1);
        assert(s.take(k + 1).drop_last() =~= s.take(k));
    } else {
        assert(s.take(k) =~= s);
    }
}

/// Parses `s[lo..hi]` as a `u32`.
fn parse_u32(s: &[u8], lo: usize, hi: usize) -> (r: Option<u32>)
    requires
        lo <= hi <= s@.len(),
    ensures
        r == parse_u32_spec(s@.subrange(lo as int, hi as int)),
{
    let ghost whole = s@.subrange(lo as int, hi as int);
    let start = if lo < hi && s[lo] == 0x2b { lo + 1 } else { lo };
    let ghost d = s@.subrange(start as int, hi as int);
    assert(whole.len() > 0 ==> whole[0] == s@[lo as int]);
    assert(d =~= (if whole.len() > 0 && whole[0] == 0x2b { whole.drop_first() } else { whole }));
    if start >= hi {
        return None;
    }
    let mut val: u64 = 0;
    let mut i = start;
    while i < hi
        invariant
            start <= i <= hi,
            hi <= s@.len(),
            whole == s@.subrange(lo as int, hi as int),
            d == (if whole.len() > 0 && whole[0] == 0x2b { whole.drop_first() } else { whole }),
            d == s@.subrange(start as int, hi as int),
            all_digits(d.take(i - start)),
            val == decimal_value(d.take(i - start)),
            val <= u32::MAX,
        decreases hi - i,
    {
        let b = s[i];
        if b < 0x30 || b > 0x39 {
            assert(!all_digits(d)) by {
                assert(d[i - start] == b);
            }
            return None;
        }
        let next = val * 10 + (b - 0x30) as u64;
        proof {
            assert(d.take(i - start + 1).drop_last() =~= d.take(i - start));
            assert(d.take(i - start + 1).last() == b);
            assert(all_digits(d.take(i - start + 1)));
            assert(decimal_value(d.take(i - start + 1)) == next);
        }
        if next > 0xffff_ffff {
            proof {
                if all_digits(d) {
                    lemma_decimal_prefix_grows(d, i - start + 1);
                }
            }
            return None;
        }
        val = next;
        i = i + 1;
    }
    assert(d.take(i - start) =~= d);
    Some(val as u32)
}

// ---------------------------------------------------------------------------
// Kitty graphics
// ---------------------------------------------------------------------------

/// Index of the first `sep` in `s[from..to]`, or `to`.
pub open spec fn find_byte(s: Seq<u8>, from: int, to: int, sep: u8) -> int
    decreases to - from,
{
    if from >= to {
        to
    } else if s[from] == sep {
        from
    } else {
        find_byte(s, from + 1, to, sep)
    }
}

/// Kitty control keys read so far: format, width, height.
pub struct KittyFields {
    pub format: u32,
    pub width: u32,
    pub height: u32,
}

/// One `key=value` item of the control data in `s[lo..hi]`. Items without a
/// `=` are ignored; `f`, `s` and `v` set the format, width and height, and a
/// value that is not a number sets the default (32 for the format, 0 otherwise).
pub open spec fn kitty_item(s: Seq<u8>, lo: int, hi: int, f: KittyFields) -> KittyFields {
    let eq = find_byte(s, lo, hi, 0x3d);
    if eq >= hi {
        f
    } else if eq == lo + 1 && s[lo] == 0x66 {
        KittyFields { format: match parse_u32_spec(s.subrange(eq + 1, hi)) { Some(v) => v, None => 32 }, ..f }
    } else if eq == lo + 1 && s[lo] == 0x73 {
        KittyFields { width: match parse_u32_spec(s.subrange(eq + 1, hi)) { Some(v) => v, None => 0 }, ..f }
    } else if eq == lo + 1 && s[lo] == 0x76 {
        KittyFields { height: match parse_u32_spec(s.subrange(eq + 1, hi)) { Some(v) => v, None => 0 }, ..f }
    } else {
        f
    }
}

/// The control data `s[lo..hi]`, split at `,`, read item by item.
pub open spec fn kitty_items(s: Seq<u8>, lo: int, hi: int, f: KittyFields) -> KittyFields
    decreases hi - lo + 1,
{
    let e = find_byte(s, lo, hi, 0x2c);
    let f2 = kitty_item(s, lo, e, f);
    if lo <= e < hi {
        kitty_items(s, e + 1, hi, f2)
    } else {
        f2
    }
}

pub open spec fn kitty_fields(ctrl: Seq<u8>) -> KittyFields {
    kitty_items(ctrl, 0, ctrl.len() as int, KittyFields { format: 32, width: 0, height: 0 })
}

/// RGB triples widened to RGBA with an opaque alpha, for `n` pixels.
pub open spec fn rgb_to_rgba(raw: Seq<u8>, n: nat) -> Seq<u8>
    decreases n,
{
    if n == 0 {
        Seq::empty()
    } else {
        let p = (n - 1) as int;
        rgb_to_rgba(raw, (n - 1) as nat) + seq![raw[p * 3], raw[p * 3 + 1], raw[p * 3 + 2], 255u8]
    }
}

pub open spec fn kitty_channels(f: KittyFields) -> nat {
    if f.format == 24 { 3 } else { 4 }
}

pub open spec fn kitty_pixel_count(f: KittyFields) -> nat {
    u32_specs::wrapping_mul(f.width, f.height) as nat
}

/// What decoding a Kitty image transmission gives, from its control data
/// and its base64 payload.
pub open spec fn kitty_decode(ctrl: Seq<u8>, payload: Seq<u8>, cell_col: usize, cell_row: usize) -> Result<ImageView, ImageError> {
    let f = kitty_fields(ctrl);
    let raw = base64_decode_spec(payload);
    let n = kitty_pixel_count(f);
    let expected = n * kitty_channels(f);
    if f.format == 100 {
        Err(ImageError::KittyPng)
    } else if f.width == 0 || f.height == 0 {
        Err(ImageError::KittyMissingSize)
    } else if raw.len() < expected {
        Err(ImageError::KittyShortPayload)
    } else {
        Ok(ImageView {
            width: f.width,
            height: f.height,
            rgba: if kitty_channels(f) == 4 { raw.take(expected as int) } else { rgb_to_rgba(raw, n) },
            cell_col,
            cell_row,
        })
    }
}

/// Whether the image that a transmission describes is small enough to be
/// laid out: the pixel buffer of `width * height * 4` bytes is sized with
/// 32-bit arithmetic, so a complete transmission of 2^30 pixels or more
/// overflows it and cannot be copied in.
pub open spec fn kitty_fits(ctrl: Seq<u8>, payload: Seq<u8>) -> bool {
    let f = kitty_fields(ctrl);
    let n = kitty_pixel_count(f);
    f.format == 100 || f.width == 0 || f.height == 0
        || base64_decode_spec(payload).len() < n * kitty_channels(f)
        || n < 0x4000_0000
}

/// A payload shorter than 2^31 bytes always fits.
pub proof fn lemma_short_payload_fits(ctrl: Seq<u8>, payload: Seq<u8>)
    requires
        payload.len() < 0x8000_0000,
    ensures
        kitty_fits(ctrl, payload),
{
    lemma_base64_len(payload);
}

proof fn lemma_find_byte_bounds(s: Seq<u8>, from: int, to: int, sep: u8)
    requires
        from <= to,
    ensures
        from <= find_byte(s, from, to, sep) <= to,
        find_byte(s, from, to, sep) < to ==> s[find_byte(s, from, to, sep)] == sep,
    decreases to - from,
{
    if from < to && s[from] != sep {
        lemma_find_byte_bounds(s, from + 1, to, sep);
    }
}

fn find_byte_in(s: &[u8], from: usize, to: usize, sep: u8) -> (r: usize)
    requires
        from <= to <= s@.len(),
    ensures
        r as int == find_byte(s@, from as int, to as int, sep),
        from <= r <= to,
{
    let mut i = from;
    while i < to && s[i] != sep
        invariant
            from <= i <= to,
            to <= s@.len(),
            find_byte(s@, i as int, to as int, sep) == find_byte(s@, from as int, to as int, sep),
        decreases to - i,
    {
        i = i + 1;
    }
    i
}

fn kitty_fields_of(s: &[u8], lo: usize, hi: usize) -> (f: KittyFields)
    requires
        lo <= hi <= s@.len(),
    ensures
        f == kitty_fields(s@.subrange(lo as int, hi as int)),
{
    let ghost c = s@.subrange(lo as int, hi as int);
    let ghost target = kitty_fields(c);
    let mut f = KittyFields { format: 32, width: 0, height: 0 };
    let mut start = lo;
    loop
        invariant
            lo <= start <= hi,
            hi <= s@.len(),
            c == s@.subrange(lo as int, hi as int),
            target == kitty_fields(c),
            kitty_items(c, start - lo, c.len() as int, f) == target,
        decreases hi - start,
    {
        let e = find_byte_in(s, start, hi, 0x2c);
        proof {
            lemma_find_byte_bounds(s@, start as int, hi as int, 0x2c);
            lemma_find_byte_shift(s@, lo as int, hi as int, start as int, hi as int, 0x2c);
        }
        let eq = find_byte_in(s, start, e, 0x3d);
        proof {
            lemma_find_byte_bounds(s@, start as int, e as int, 0x3d);
            lemma_find_byte_shift(s@, lo as int, hi as int, start as int, e as int, 0x3d);
        }
        let ghost f0 = f;
        if eq < e && eq == start + 1 {
            let key = s[start];
            if key == 0x66 {
                f.format = match parse_u32(s, eq + 1, e) {
                    Some(v) => v,
                    None => 32,
                };
            } else if key == 0x73 {
                f.width = match parse_u32(s, eq + 1, e) {
                    Some(v) => v,
                    None => 0,
                };
            } else if key == 0x76 {
                f.height = match parse_u32(s, eq + 1, e) {
                    Some(v) => v,
                    None => 0,
                };
            }
        }
        proof {
            if eq < e {
                assert(c.subrange(eq - lo + 1, e - lo) =~= s@.subrange(eq + 1, e as int));
                assert(c[start - lo] == s@[start as int]);
            }
            assert(f == kitty_item(c, start - lo, e - lo, f0));
        }
        if e >= hi {
            assert(kitty_items(c, start - lo, c.len() as int, f0) == f);
            return f;
        }
        start = e + 1;
    }
}

proof fn lemma_find_byte_shift(s: Seq<u8>, lo: int, hi: int, from: int, to: int, sep: u8)
    requires
        0 <= lo <= from <= to <= hi <= s.len(),
    ensures
        find_byte(s.subrange(lo, hi), from - lo, to - lo, sep) == find_byte(s, from, to, sep) - lo,
    decreases to - from,
{
    if from < to {
        assert(s.subrange(lo, hi)[from - lo] == s[from]);
        lemma_find_byte_shift(s, lo, hi, from + 1, to, sep);
    }
}

/// The pixel buffer of a transmission: the first `expected` bytes for RGBA,
/// or the RGB triples widened with an opaque alpha.
fn kitty_pixels(raw: &Vec<u8>, n: usize, channels: usize) -> (rgba: Vec<u8>)
    requires
        channels == 3 || channels == 4,
        n * channels <= raw@.len(),
    ensures
        rgba@ == (if channels == 4 { raw@.take(n * 4) } else { rgb_to_rgba(raw@, n as nat) }),
{
    let mut rgba: Vec<u8> = Vec::new();
    let raw_len = raw.len();
    if channels == 4 {
        assert(n * 4 <= raw@.len()) by (nonlinear_arith)
            requires
                n * channels <= raw@.len(),
                channels == 4,
        ;
        let expected = n * 4;
        let mut k: usize = 0;
        while k < expected
            invariant
                k <= expected,
                expected <= raw@.len(),
                rgba@ =~= raw@.take(k as int),
            decreases expected - k,
        {
            rgba.push(raw[k]);
            k = k + 1;
        }
    } else {
        assert(n * 3 <= raw@.len()) by (nonlinear_arith)
            requires
                n * channels <= raw@.len(),
                channels == 3,
        ;
        let mut p: usize = 0;
        while p < n
            invariant
                p <= n,
                n * 3 <= raw@.len(),
                raw_len == raw@.len(),
                rgba@ =~= rgb_to_rgba(raw@, p as nat),
            decreases n - p,
        {
            assert(p * 3 + 2 < raw@.len()) by (nonlinear_arith)
                requires
                    p < n,
                    n * 3 <= raw@.len(),
            ;
            rgba.push(raw[p * 3]);
            rgba.push(raw[p * 3 + 1]);
            rgba.push(raw[p * 3 + 2]);
            rgba.push(255);
            p = p + 1;
        }
    }
    rgba
}

fn decode_kitty_bytes(ctrl: &[u8], c_lo: usize, c_hi: usize, data: &[u8], d_lo: usize, d_hi: usize, cell_col: usize, cell_row: usize) -> (r: Result<DecodedImage, ImageError>)
    requires
        c_lo <= c_hi <= ctrl@.len(),
        d_lo <= d_hi <= data@.len(),
        kitty_fits(ctrl@.subrange(c_lo as int, c_hi as int), data@.subrange(d_lo as int, d_hi as int)),
    ensures
        result_view(r) == kitty_decode(
            ctrl@.subrange(c_lo as int, c_hi as int),
            data@.subrange(d_lo as int, d_hi as int),
            cell_col,
            cell_row,
        ),
{
    let f = kitty_fields_of(ctrl, c_lo, c_hi);
    if f.format == 100 {
        return Err(ImageError::KittyPng);
    }
    let raw = base64_decode(data, d_lo, d_hi);
    let channels: usize = if f.format == 24 { 3 } else { 4 };
    if f.width == 0 || f.height == 0 {
        return Err(ImageError::KittyMissingSize);
    }
    let n = f.width.wrapping_mul(f.height) as u64;
    let expected = n * (channels as u64);
    if (raw.len() as u64) < expected {
        return Err(ImageError::KittyShortPayload);
    }
    let rgba = kitty_pixels(&raw, n as usize, channels);
    Ok(DecodedImage { width: f.width, height: f.height, rgba, cell_col, cell_row })
}

/// Whether a Kitty transmission with this control data and payload can be
/// decoded without overflowing the pixel buffer (see `kitty_fits`).
pub fn kitty_transmission_fits(control: &str, payload_b64: &str) -> (b: bool)
    ensures
        b == kitty_fits(control.spec_bytes(), payload_b64.spec_bytes()),
{
    let c = control.as_bytes();
    let d = payload_b64.as_bytes();
    proof {
        assert(c@.subrange(0, c@.len() as int) =~= c@);
        assert(d@.subrange(0, d@.len() as int) =~= d@);
    }
    kitty_range_fits(c, 0, c.len(), d, 0, d.len())
}

fn kitty_range_fits(ctrl: &[u8], c_lo: usize, c_hi: usize, data: &[u8], d_lo: usize, d_hi: usize) -> (b: bool)
    requires
        c_lo <= c_hi <= ctrl@.len(),
        d_lo <= d_hi <= data@.len(),
    ensures
        b == kitty_fits(ctrl@.subrange(c_lo as int, c_hi as int), data@.subrange(d_lo as int, d_hi as int)),
{
    let f = kitty_fields_of(ctrl, c_lo, c_hi);
    if f.format == 100 || f.width == 0 || f.height == 0 {
        return true;
    }
    let n = f.width.wrapping_mul(f.height) as u64;
    if n < 0x4000_0000 {
        return true;
    }
    let raw = base64_decode(data, d_lo, d_hi);
    let channels: u64 = if f.format == 24 { 3 } else { 4 };
    (raw.len() as u64) < n * channels
}

/// Decodes a Kitty graphics transmission: `control` is the `key=value,...`
/// control data (`f` format: 32 for RGBA, 24 for RGB, 100 for PNG; `s` width
/// and `v` height in pixels) and `payload_b64` the base64 pixel data.
pub fn decode_kitty(control: &str, payload_b64: &str, cell_col: usize, cell_row: usize) -> (r: Result<DecodedImage, ImageError>)
    requires
        kitty_fits(control.spec_bytes(), payload_b64.spec_bytes()),
    ensures
        result_view(r) == kitty_decode(control.spec_bytes(), payload_b64.spec_bytes(), cell_col, cell_row),
{
    let c = control.as_bytes();
    let d = payload_b64.as_bytes();
    proof {
        assert(c@.subrange(0, c@.len() as int) =~= c@);
        assert(d@.subrange(0, d@.len() as int) =~= d@);
    }
    decode_kitty_bytes(c, 0, c.len(), d, 0, d.len(), cell_col, cell_row)
}

/// Decodes a Kitty APC payload `payload[lo..hi]` (the bytes after `_G`): the
/// control data up to the first `;` and the base64 pixel data after it.
/// Returns `None` when the transmission does not fit (see `kitty_fits`).
pub fn decode_kitty_apc(payload: &[u8], lo: usize, hi: usize, cell_col: usize, cell_row: usize) -> (r: Option<Result<DecodedImage, ImageError>>)
    requires
        lo <= hi <= payload@.len(),
    ensures
        ({
            let p = payload@.subrange(lo as int, hi as int);
            let semi = find_byte(p, 0, p.len() as int, 0x3b);
            let ctrl = p.subrange(0, semi);
            let data = if semi < p.len() { p.subrange(semi + 1, p.len() as int) } else { Seq::empty() };
            match r {
                None => !kitty_fits(ctrl, data),
                Some(res) => kitty_fits(ctrl, data) && result_view(res) == kitty_decode(ctrl, data, cell_col, cell_row),
            }
        }),
{
    let ghost p = payload@.subrange(lo as int, hi as int);
    let semi = find_byte_in(payload, lo, hi, 0x3b);
    proof {
        lemma_find_byte_shift(payload@, lo as int, hi as int, lo as int, hi as int, 0x3b);
        lemma_find_byte_bounds(payload@, lo as int, hi as int, 0x3b);
    }
    let d_lo = if semi < hi { semi + 1 } else { hi };
    proof {
        assert(p.subrange(0, semi - lo) =~= payload@.subrange(lo as int, semi as int));
        if semi < hi {
            assert(p.subrange(semi - lo + 1, p.len() as int) =~= payload@.subrange(d_lo as int, hi as int));
        } else {
            assert(payload@.subrange(d_lo as int, hi as int) =~= Seq::<u8>::empty());
        }
    }
    if !kitty_range_fits(payload, lo, semi, payload, d_lo, hi) {
        return None;
    }
    Some(decode_kitty_bytes(payload, lo, semi, payload, d_lo, hi, cell_col, cell_row))
}

/// RGB pixels widen to four bytes each, with every alpha byte opaque and
/// the colour bytes copied in order.
pub proof fn law_rgb_widening(raw: Seq<u8>, n: nat)
    requires
        n * 3 <= raw.len(),
    ensures
        rgb_to_rgba(raw, n).len() == n * 4,
        forall|p: int, c: int| 0 <= p < n && 0 <= c < 3 ==> #[trigger] rgb_to_rgba(raw, n)[p * 4 + c] == raw[p * 3 + c],
        forall|p: int| 0 <= p < n ==> #[trigger] rgb_to_rgba(raw, n)[p * 4 + 3] == 255u8,
    decreases n,
{
    if n > 0 {
        let m = (n - 1) as nat;
        assert(m * 3 <= raw.len()) by (nonlinear_arith)
            requires n * 3 <= raw.len(), m + 1 == n;
        law_rgb_widening(raw, m);
        let prev = rgb_to_rgba(raw, m);
        assert(prev.len() == m * 4);
        assert forall|p: int, c: int| 0 <= p < n && 0 <= c < 3 implies #[trigger] rgb_to_rgba(raw, n)[p * 4 + c] == raw[p * 3 + c] by {
            if p < m {
                assert(p * 4 + c < m * 4) by (nonlinear_arith)
                    requires p < m, 0 <= c < 3;
            } else {
                assert(p * 4 + c == m * 4 + c);
            }
        }
        assert forall|p: int| 0 <= p < n implies #[trigger] rgb_to_rgba(raw, n)[p * 4 + 3] == 255u8 by {
            if p < m {
                assert(p * 4 + 3 < m * 4) by (nonlinear_arith)
                    requires p < m;
            }
        }
    }
}

/// Painting pixels never changes the size of the buffer.
pub proof fn law_paint_keeps_size(rgba: Seq<u8>, pixels: Seq<(i64, i64, usize)>, palette: Seq<(u8, u8, u8)>, w: u32)
    ensures
        paint_pixels(rgba, pixels, palette, w).len() == rgba.len(),
    decreases pixels.len(),
{
    if pixels.len() > 0 {
        law_paint_keeps_size(rgba, pixels.drop_last(), palette, w);
    }
}

} // verus!
