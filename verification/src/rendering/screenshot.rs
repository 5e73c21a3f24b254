//! Layout of the buffer that a frame is copied into for a screenshot.
//!
//! Rows copied out of a texture must start at multiples of 256 bytes, so every
//! row of the copy is followed by padding, which is stripped afterwards.
use lunar_png::CompressionLevel;
use vstd::prelude::*;
use vstd::string::*;

verus! {

/// The padding after a row of `row_bytes` bytes: 256 minus the remainder of
/// the row length modulo 256 (a full 256 when the row is already aligned).
pub open spec fn padding_of(row_bytes: int) -> int {
    256 - row_bytes % 256
}

/// The buffer layout for the current resolution and texel size.
pub struct CaptureLayout {
    /// Width and height the layout was computed for.
    pub resolution: (u32, u32),
    /// Bytes per texel.
    pub fmt_size: u32,
    /// Padding after each row.
    pub padding: u32,
    /// Size of the copy buffer in bytes.
    pub size: u32,
}

/// Whether the layout for this resolution and texel size fits in `u32`.
pub open spec fn layout_fits(width: u32, height: u32, fmt_size: u32) -> bool {
    &&& fmt_size * width + 256 <= u32::MAX
    &&& (fmt_size * width + padding_of(fmt_size * width)) * height <= u32::MAX
}

impl CaptureLayout {
    /// The layout before the first frame: resolution, texel size, padding and size 0.
    pub fn new() -> (r: CaptureLayout)
        ensures
            r.resolution == (0u32, 0u32),
            r.fmt_size == 0,
            r.padding == 0,
            r.size == 0,
    {
        CaptureLayout { resolution: (0, 0), fmt_size: 0, padding: 0, size: 0 }
    }

    /// Brings the layout up to date with the resolution and the texel size of
    /// the surface; returns whether the copy buffer must be created anew.
    ///
    /// Nothing changes while the resolution stays the same. Otherwise the
    /// padding and the size are recomputed, and the buffer is renewed when the
    /// size changed.
    pub fn update(&mut self, width: u32, height: u32, fmt_size: u32) -> (recreate: bool)
        requires
            layout_fits(width, height, fmt_size),
        ensures
            old(self).resolution == (width, height) ==> *final(self) == *old(self) && !recreate,
            old(self).resolution != (width, height) ==> {
                &&& final(self).resolution == (width, height)
                &&& final(self).fmt_size == fmt_size
                &&& final(self).padding == padding_of(fmt_size * width)
                &&& final(self).size == (fmt_size * width + padding_of(fmt_size * width)) * height
                &&& recreate == (final(self).size != old(self).size)
            },
    {
        if width == self.resolution.0 && height == self.resolution.1 {
            return false;
        }
        self.resolution = (width, height);
        self.fmt_size = fmt_size;
        let row = fmt_size * width;
        let padding = 256 - row % 256;
        self.padding = padding;
        let needed = (row + padding) * height;
        if needed != self.size {
            self.size = needed;
            true
        } else {
            false
        }
    }

    /// Bytes from the start of one copied row to the start of the next.
    pub fn bytes_per_row(&self) -> (r: u32)
        requires
            self.resolution.0 * self.fmt_size + self.padding <= u32::MAX,
        ensures
            r == self.resolution.0 * self.fmt_size + self.padding,
    {
        self.resolution.0 * self.fmt_size + self.padding
    }
}

/// The rows of `d` without their padding: the first `row` bytes of every
/// `stride` bytes.
pub open spec fn unpadded(d: Seq<u8>, row: nat, stride: nat) -> Seq<u8>
    decreases d.len(),
{
    if d.len() == 0 || stride == 0 {
        Seq::empty()
    } else if d.len() <= stride {
        d.take(row as int)
    } else {
        d.take(row as int) + unpadded(d.skip(stride as int), row, stride)
    }
}

/// Whether every `stride`-long chunk of the data, the last one included, holds
/// at least `row` bytes.
pub open spec fn rows_complete(len: nat, row: nat, stride: nat) -> bool {
    &&& 0 < stride
    &&& row <= stride
    &&& (len % stride == 0 || len % stride >= row)
}

/// Strips the padding from the copied rows.
pub fn strip_row_padding(data: &Vec<u8>, row: usize, stride: usize) -> (r: Vec<u8>)
    requires
        rows_complete(data@.len(), row as nat, stride as nat),
    ensures
        r@ == unpadded(data@, row as nat, stride as nat),
{
    let mut out: Vec<u8> = Vec::new();
    let mut start: usize = 0;
    let ghost mut chunks: int = 0;
    let len = data.len();
    assert(data@.skip(0) =~= data@);
    assert(out@ + unpadded(data@, row as nat, stride as nat) =~= unpadded(data@, row as nat, stride as nat));
    while start < len
        invariant
            len == data@.len(),
            0 <= start <= len,
            0 <= chunks,
            start == chunks * stride || start == len,
            rows_complete(data@.len(), row as nat, stride as nat),
            unpadded(data@, row as nat, stride as nat) == out@ + unpadded(
                data@.skip(start as int),
                row as nat,
                stride as nat,
            ),
        decreases len - start,
    {
        let rest = len - start;
        let ghost tail = data@.skip(start as int);
        let ghost c = chunks;
        assert(start == c * stride);
        if rest <= stride {
            assert(rest >= row) by {
                if rest < stride {
                    assert(data@.len() % (stride as nat) == rest) by (nonlinear_arith)
                        requires
                            data@.len() == c * stride + rest,
                            0 <= rest < stride,
                            0 <= c,
                    ;
                }
            }
        }
        let mut j: usize = 0;
        let ghost before = out@;
        while j < row
            invariant
                0 <= j <= row,
                start + row <= len,
                len == data@.len(),
                out@ == before + data@.subrange(start as int, start + j),
            decreases row - j,
        {
            out.push(data[start + j]);
            j = j + 1;
            assert(data@.subrange(start as int, start + j) =~= data@.subrange(start as int, start + j - 1).push(data@[start + j - 1]));
        }
        assert(data@.subrange(start as int, start + row) =~= tail.take(row as int));
        if rest <= stride {
            assert(data@.skip(len as int) =~= Seq::<u8>::empty());
            start = len;
        } else {
            assert(tail.skip(stride as int) =~= data@.skip(start + stride));
            start = start + stride;
            proof {
                chunks = c + 1;
                assert(start == chunks * stride) by (nonlinear_arith)
                    requires
                        start == c * stride + stride,
                        chunks == c + 1,
                ;
            }
        }
    }
    assert(out@ =~= out@ + Seq::<u8>::empty());
    out
}

/// The character of a decimal digit.
pub open spec fn digit_char(d: nat) -> char {
    if d == 0 {
        '0'
    } else if d == 1 {
        '1'
    } else if d == 2 {
        '2'
    } else if d == 3 {
        '3'
    } else if d == 4 {
        '4'
    } else if d == 5 {
        '5'
    } else if d == 6 {
        '6'
    } else if d == 7 {
        '7'
    } else if d == 8 {
        '8'
    } else {
        '9'
    }
}

/// The decimal representation of `n`, most significant digit first.
pub open spec fn decimal(n: nat) -> Seq<char>
    decreases n,
{
    if n < 10 {
        seq![digit_char(n)]
    } else {
        decimal(n / 10).push(digit_char(n % 10))
    }
}

/// The decimal representation of `n`, with leading zeros up to `width` characters.
pub open spec fn zero_padded(n: nat, width: nat) -> Seq<char> {
    let d = decimal(n);
    if d.len() < width {
        Seq::new((width - d.len()) as nat, |_i: int| '0') + d
    } else {
        d
    }
}

/// The wall-clock time at which a screenshot was taken.
#[derive(Clone, Copy, Debug, PartialEq, Eq, Structural)]
pub struct CaptureTime {
    pub year: u32,
    pub month: u32,
    pub day: u32,
    pub hour: u32,
    pub minute: u32,
    pub second: u32,
}

/// `yyyy-mm-dd-hh-mm-ss`.
pub open spec fn time_stamp(t: CaptureTime) -> Seq<char> {
    zero_padded(t.year as nat, 4) + seq!['-'] + zero_padded(t.month as nat, 2) + seq!['-']
        + zero_padded(t.day as nat, 2) + seq!['-'] + zero_padded(t.hour as nat, 2) + seq!['-']
        + zero_padded(t.minute as nat, 2) + seq!['-'] + zero_padded(t.second as nat, 2)
}

/// The name of a screenshot file: `prefix-yyyy-mm-dd-hh-mm-ss.png` when the
/// time is part of the name, `prefix.png` when it is not.
pub open spec fn screenshot_name(prefix: Seq<char>, time: Option<CaptureTime>) -> Seq<char> {
    match time {
        Some(t) => prefix + seq!['-'] + time_stamp(t) + seq!['.', 'p', 'n', 'g'],
        None => prefix + seq!['.', 'p', 'n', 'g'],
    }
}

/// Digit characters for a list of digits, last digit first.
pub open spec fn rev_digits(s: Seq<u32>) -> Seq<char>
    decreases s.len(),
{
    if s.len() == 0 {
        Seq::empty()
    } else {
        seq![digit_char(s.last() as nat)] + rev_digits(s.drop_last())
    }
}

fn digit_str(d: u32) -> (r: &'static str)
    requires
        d < 10,
    ensures
        r@ == seq![digit_char(d as nat)],
{
    proof {
        reveal_strlit("0");
        reveal_strlit("1");
        reveal_strlit("2");
        reveal_strlit("3");
        reveal_strlit("4");
        reveal_strlit("5");
        reveal_strlit("6");
        reveal_strlit("7");
        reveal_strlit("8");
        reveal_strlit("9");
    }
    match d {
        0 => "0",
        1 => "1",
        2 => "2",
        3 => "3",
        4 => "4",
        5 => "5",
        6 => "6",
        7 => "7",
        8 => "8",
        _ => "9",
    }
}

/// Appends `n` in decimal, with leading zeros up to `width` characters.
fn push_zero_padded(out: &mut String, n: u32, width: usize)
    ensures
        final(out)@ == old(out)@ + zero_padded(n as nat, width as nat),
{
    let mut m: u32 = n;
    let mut low: Vec<u32> = Vec::new();
    while m >= 10
        invariant
            decimal(n as nat) == decimal(m as nat) + rev_digits(low@),
            forall|i: int| 0 <= i < low@.len() ==> #[trigger] low@[i] < 10,
        decreases m,
    {
        let ghost before = low@;
        let d = m % 10;
        low.push(d);
        assert(decimal(m as nat) == decimal((m / 10) as nat).push(digit_char(d as nat)));
        assert(low@.drop_last() =~= before);
        assert(rev_digits(low@) == seq![digit_char(d as nat)] + rev_digits(before));
        assert(decimal(m as nat) + rev_digits(before) =~= decimal((m / 10) as nat) + rev_digits(low@));
        m = m / 10;
    }
    proof {
        lemma_rev_digits_len(low@);
    }
    let ghost base = out@;
    let ghost digits = decimal(n as nat);
    assert(digits =~= seq![digit_char(m as nat)] + rev_digits(low@));
    let count = low.len();
    if count < width {
        let pad = width - 1 - count;
        let mut k: usize = 0;
        while k < pad
            invariant
                0 <= k <= pad,
                out@ == base + Seq::new(k as nat, |_i: int| '0'),
            decreases pad - k,
        {
            proof {
                reveal_strlit("0");
            }
            out.append("0");
            k = k + 1;
            assert(out@ =~= base + Seq::new(k as nat, |_i: int| '0'));
        }
    }
    let ghost padded = out@;
    out.append(digit_str(m));
    assert(low@.take(count as int) =~= low@);
    assert(out@ + rev_digits(low@) =~= padded + digits);
    let mut i: usize = count;
    while i > 0
        invariant
            0 <= i <= count,
            count == low@.len(),
            forall|j: int| 0 <= j < low@.len() ==> #[trigger] low@[j] < 10,
            out@ + rev_digits(low@.take(i as int)) == padded + digits,
        decreases i,
    {
        let ghost rest = low@.take(i as int);
        assert(rest.drop_last() =~= low@.take(i - 1));
        assert(rest.last() == low@[i - 1]);
        i = i - 1;
        out.append(digit_str(low[i]));
        assert(out@ + rev_digits(low@.take(i as int)) =~= padded + digits);
    }
    assert(low@.take(0) =~= Seq::<u32>::empty());
    assert(out@ =~= padded + digits);
    assert(padded + digits =~= base + zero_padded(n as nat, width as nat));
}

/// Appends a dash and then `n` in decimal with leading zeros up to `width` characters.
fn push_field(out: &mut String, n: u32, width: usize)
    ensures
        final(out)@ == old(out)@ + seq!['-'] + zero_padded(n as nat, width as nat),
{
    proof {
        reveal_strlit("-");
    }
    out.append("-");
    push_zero_padded(out, n, width);
}

/// Appends `yyyy-mm-dd-hh-mm-ss`.
fn push_time_stamp(out: &mut String, t: CaptureTime)
    ensures
        final(out)@ == old(out)@ + time_stamp(t),
{
    let ghost base = out@;
    push_zero_padded(out, t.year, 4);
    push_field(out, t.month, 2);
    push_field(out, t.day, 2);
    push_field(out, t.hour, 2);
    push_field(out, t.minute, 2);
    push_field(out, t.second, 2);
    assert(out@ =~= base + time_stamp(t));
}

/// The name of the file a screenshot is saved to: the prefix, then, when the
/// time is given, a dash and the time as `yyyy-mm-dd-hh-mm-ss`, then `.png`.
pub fn screenshot_file_name(prefix: &str, time: Option<CaptureTime>) -> (r: String)
    ensures
        r@ == screenshot_name(prefix@, time),
{
    proof {
        reveal_strlit("-");
        reveal_strlit(".png");
    }
    let mut out = String::from_str(prefix);
    match time {
        Some(t) => {
            out.append("-");
            push_time_stamp(&mut out, t);
        },
        None => {},
    }
    out.append(".png");
    assert(out@ =~= screenshot_name(prefix@, time));
    out
}

proof fn lemma_rev_digits_len(s: Seq<u32>)
    ensures
        rev_digits(s).len() == s.len(),
    decreases s.len(),
{
    if s.len() > 0 {
        lemma_rev_digits_len(s.drop_last());
    }
}

/// How hard the PNG encoder compresses.
#[derive(Clone, Copy, Debug, PartialEq, Eq, Structural)]
pub enum PngCompression {
    /// No compression at all, fastest.
    Stored,
    /// Some compression, optimized for time.
    Fast,
    /// Best compression, slowest encoding.
    Best,
}

/// What `lunar_png::encode_png` writes after the time chunk, for 8-bit RGBA
/// pixels: the compressed, filtered image data chunk and the end chunk.
pub uninterp spec fn png_rest(data: Seq<u8>, width: u32, height: u32, compression: PngCompression) -> Seq<u8>;

/// A `u32` as four big-endian bytes.
pub open spec fn be_bytes(x: u32) -> Seq<u8> {
    seq![
        (x / 0x100_0000) as u8,
        ((x / 0x1_0000) % 0x100) as u8,
        ((x / 0x100) % 0x100) as u8,
        (x % 0x100) as u8,
    ]
}

/// The start of a PNG file of 8-bit RGBA pixels: the signature, then the
/// length and type of the header chunk, the width, the height, bit depth 8,
/// colour type 6 and zero compression, filter and interlace methods.
pub open spec fn png_rgba8_header(width: u32, height: u32) -> Seq<u8> {
    seq![0x89u8, 0x50, 0x4e, 0x47, 0x0d, 0x0a, 0x1a, 0x0a, 0, 0, 0, 13, 0x49, 0x48, 0x44, 0x52]
        + be_bytes(width) + be_bytes(height) + seq![8u8, 6, 0, 0, 0]
}

/// Encodes 8-bit RGBA pixels as a PNG file with `lunar_png::encode_png`,
/// asking for a time chunk.
///
/// Claims what the encoder writes, as its source shows: first the bytes of
/// `png_rgba8_header`, then the header chunk's checksum and the 19-byte time
/// chunk (not stated: the checksum's formula takes pages and the time depends
/// on the clock), and from byte 52 on a part that depends on the pixels, the
/// size and the compression level alone, named `png_rest`. The `requires`
/// leaves out a width whose row length overflows `u32` and pixels without a
/// row to hold them, on which the encoder panics, a pixel buffer too long to
/// allocate the filtered copy for, and pixel buffers over 2 GiB: the encoder
/// subtracts 4 from the compressed length taken as a `u32`, which panics when
/// that length wraps below 4, and the filtered and compressed data of at most
/// 2 GiB of pixels (one filter byte per row of at least 4 bytes, a few bytes
/// of framing per stored block) stays below 4 GiB.
#[verifier::external_body]
fn encode_rgba8_png(data: Vec<u8>, width: u32, height: u32, compression: PngCompression) -> (r: Vec<u8>)
    requires
        width <= u32::MAX / 4,
        width > 0 || data@.len() == 0,
        data@.len() + height <= isize::MAX,
        data@.len() <= 0x8000_0000,
    ensures
        r@.len() >= 52,
        r@.subrange(0, 29) == png_rgba8_header(width, height),
        r@.subrange(52, r@.len() as int) == png_rest(data@, width, height, compression),
{
    let compression = match compression {
        PngCompression::Stored => CompressionLevel::None,
        PngCompression::Fast => CompressionLevel::Fast,
        PngCompression::Best => CompressionLevel::Best,
    };
    let image = lunar_png::Image { width, height, img_type: lunar_png::ImageType::Rgba8, data };
    lunar_png::encode_png(&image, &lunar_png::PngEncodingOptions { compression, write_timestamp: true })
}

proof fn lemma_unpadded_len(d: Seq<u8>, row: nat, stride: nat)
    requires
        rows_complete(d.len(), row, stride),
    ensures
        unpadded(d, row, stride).len() <= d.len(),
        row == 0 ==> unpadded(d, row, stride).len() == 0,
    decreases d.len(),
{
    if d.len() > stride {
        let n = d.len() as int;
        let st = stride as int;
        assert((n - st) % st == n % st) by {
            vstd::arithmetic::div_mod::lemma_mod_sub_multiples_vanish(n, st);
        }
        lemma_unpadded_len(d.skip(stride as int), row, stride);
    } else if d.len() > 0 && d.len() < stride {
        vstd::arithmetic::div_mod::lemma_small_mod(d.len(), stride);
    }
}

/// Strips the row padding from a frame copied with `layout` and encodes the
/// pixels as an RGBA PNG file of the layout's resolution.
pub fn screenshot_png(padded: &Vec<u8>, layout: &CaptureLayout, compression: PngCompression) -> (r: Vec<u8>)
    requires
        layout.resolution.0 * layout.fmt_size + layout.padding <= u32::MAX,
        rows_complete(
            padded@.len(),
            (layout.resolution.0 * layout.fmt_size) as nat,
            (layout.resolution.0 * layout.fmt_size + layout.padding) as nat,
        ),
        layout.resolution.0 <= u32::MAX / 4,
        padded@.len() + layout.resolution.1 <= isize::MAX,
        unpadded(
            padded@,
            (layout.resolution.0 * layout.fmt_size) as nat,
            (layout.resolution.0 * layout.fmt_size + layout.padding) as nat,
        ).len() <= 0x8000_0000,
    ensures
        r@.len() >= 52,
        r@.subrange(0, 29) == png_rgba8_header(layout.resolution.0, layout.resolution.1),
        r@.subrange(52, r@.len() as int) == png_rest(
            unpadded(
                padded@,
                (layout.resolution.0 * layout.fmt_size) as nat,
                (layout.resolution.0 * layout.fmt_size + layout.padding) as nat,
            ),
            layout.resolution.0,
            layout.resolution.1,
            compression,
        ),
{
    let row = layout.resolution.0 * layout.fmt_size;
    let stride = row + layout.padding;
    let pixels = strip_row_padding(padded, row as usize, stride as usize);
    proof {
        lemma_unpadded_len(padded@, row as nat, stride as nat);
        if layout.resolution.0 == 0 {
            assert(row == 0);
        }
    }
    encode_rgba8_png(pixels, layout.resolution.0, layout.resolution.1, compression)
}

/// The padding puts every copied row on a 256-byte boundary and is never
/// empty nor longer than 256 bytes.
pub proof fn law_row_stride_aligned(row_bytes: int)
    requires
        0 <= row_bytes,
    ensures
        (row_bytes + padding_of(row_bytes)) % 256 == 0,
        0 < padding_of(row_bytes) <= 256,
{
    assert((row_bytes + (256 - row_bytes % 256)) % 256 == 0) by (nonlinear_arith)
        requires
            0 <= row_bytes,
    ;
}

/// Stripping a buffer of whole rows keeps `row` bytes of each of them.
pub proof fn law_unpadded_len(d: Seq<u8>, row: nat, stride: nat, rows: nat)
    requires
        0 < stride,
        row <= stride,
        d.len() == rows * stride,
    ensures
        unpadded(d, row, stride).len() == rows * row,
    decreases rows,
{
    if rows == 0 {
        assert(d.len() == 0 && rows * row == 0) by (nonlinear_arith)
            requires
                d.len() == rows * stride,
                rows == 0,
        ;
    } else if rows == 1 {
        assert(d.len() == stride && rows * row == row) by (nonlinear_arith)
            requires
                d.len() == rows * stride,
                rows == 1,
        ;
    } else {
        assert(d.len() == (rows - 1) * stride + stride && (rows - 1) * stride >= stride) by (nonlinear_arith)
            requires
                d.len() == rows * stride,
                rows >= 2,
                stride > 0,
        ;
        law_unpadded_len(d.skip(stride as int), row, stride, (rows - 1) as nat);
        assert(rows * row == (rows - 1) * row + row) by (nonlinear_arith)
            requires
                rows >= 1,
        ;
    }
}

} // verus!
