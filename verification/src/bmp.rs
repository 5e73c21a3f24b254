//! Decoding of uncompressed 32 bits-per-pixel bitmap files.
use vstd::prelude::*;

use crate::structures::{Image, Pixel};

verus! {

/// Size of the file header and the info header together.
pub const HEADER_SIZE: usize = 54;

/// Why a bitmap was refused.
#[derive(Debug, Clone, Copy, PartialEq, Eq, Structural)]
pub enum BmpError {
    /// The data is not longer than the headers.
    HeaderTooSmall,
    /// The data does not start with `BM`.
    WrongSignature,
    /// The size recorded in the header is not the length of the data.
    InvalidSize,
    /// The number of color planes is not 1.
    WrongColorPlanes,
    /// The bits-per-pixel field is not 32.
    UnsupportedBitsPerPixel,
}

impl BmpError {
    /// The message that describes the error.
    pub fn message(&self) -> (r: &'static str)
        ensures
            r@ == match *self {
                BmpError::HeaderTooSmall => "Invalid data, header too small"@,
                BmpError::WrongSignature => "Invalid data, wrong signature"@,
                BmpError::InvalidSize => "Invalid data, invalid size"@,
                BmpError::WrongColorPlanes => "Invalid data, wrong number of color planes != 1"@,
                BmpError::UnsupportedBitsPerPixel => "Unsported bits per pixel"@,
            },
    {
        match self {
            BmpError::HeaderTooSmall => "Invalid data, header too small",
            BmpError::WrongSignature => "Invalid data, wrong signature",
            BmpError::InvalidSize => "Invalid data, invalid size",
            BmpError::WrongColorPlanes => "Invalid data, wrong number of color planes != 1",
            BmpError::UnsupportedBitsPerPixel => "Unsported bits per pixel",
        }
    }
}

/// Reads four bytes as an array (`bytemuck::from_bytes::<[u8; 4]>`).
///
/// Claims that the array holds the four bytes in order; `from_bytes` panics
/// unless the slice holds exactly four bytes, which `requires` excludes.
#[verifier::external_body]
fn read_quad(bytes: &[u8]) -> (r: [u8; 4])
    requires
        bytes@.len() == 4,
    ensures
        r@ == bytes@,
{
    *bytemuck::from_bytes::<[u8; 4]>(bytes)
}

/// The little-endian `u16` at `at`.
pub open spec fn le_u16(d: Seq<u8>, at: int) -> u16 {
    (d[at] as int + d[at + 1] as int * 256) as u16
}

/// The little-endian `u32` at `at`.
pub open spec fn le_u32(d: Seq<u8>, at: int) -> u32 {
    (d[at] as int + d[at + 1] as int * 256 + d[at + 2] as int * 65536 + d[at + 3] as int
        * 16777216) as u32
}

/// Offset of the pixel data, from the file header.
pub open spec fn data_offset(d: Seq<u8>) -> int {
    le_u32(d, 10) as int
}

/// Whether the headers are accepted; `None` when they are, else the refusal.
pub open spec fn header_error(d: Seq<u8>) -> Option<BmpError> {
    if d.len() <= HEADER_SIZE {
        Some(BmpError::HeaderTooSmall)
    } else if d[0] != 0x42u8 || d[1] != 0x4Du8 {
        Some(BmpError::WrongSignature)
    } else if le_u32(d, 2) as int != d.len() % 0x1_0000_0000 {
        Some(BmpError::InvalidSize)
    } else if le_u16(d, 26) != 1 {
        Some(BmpError::WrongColorPlanes)
    } else if le_u16(d, 28) != 32 {
        // Only 32 bits per pixel are supported, as the texture loader's
        // documentation says; any other value is refused.
        Some(BmpError::UnsupportedBitsPerPixel)
    } else {
        None
    }
}

/// Whether decoding would run out of bounds: accepted headers whose pixel data
/// does not start inside the file or does not split into whole pixels.
pub open spec fn pixel_data_broken(d: Seq<u8>) -> bool {
    header_error(d) is None && (data_offset(d) > d.len() || (d.len() - data_offset(d)) % 4 != 0)
}

/// The pixel stored in the four bytes at `at` (stored in blue, green, red, alpha order).
pub open spec fn pixel_at(d: Seq<u8>, at: int) -> Pixel {
    Pixel { r: d[at + 2], g: d[at + 1], b: d[at], a: d[at + 3] }
}

/// The pixels of the data, in file order.
pub open spec fn pixels(d: Seq<u8>) -> Seq<Pixel> {
    Seq::new(
        ((d.len() - data_offset(d)) / 4) as nat,
        |i: int| pixel_at(d, data_offset(d) + 4 * i),
    )
}

/// Reads the little-endian `u32` at `at`.
fn read_u32(data: &[u8], at: usize) -> (r: u32)
    requires
        at + 4 <= data@.len(),
    ensures
        r == le_u32(data@, at as int),
{
    let n = data.len();
    let q = read_quad(&data[at..at + 4]);
    assert(q@[0] == data@[at as int] && q@[1] == data@[at + 1] && q@[2] == data@[at + 2] && q@[3] == data@[at + 3]);
    q[0] as u32 + q[1] as u32 * 256 + q[2] as u32 * 65536 + q[3] as u32 * 16777216
}

/// Parses a bitmap: the headers, then, from the pixel data offset recorded at
/// byte 10, pixels of four bytes each (blue, green, red, alpha).
///
/// # Errors
///
/// Returns the first of the refusals of `header_error`.
pub fn parse(data: &[u8]) -> (r: Result<Image, BmpError>)
    requires
        !pixel_data_broken(data@),
    ensures
        match header_error(data@) {
            Some(e) => r == Err::<Image, BmpError>(e),
            None => r matches Ok(img) && img.width == le_u32(data@, 18) && img.height == le_u32(
                data@,
                22,
            ) && img.data@ == pixels(data@),
        },
        r matches Ok(img) ==> img.data@.len() == (data@.len() - le_u32(data@, 10)) / 4,
        r matches Ok(img) ==> forall|i: int|
            0 <= i < img.data@.len() ==> #[trigger] img.data@[i] == (Pixel {
                r: data@[le_u32(data@, 10) + 4 * i + 2],
                g: data@[le_u32(data@, 10) + 4 * i + 1],
                b: data@[le_u32(data@, 10) + 4 * i],
                a: data@[le_u32(data@, 10) + 4 * i + 3],
            }),
{
    if data.len() <= HEADER_SIZE {
        return Err(BmpError::HeaderTooSmall);
    }
    if data[0] != 0x42u8 || data[1] != 0x4Du8 {
        return Err(BmpError::WrongSignature);
    }
    let size = read_u32(data, 2);
    let len64 = data.len() as u64;
    let len32 = #[verifier::truncate] (len64 as u32);
    assert(len32 == len64 % 0x1_0000_0000) by (bit_vector)
        requires
            len32 == #[verifier::truncate] (len64 as u32),
    ;
    if size != len32 {
        return Err(BmpError::InvalidSize);
    }
    let color_planes: u16 = data[26] as u16 + data[27] as u16 * 256;
    if color_planes != 1 {
        return Err(BmpError::WrongColorPlanes);
    }
    let bpp: u16 = data[28] as u16 + data[29] as u16 * 256;
    if bpp != 32 {
        return Err(BmpError::UnsupportedBitsPerPixel);
    }
    let width = read_u32(data, 18);
    let height = read_u32(data, 22);
    let offset = read_u32(data, 10) as usize;
    let mut out: Vec<Pixel> = Vec::new();
    let mut at: usize = offset;
    let ghost n = ((data@.len() - offset) / 4) as int;
    while at < data.len()
        invariant
            offset <= at <= data@.len(),
            (data@.len() - at) % 4 == 0,
            (at - offset) % 4 == 0,
            offset as int == data_offset(data@),
            out@.len() == (at - offset) / 4,
            forall|i: int| 0 <= i < out@.len() ==> out@[i] == pixel_at(data@, offset + 4 * i),
        decreases data@.len() - at,
    {
        assert(data@.len() - at >= 4);
        let q = read_quad(&data[at..at + 4]);
        out.push(Pixel { r: q[2], g: q[1], b: q[0], a: q[3] });
        at = at + 4;
    }
    assert(out@ =~= pixels(data@));
    Ok(Image { width, height, data: out })
}

} // verus!
