//! Reading the header of a 24-bit BMP image.
use vstd::prelude::*;

verus! {

/// The length of the BMP file header together with the bitmap info header.
pub const BMP_HEADER_SIZE: usize = 54;

/// Why a BMP image was refused.
#[derive(Clone, Copy, Debug, PartialEq, Eq)]
pub enum BmpError {
    /// Fewer bytes than a header.
    Truncated,
    /// The magic bytes are not `BM`.
    NotBitmap,
    /// Not an uncompressed 24 bits per pixel image, or a negative size.
    Unsupported,
    /// The pixel data is not as long as the header says.
    SizeMismatch,
}

/// What the header says of the image.
#[derive(Clone, Copy, Debug, PartialEq, Eq)]
pub struct BmpInfo {
    pub width: i32,
    pub height: i32,
    /// The length of the pixel data in bytes.
    pub image_size: u64,
}

/// The little-endian two's complement integer in the four bytes at `at`.
pub open spec fn le_i32(b: Seq<u8>, at: int) -> int {
    let v = b[at] as int + 256 * b[at + 1] as int + 65536 * b[at + 2] as int + 16777216 * b[at + 3] as int;
    if v >= 0x8000_0000 {
        v - 0x1_0000_0000
    } else {
        v
    }
}

/// Reads the little-endian `i32` at `at`.
pub fn read_i32_le(b: &[u8], at: usize) -> (r: i32)
    requires
        at + 4 <= b@.len(),
    ensures
        r == le_i32(b@, at as int),
{
    let v: i64 = b[at] as i64 + 256 * (b[at + 1] as i64) + 65536 * (b[at + 2] as i64) + 16777216 * (b[at + 3] as i64);
    if v >= 0x8000_0000 {
        (v - 0x1_0000_0000) as i32
    } else {
        v as i32
    }
}

/// What a header of at least `BMP_HEADER_SIZE` bytes says, or why it is refused.
pub open spec fn header_result(b: Seq<u8>) -> Result<BmpInfo, BmpError> {
    if b.len() < BMP_HEADER_SIZE {
        Err(BmpError::Truncated)
    } else if b[0] != 0x42u8 || b[1] != 0x4du8 {
        Err(BmpError::NotBitmap)
    } else if le_i32(b, 0x1E) != 0 || le_i32(b, 0x1C) != 24 {
        Err(BmpError::Unsupported)
    } else {
        let width = le_i32(b, 0x12);
        let height = le_i32(b, 0x16);
        let stated = le_i32(b, 0x22);
        if stated < 0 || (stated == 0 && (width < 0 || height < 0)) {
            Err(BmpError::Unsupported)
        } else {
            Ok(
                BmpInfo {
                    width: width as i32,
                    height: height as i32,
                    image_size: if stated == 0 {
                        (width * height * 3) as u64
                    } else {
                        stated as u64
                    },
                },
            )
        }
    }
}

/// Reads a BMP header: the magic bytes, the bit depth, the extent and the
/// length of the pixel data, which is `width * height * 3` when the header
/// leaves it zero.
pub fn parse_bmp_header(b: &[u8]) -> (r: Result<BmpInfo, BmpError>)
    ensures
        r == header_result(b@),
{
    if b.len() < BMP_HEADER_SIZE {
        return Err(BmpError::Truncated);
    }
    if b[0] != 0x42u8 || b[1] != 0x4du8 {
        return Err(BmpError::NotBitmap);
    }
    if read_i32_le(b, 0x1E) != 0 || read_i32_le(b, 0x1C) != 24 {
        return Err(BmpError::Unsupported);
    }
    let width = read_i32_le(b, 0x12);
    let height = read_i32_le(b, 0x16);
    let stated = read_i32_le(b, 0x22);
    if stated < 0 || (stated == 0 && (width < 0 || height < 0)) {
        return Err(BmpError::Unsupported);
    }
    let image_size: u64 = if stated == 0 {
        assert(0 <= (width as int) * (height as int) <= 0x4000_0000_0000_0000) by (nonlinear_arith)
            requires
                0 <= width <= i32::MAX,
                0 <= height <= i32::MAX,
        ;
        (width as u64) * (height as u64) * 3
    } else {
        stated as u64
    };
    Ok(BmpInfo { width, height, image_size })
}

/// Checks the length of the pixel data read after the header.
pub fn check_bmp_data(info: &BmpInfo, data_len: usize) -> (r: Result<(), BmpError>)
    ensures
        r is Ok <==> data_len == info.image_size,
        r is Err ==> r == Err::<(), BmpError>(BmpError::SizeMismatch),
{
    if data_len as u64 == info.image_size {
        Ok(())
    } else {
        Err(BmpError::SizeMismatch)
    }
}

} // verus!
