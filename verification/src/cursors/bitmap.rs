//! The pixel values of an indexed bitmap, as they stand in the image data of
//! an `ICO` or `CUR` entry, held against the number of colours in the
//! bitmap's colour table.
//!
//! Such image data is a header of 40 bytes, the colour table with four bytes
//! for each colour, and the rows of pixel values, each row padded to a
//! multiple of four bytes. A bitmap of the depth 1, 4 or 8 holds 8, 2 or 1
//! pixel values in a byte, the first in the highest bits.

use crate::bytes::{is_tag, le_u32, read_le_u32};
use vstd::prelude::*;

verus! {

/// No bitmap with more pixels than this is decoded.
pub const MAX_BITMAP_PIXELS: u64 = 67_108_864;

/// The four bytes that image data in the PNG format starts with.
pub open spec fn png_signature() -> Seq<u8> {
    seq![0x89u8, 0x50u8, 0x4eu8, 0x47u8]
}

/// How many colours the table of a bitmap of the depth `depth` has at most,
/// which is also how many values a pixel can have; zero for a depth without
/// a table.
pub open spec fn table_size(depth: int) -> int {
    if depth == 1 {
        2
    } else if depth == 4 {
        16
    } else if depth == 8 {
        256
    } else {
        0
    }
}

/// How many pixel values a byte holds.
pub open spec fn slots(depth: int) -> int {
    if depth == 1 {
        8
    } else if depth == 4 {
        2
    } else {
        1
    }
}

/// By what a byte is divided to bring the pixel value in its slot `j` to
/// the lowest bits.
pub open spec fn slot_divisor(depth: int, j: int) -> int {
    if depth == 1 {
        if j == 0 {
            128
        } else if j == 1 {
            64
        } else if j == 2 {
            32
        } else if j == 3 {
            16
        } else if j == 4 {
            8
        } else if j == 5 {
            4
        } else if j == 6 {
            2
        } else {
            1
        }
    } else if depth == 4 && j == 0 {
        16
    } else {
        1
    }
}

/// The pixel value in the slot `j` of a byte.
pub open spec fn slot_value(byte: u8, depth: int, j: int) -> int {
    (byte as int / slot_divisor(depth, j)) % table_size(depth)
}

/// The depth that the header states.
pub open spec fn bitmap_depth(data: Seq<u8>) -> int {
    data[14] as int + 256 * (data[15] as int)
}

/// The width that the header states.
pub open spec fn bitmap_width(data: Seq<u8>) -> int {
    le_u32(data, 4) as int
}

/// The height of the image: half of what the header states, which counts
/// the rows of the mask too.
pub open spec fn bitmap_height(data: Seq<u8>) -> int {
    le_u32(data, 8) as int / 2
}

/// How many colours the table holds: as many as the header states, and the
/// whole table where it states none or too many.
pub open spec fn bitmap_colours(data: Seq<u8>) -> int {
    if le_u32(data, 32) == 0 || le_u32(data, 32) > table_size(bitmap_depth(data)) {
        table_size(bitmap_depth(data))
    } else {
        le_u32(data, 32) as int
    }
}

/// How many bytes the pixel values of a row take.
pub open spec fn bitmap_row_bytes(data: Seq<u8>) -> int {
    (bitmap_width(data) * bitmap_depth(data) + 7) / 8
}

/// How many bytes a row takes with its padding.
pub open spec fn bitmap_stride(data: Seq<u8>) -> int {
    ((bitmap_row_bytes(data) + 3) / 4) * 4
}

/// Where the byte `q` of the row `row` stands, the rows counted as they
/// stand in the data.
pub open spec fn bitmap_position(data: Seq<u8>, row: int, q: int) -> int {
    40 + 4 * bitmap_colours(data) + row * bitmap_stride(data) + q
}

/// Whether the data is an indexed bitmap whose pixel values a decoder looks
/// up: it is not in the PNG format, it holds a header that states its own
/// size, a positive width and an even height of two at least (both as
/// signed numbers), a depth of 1, 4 or 8, and no more pixels than are
/// decoded.
pub open spec fn indexed_bitmap(data: Seq<u8>) -> bool {
    &&& !(data.len() >= 4 && data.subrange(0, 4) == png_signature())
    &&& data.len() >= 40
    &&& le_u32(data, 0) == 40
    &&& 1 <= le_u32(data, 4) < 0x8000_0000
    &&& 2 <= le_u32(data, 8) < 0x8000_0000
    &&& le_u32(data, 8) % 2 == 0
    &&& table_size(bitmap_depth(data)) > 0
    &&& bitmap_width(data) * bitmap_height(data) <= MAX_BITMAP_PIXELS
}

/// Whether the pixel value in the slot `j` of the byte `q` of the row `row`
/// has a colour in the table, if the row has a pixel there and the data
/// holds the byte.
pub open spec fn slot_fits(data: Seq<u8>, row: int, q: int, j: int) -> bool {
    q * slots(bitmap_depth(data)) + j < bitmap_width(data) && bitmap_position(data, row, q)
        < data.len() ==> slot_value(
        data[bitmap_position(data, row, q)],
        bitmap_depth(data),
        j,
    ) < bitmap_colours(data)
}

/// Whether every pixel value that the data holds has a colour in the colour
/// table. This holds of all data that is no indexed bitmap.
pub open spec fn spec_pixels_fit(data: Seq<u8>) -> bool {
    indexed_bitmap(data) ==> forall|row: int, q: int, j: int|
        0 <= row < bitmap_height(data) && 0 <= q < bitmap_row_bytes(data) && 0 <= j < slots(
            bitmap_depth(data),
        ) ==> #[trigger] slot_fits(data, row, q, j)
}

/// The divisor of a slot.
fn divisor(depth: u64, j: u64) -> (r: u64)
    ensures
        r == slot_divisor(depth as int, j as int),
        1 <= r <= 128,
{
    if depth == 1 {
        if j == 0 {
            128
        } else if j == 1 {
            64
        } else if j == 2 {
            32
        } else if j == 3 {
            16
        } else if j == 4 {
            8
        } else if j == 5 {
            4
        } else if j == 6 {
            2
        } else {
            1
        }
    } else if depth == 4 && j == 0 {
        16
    } else {
        1
    }
}

/// Tells whether every pixel value that the data holds has a colour in the
/// colour table; see [`spec_pixels_fit`].
#[verifier::loop_isolation(false)]
#[verifier::rlimit(60)]
pub fn pixels_fit(data: &[u8]) -> (r: bool)
    ensures
        r == spec_pixels_fit(data@),
{
    if data.len() >= 4 && is_tag(data, 0, 0x89, 0x50, 0x4e, 0x47) {
        return true;
    }
    if data.len() < 40 {
        return true;
    }
    let stated_width = read_le_u32(data, 4);
    let stated_height = read_le_u32(data, 8);
    if read_le_u32(data, 0) != 40 || stated_width < 1 || stated_width >= 0x8000_0000
        || stated_height < 2 || stated_height >= 0x8000_0000 || stated_height % 2 != 0 {
        return true;
    }
    let depth: u64 = data[14] as u64 + 256 * (data[15] as u64);
    let values: u64 = if depth == 1 {
        2
    } else if depth == 4 {
        16
    } else if depth == 8 {
        256
    } else {
        return true;
    };
    let per_byte: u64 = if depth == 1 {
        8
    } else if depth == 4 {
        2
    } else {
        1
    };
    let width: u64 = stated_width as u64;
    let height: u64 = (stated_height / 2) as u64;
    assert(width * height <= 0x8000_0000 * 0x8000_0000) by (nonlinear_arith)
        requires
            width <= 0x8000_0000,
            height <= 0x8000_0000,
    ;
    if width * height > MAX_BITMAP_PIXELS {
        return true;
    }
    assert(width <= MAX_BITMAP_PIXELS && height <= MAX_BITMAP_PIXELS) by (nonlinear_arith)
        requires
            width * height <= MAX_BITMAP_PIXELS,
            width >= 1,
            height >= 1,
    ;
    let used = read_le_u32(data, 32) as u64;
    let colours: u64 = if used == 0 || used > values {
        values
    } else {
        used
    };
    assert(width * depth <= MAX_BITMAP_PIXELS * 8) by (nonlinear_arith)
        requires
            width <= MAX_BITMAP_PIXELS,
            depth <= 8,
    ;
    let row_bytes: u64 = (width * depth + 7) / 8;
    let stride: u64 = ((row_bytes + 3) / 4) * 4;
    let start: u64 = 40 + 4 * colours;
    let len: u64 = data.len() as u64;
    assert(indexed_bitmap(data@));
    assert(row_bytes == bitmap_row_bytes(data@));
    assert(stride == bitmap_stride(data@));
    assert(colours == bitmap_colours(data@));
    let mut row: u64 = 0;
    while row < height
        invariant
            row <= height,
            forall|r: int, q: int, j: int|
                0 <= r < row && 0 <= q < row_bytes && 0 <= j < per_byte ==> #[trigger] slot_fits(
                    data@,
                    r,
                    q,
                    j,
                ),
        decreases height - row,
    {
        assert(row * stride <= MAX_BITMAP_PIXELS * (MAX_BITMAP_PIXELS + 8)) by (nonlinear_arith)
            requires
                row <= MAX_BITMAP_PIXELS,
                stride <= MAX_BITMAP_PIXELS + 8,
        ;
        let row_start: u64 = start + row * stride;
        if row_start >= len {
            proof {
                assert forall|r: int, q: int, j: int|
                    0 <= r < height && 0 <= q < row_bytes && 0 <= j < per_byte implies #[trigger] slot_fits(
                        data@,
                        r,
                        q,
                        j,
                    ) by {
                    if r >= row {
                        assert(r * stride >= row * stride) by (nonlinear_arith)
                            requires
                                r >= row,
                                stride >= 0,
                        ;
                    }
                }
            }
            return true;
        }
        let mut q: u64 = 0;
        while q < row_bytes && row_start + q < len
            invariant
                q <= row_bytes,
                row < height,
                row_start == start + row * stride,
                forall|k: int, j: int|
                    0 <= k < q && 0 <= j < per_byte ==> #[trigger] slot_fits(data@, row as int, k, j),
            decreases row_bytes - q,
        {
            let byte = data[(row_start + q) as usize];
            assert(bitmap_position(data@, row as int, q as int) == row_start + q);
            assert(q * per_byte <= (MAX_BITMAP_PIXELS + 8) * 8) by (nonlinear_arith)
                requires
                    q <= MAX_BITMAP_PIXELS + 8,
                    per_byte <= 8,
            ;
            let mut j: u64 = 0;
            while j < per_byte
                invariant
                    j <= per_byte,
                    q < row_bytes,
                    forall|i: int| 0 <= i < j ==> #[trigger] slot_fits(data@, row as int, q as int, i),
                decreases per_byte - j,
            {
                if q * per_byte + j < width {
                    let value = (byte as u64 / divisor(depth, j)) % values;
                    if value >= colours {
                        assert(!slot_fits(data@, row as int, q as int, j as int));
                        return false;
                    }
                }
                j += 1;
            }
            q += 1;
        }
        assert forall|k: int, j: int| 0 <= k < row_bytes && 0 <= j < per_byte implies #[trigger] slot_fits(
            data@,
            row as int,
            k,
            j,
        ) by {
            if k >= q {
                assert(bitmap_position(data@, row as int, k) >= len);
            }
        }
        row += 1;
    }
    true
}

} // verus!
