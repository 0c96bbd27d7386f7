//! Copies of frames and cursor images, pixel by pixel.

use crate::streamd_server::capture::formats::ShmPixelFormat;
use vstd::prelude::*;

verus! {

/// Internal pixel format for captured frames before conversion.
#[derive(Clone, Copy, Debug, PartialEq, Eq, Structural)]
pub enum WindowsFrameFormat {
    Bgra8,
    Bgrx8,
    /// HDR FP16, converted to BGRA8 either on the GPU or during CPU readback.
    RgbaF16,
}

impl WindowsFrameFormat {
    pub open spec fn pixel_bytes(self) -> nat {
        match self {
            WindowsFrameFormat::RgbaF16 => 8,
            _ => 4,
        }
    }

    pub fn src_bytes_per_pixel(self) -> (r: usize)
        ensures
            r == self.pixel_bytes(),
    {
        match self {
            WindowsFrameFormat::Bgra8 | WindowsFrameFormat::Bgrx8 => 4,
            WindowsFrameFormat::RgbaF16 => 8,
        }
    }

    pub fn shm_format(self) -> (r: ShmPixelFormat)
        ensures
            r == if self is Bgrx8 {
                ShmPixelFormat::Xrgb8888
            } else {
                ShmPixelFormat::Argb8888
            },
    {
        match self {
            WindowsFrameFormat::Bgra8 | WindowsFrameFormat::RgbaF16 => ShmPixelFormat::Argb8888,
            WindowsFrameFormat::Bgrx8 => ShmPixelFormat::Xrgb8888,
        }
    }
}

/// Why a mapped frame cannot be copied.
#[derive(Clone, Copy, Debug, PartialEq, Eq, Structural)]
pub enum FrameCopyError {
    /// A row is longer than the distance from one row to the next.
    RowPitch,
    StrideOverflow,
    BufferOverflow,
}

/// A half-precision number, by its bits: two bytes at `at`, the low one first.
pub open spec fn half_bits(src: Seq<u8>, at: int) -> int {
    src[at] + 256 * src[at + 1]
}

/// The `i`th byte of the copy of a row that starts at `start`. Half-precision
/// pixels are looked up channel by channel, turned from RGBA to BGRA, and made
/// opaque.
pub open spec fn copied_byte(
    src: Seq<u8>,
    start: int,
    format: WindowsFrameFormat,
    table: Seq<u8>,
    i: int,
) -> u8 {
    match format {
        WindowsFrameFormat::RgbaF16 => {
            let pixel = start + 8 * (i / 4);
            if i % 4 == 0 {
                table[half_bits(src, pixel + 4)]
            } else if i % 4 == 1 {
                table[half_bits(src, pixel + 2)]
            } else if i % 4 == 2 {
                table[half_bits(src, pixel)]
            } else {
                255
            }
        },
        _ => src[start + i],
    }
}

/// The copy of a row.
pub open spec fn copied_row(
    src: Seq<u8>,
    start: int,
    width: nat,
    format: WindowsFrameFormat,
    table: Seq<u8>,
) -> Seq<u8> {
    Seq::new(4 * width, |i: int| copied_byte(src, start, format, table, i))
}

/// The copy of the first `rows` rows, without the gaps between them.
pub open spec fn copied_rows(
    src: Seq<u8>,
    pitch: nat,
    width: nat,
    rows: nat,
    format: WindowsFrameFormat,
    table: Seq<u8>,
) -> Seq<u8>
    decreases rows,
{
    if rows == 0 {
        Seq::empty()
    } else {
        copied_rows(src, pitch, width, (rows - 1) as nat, format, table) + copied_row(
            src,
            (rows - 1) * pitch,
            width,
            format,
            table,
        )
    }
}

/// What is wrong with a frame, if anything is.
pub open spec fn copy_error(pitch: u32, width: u32, height: u32, format: WindowsFrameFormat) -> Option<
    FrameCopyError,
> {
    if pitch < width * format.pixel_bytes() {
        Some(FrameCopyError::RowPitch)
    } else if 4 * width > u32::MAX {
        Some(FrameCopyError::StrideOverflow)
    } else if 4 * width * height > usize::MAX {
        Some(FrameCopyError::BufferOverflow)
    } else {
        None
    }
}

fn copy_row(
    data: &mut Vec<u8>,
    src: &[u8],
    start: usize,
    width: usize,
    format: WindowsFrameFormat,
    table: &Vec<u8>,
)
    requires
        start + width * format.pixel_bytes() <= src@.len(),
        table@.len() == 0x1_0000,
    ensures
        final(data)@ == old(data)@ + copied_row(src@, start as int, width as nat, format, table@),
{
    let total: usize = src.len();
    let ghost before = data@;
    let ghost row = copied_row(src@, start as int, width as nat, format, table@);
    let mut col: usize = 0;
    assert(row.take(0) =~= Seq::empty());
    while col < width
        invariant
            col <= width,
            total == src@.len(),
            start + width * format.pixel_bytes() <= total,
            table@.len() == 0x1_0000,
            row == copied_row(src@, start as int, width as nat, format, table@),
            data@ == before + row.take(4 * col),
        decreases width - col,
    {
        match format {
            WindowsFrameFormat::Bgra8 | WindowsFrameFormat::Bgrx8 => {
                let at: usize = start + 4 * col;
                data.push(src[at]);
                data.push(src[at + 1]);
                data.push(src[at + 2]);
                data.push(src[at + 3]);
            },
            WindowsFrameFormat::RgbaF16 => {
                let at: usize = start + 8 * col;
                data.push(table[src[at + 4] as usize + 256 * src[at + 5] as usize]);
                data.push(table[src[at + 2] as usize + 256 * src[at + 3] as usize]);
                data.push(table[src[at] as usize + 256 * src[at + 1] as usize]);
                data.push(255);
            },
        }
        proof {
            let at = 4 * col as int;
            assert(at / 4 == col && (at + 1) / 4 == col && (at + 2) / 4 == col && (at + 3) / 4
                == col);
            assert(row.take(at + 4) =~= row.take(at).push(row[at]).push(row[at + 1]).push(
                row[at + 2],
            ).push(row[at + 3]));
            assert(data@ =~= before + row.take(at + 4));
        }
        col = col + 1;
    }
    assert(row.take(4 * width) =~= row);
}

/// Copies a mapped frame, in which rows start `row_pitch` bytes apart, into one
/// without gaps, four bytes a pixel. `table` gives the 8-bit value of each of the
/// 65536 half-precision numbers.
pub fn copy_mapped_frame(
    src: &[u8],
    row_pitch: u32,
    width: u32,
    height: u32,
    format: WindowsFrameFormat,
    table: &Vec<u8>,
) -> (r: Result<(Vec<u8>, u32), FrameCopyError>)
    requires
        table@.len() == 0x1_0000,
        height > 0 && copy_error(row_pitch, width, height, format) is None ==> (height - 1)
            * row_pitch + width * format.pixel_bytes() <= src@.len(),
    ensures
        match copy_error(row_pitch, width, height, format) {
            Some(error) => r == Err::<(Vec<u8>, u32), FrameCopyError>(error),
            None => r matches Ok((data, stride)) && stride == 4 * width && data@ == copied_rows(
                src@,
                row_pitch as nat,
                width as nat,
                height as nat,
                format,
                table@,
            ),
        },
{
    let total: usize = src.len();
    let row_bytes: u64 = width as u64 * format.src_bytes_per_pixel() as u64;
    if (row_pitch as u64) < row_bytes {
        return Err(FrameCopyError::RowPitch);
    }
    let stride: u64 = width as u64 * 4;
    if stride > u32::MAX as u64 {
        return Err(FrameCopyError::StrideOverflow);
    }
    proof {
        assert(stride * height <= u32::MAX * u32::MAX) by (nonlinear_arith)
            requires
                stride <= u32::MAX,
                height <= u32::MAX,
        ;
    }
    if stride * height as u64 > usize::MAX as u64 {
        return Err(FrameCopyError::BufferOverflow);
    }
    let mut data: Vec<u8> = Vec::new();
    let mut row: u32 = 0;
    while row < height
        invariant
            row <= height,
            total == src@.len(),
            height > 0 ==> (height - 1) * row_pitch + width * format.pixel_bytes() <= total,
            table@.len() == 0x1_0000,
            data@ == copied_rows(
                src@,
                row_pitch as nat,
                width as nat,
                row as nat,
                format,
                table@,
            ),
        decreases height - row,
    {
        assert(row * row_pitch <= (height - 1) * row_pitch) by (nonlinear_arith)
            requires
                row + 1 <= height,
        ;
        let start: usize = row as usize * row_pitch as usize;
        copy_row(&mut data, src, start, width as usize, format, table);
        row = row + 1;
    }
    Ok((data, stride as u32))
}

/// The copy of a frame has a row of four bytes a pixel for each row of the frame.
pub proof fn copies_have_no_gaps(
    src: Seq<u8>,
    pitch: nat,
    width: nat,
    rows: nat,
    format: WindowsFrameFormat,
    table: Seq<u8>,
)
    ensures
        copied_rows(src, pitch, width, rows, format, table).len() == 4 * width * rows,
    decreases rows,
{
    if rows > 0 {
        copies_have_no_gaps(src, pitch, width, (rows - 1) as nat, format, table);
        assert(4 * width * (rows - 1) + 4 * width == 4 * width * rows) by (nonlinear_arith)
            requires
                rows > 0,
        ;
    } else {
        assert(4 * width * 0 == 0) by (nonlinear_arith);
    }
}

/// The byte at row `y` and place `i` of the copy is that of row `y` of the frame.
pub proof fn copies_keep_every_row(
    src: Seq<u8>,
    pitch: nat,
    width: nat,
    rows: nat,
    format: WindowsFrameFormat,
    table: Seq<u8>,
    y: nat,
    i: nat,
)
    requires
        y < rows,
        i < 4 * width,
    ensures
        copied_rows(src, pitch, width, rows, format, table)[(4 * width * y + i) as int] == copied_byte(
            src,
            (y * pitch) as int,
            format,
            table,
            i as int,
        ),
    decreases rows,
{
    let before = copied_rows(src, pitch, width, (rows - 1) as nat, format, table);
    copies_have_no_gaps(src, pitch, width, (rows - 1) as nat, format, table);
    if y + 1 < rows {
        copies_keep_every_row(src, pitch, width, (rows - 1) as nat, format, table, y, i);
        assert(4 * width * y + i < 4 * width * (rows - 1)) by (nonlinear_arith)
            requires
                i < 4 * width,
                y + 1 <= rows - 1,
        ;
    } else {
        assert(y == rows - 1);
    }
}

/// A pixel of the copy is the pixel of the frame in the same row and column. A pixel of
/// eight bits a channel is copied as it is. Of a half-precision pixel, which holds red,
/// green, blue and alpha in two bytes each, the copy holds the values of blue, green and
/// red, and is opaque.
pub proof fn copied_pixels_are_the_frames(
    src: Seq<u8>,
    pitch: nat,
    width: nat,
    rows: nat,
    format: WindowsFrameFormat,
    table: Seq<u8>,
    x: nat,
    y: nat,
)
    requires
        x < width,
        y < rows,
    ensures
        ({
            let copy = copied_rows(src, pitch, width, rows, format, table);
            let q = (4 * width * y + 4 * x) as int;
            if format is RgbaF16 {
                let p = (y * pitch + 8 * x) as int;
                &&& copy[q] == table[src[p + 4] + 256 * src[p + 5]]
                &&& copy[q + 1] == table[src[p + 2] + 256 * src[p + 3]]
                &&& copy[q + 2] == table[src[p] + 256 * src[p + 1]]
                &&& copy[q + 3] == 255
            } else {
                let p = (y * pitch + 4 * x) as int;
                &&& copy[q] == src[p]
                &&& copy[q + 1] == src[p + 1]
                &&& copy[q + 2] == src[p + 2]
                &&& copy[q + 3] == src[p + 3]
            }
        }),
{
    let at = 4 * x as int;
    copies_keep_every_row(src, pitch, width, rows, format, table, y, 4 * x);
    copies_keep_every_row(src, pitch, width, rows, format, table, y, 4 * x + 1);
    copies_keep_every_row(src, pitch, width, rows, format, table, y, 4 * x + 2);
    copies_keep_every_row(src, pitch, width, rows, format, table, y, 4 * x + 3);
    assert(at / 4 == x && (at + 1) / 4 == x && (at + 2) / 4 == x && (at + 3) / 4 == x);
    assert(at % 4 == 0 && (at + 1) % 4 == 1 && (at + 2) % 4 == 2 && (at + 3) % 4 == 3);
}

/// When a frame cannot be copied: its rows do not hold its pixels, of eight bytes in half
/// precision and of four else; or the copy's rows or its whole cannot be counted.
pub proof fn frames_are_copied_where_they_fit(
    pitch: u32,
    width: u32,
    height: u32,
    format: WindowsFrameFormat,
)
    ensures
        ({
            let row = if format is RgbaF16 {
                8 * width
            } else {
                4 * width
            };
            match copy_error(pitch, width, height, format) {
                Some(FrameCopyError::RowPitch) => pitch < row,
                Some(FrameCopyError::StrideOverflow) => pitch >= row && width >= 0x4000_0000,
                Some(FrameCopyError::BufferOverflow) => pitch >= row && width < 0x4000_0000 && 4
                    * width * height > usize::MAX,
                None => pitch >= row && width < 0x4000_0000 && 4 * width * height <= usize::MAX,
            }
        }),
{
}

} // verus!
