//! The pointer of the captured desktop: its position and its image.

use crate::yin_yang_proto::packets::{
    RemoteCursorShape, RemoteCursorShapeKind, RemoteCursorShapeView, RemoteCursorState,
};
use vstd::prelude::*;

verus! {

/// The kinds of pointer images that the desktop reports.
pub const CURSOR_TYPE_MONOCHROME: u32 = 1;

pub const CURSOR_TYPE_COLOR: u32 = 2;

pub const CURSOR_TYPE_MASKED_COLOR: u32 = 4;

/// Cursor state tracked across frames.
#[derive(Debug)]
pub struct CursorState {
    pub visible: bool,
    /// Cursor position in virtual screen coordinates.
    pub x: i32,
    pub y: i32,
    pub hot_x: i32,
    pub hot_y: i32,
    pub width: u32,
    pub height: u32,
    pub pitch: u32,
    pub shape_type: u32,
    pub shape_generation: u64,
    pub shape_data: Vec<u8>,
}

#[verifier::ext_equal]
pub struct CursorStateView {
    pub visible: bool,
    pub x: i32,
    pub y: i32,
    pub hot_x: i32,
    pub hot_y: i32,
    pub width: u32,
    pub height: u32,
    pub pitch: u32,
    pub shape_type: u32,
    pub shape_generation: u64,
    pub shape_data: Seq<u8>,
}

impl View for CursorState {
    type V = CursorStateView;

    open spec fn view(&self) -> CursorStateView {
        CursorStateView {
            visible: self.visible,
            x: self.x,
            y: self.y,
            hot_x: self.hot_x,
            hot_y: self.hot_y,
            width: self.width,
            height: self.height,
            pitch: self.pitch,
            shape_type: self.shape_type,
            shape_generation: self.shape_generation,
            shape_data: self.shape_data@,
        }
    }
}

/// Where the pointer is.
#[derive(Clone, Copy, Debug, PartialEq, Eq, Structural)]
pub struct PointerPosition {
    pub visible: bool,
    pub x: i32,
    pub y: i32,
}

/// An image of the pointer.
#[derive(Debug)]
pub struct PointerShape {
    pub width: u32,
    pub height: u32,
    pub pitch: u32,
    pub hot_x: i32,
    pub hot_y: i32,
    pub shape_type: u32,
    pub data: Vec<u8>,
}

/// A pointer image cannot be sent.
#[derive(Clone, Copy, Debug, PartialEq, Eq, Structural)]
pub enum CursorShapeError {
    BufferOverflow,
    RowPitchOverflow,
}

// ---------------------------------------------------------------------------
// Images
// ---------------------------------------------------------------------------

/// The place in a pixel of four bytes that is read for place `k`: red and blue
/// change places.
pub open spec fn swapped(k: int) -> int {
    if k == 0 {
        2
    } else if k == 2 {
        0
    } else {
        k
    }
}

/// The `i`th byte of an image row that starts at `start`. Pixels that are not
/// whole in the data are transparent black.
pub open spec fn repacked_byte(data: Seq<u8>, start: int, i: int) -> u8 {
    let pixel = start + 4 * (i / 4);
    if pixel + 3 < data.len() {
        data[pixel + swapped(i % 4)]
    } else {
        0
    }
}

/// An image row of `width` pixels that starts at `start`.
pub open spec fn repacked_row(data: Seq<u8>, start: int, width: nat) -> Seq<u8> {
    Seq::new(4 * width, |i: int| repacked_byte(data, start, i))
}

/// The first `rows` rows of an image, without the gaps between them.
pub open spec fn repacked(data: Seq<u8>, pitch: nat, width: nat, rows: nat) -> Seq<u8>
    decreases rows,
{
    if rows == 0 {
        Seq::empty()
    } else {
        repacked(data, pitch, width, (rows - 1) as nat) + repacked_row(
            data,
            (rows - 1) * pitch,
            width,
        )
    }
}

fn repack_row(out: &mut Vec<u8>, data: &Vec<u8>, start: u64, width: u32)
    requires
        start <= u32::MAX * u32::MAX,
    ensures
        final(out)@ == old(out)@ + repacked_row(data@, start as int, width as nat),
{
    let ghost before = out@;
    let ghost row = repacked_row(data@, start as int, width as nat);
    let len: u128 = data.len() as u128;
    let mut col: u32 = 0;
    assert(row.take(0) =~= Seq::empty());
    while col < width
        invariant
            col <= width,
            len == data@.len(),
            len <= usize::MAX,
            start <= u32::MAX * u32::MAX,
            row == repacked_row(data@, start as int, width as nat),
            out@ == before + row.take(4 * col),
        decreases width - col,
    {
        let src: u128 = start as u128 + 4 * col as u128;
        if src + 3 < len {
            let at: usize = src as usize;
            out.push(data[at + 2]);
            out.push(data[at + 1]);
            out.push(data[at]);
            out.push(data[at + 3]);
        } else {
            out.push(0);
            out.push(0);
            out.push(0);
            out.push(0);
        }
        proof {
            let at = 4 * col as int;
            assert(at / 4 == col && (at + 1) / 4 == col && (at + 2) / 4 == col && (at + 3) / 4
                == col);
            assert(row.take(at + 4) =~= row.take(at).push(row[at]).push(row[at + 1]).push(
                row[at + 2],
            ).push(row[at + 3]));
            assert(out@ =~= before + row.take(at + 4));
        }
        col = col + 1;
    }
    assert(row.take(4 * width) =~= row);
}

/// The image of a colour pointer as RGBA, without gaps between its rows.
pub fn repack_color_cursor_rgba(cursor: &CursorState) -> (r: Result<Vec<u8>, CursorShapeError>)
    ensures
        if 4 * cursor.width * cursor.height > usize::MAX {
            r == Err::<Vec<u8>, CursorShapeError>(CursorShapeError::BufferOverflow)
        } else {
            r matches Ok(data) && data@ == repacked(
                cursor.shape_data@,
                cursor.pitch as nat,
                cursor.width as nat,
                cursor.height as nat,
            )
        },
{
    let (width, height, pitch) = (cursor.width, cursor.height, cursor.pitch);
    assert(4 * width * height <= 4 * u32::MAX * u32::MAX) by (nonlinear_arith)
        requires
            width <= u32::MAX,
            height <= u32::MAX,
    ;
    assert(4 * width * height == (4 * width) * height) by (nonlinear_arith);
    if 4 * width as u128 * height as u128 > usize::MAX as u128 {
        return Err(CursorShapeError::BufferOverflow);
    }
    let mut out: Vec<u8> = Vec::new();
    let mut row: u32 = 0;
    while row < height
        invariant
            row <= height,
            width == cursor.width,
            pitch == cursor.pitch,
            out@ == repacked(cursor.shape_data@, pitch as nat, width as nat, row as nat),
        decreases height - row,
    {
        assert(row * pitch <= u32::MAX * u32::MAX) by (nonlinear_arith)
            requires
                row <= u32::MAX,
                pitch <= u32::MAX,
        ;
        repack_row(&mut out, &cursor.shape_data, row as u64 * pitch as u64, width);
        row = row + 1;
    }
    Ok(out)
}

/// A repacked image has four bytes for each of its pixels.
pub proof fn repacked_images_are_whole(data: Seq<u8>, pitch: nat, width: nat, rows: nat)
    ensures
        repacked(data, pitch, width, rows).len() == 4 * width * rows,
    decreases rows,
{
    if rows > 0 {
        repacked_images_are_whole(data, pitch, width, (rows - 1) as nat);
        assert(4 * width * (rows - 1) + 4 * width == 4 * width * rows) by (nonlinear_arith)
            requires
                rows > 0,
        ;
    } else {
        assert(4 * width * 0 == 0) by (nonlinear_arith);
    }
}

/// `data`, cut off or filled up with zeros to `len` bytes.
pub open spec fn fitted(data: Seq<u8>, len: nat) -> Seq<u8> {
    Seq::new(
        len,
        |i: int|
            if i < data.len() {
                data[i]
            } else {
                0u8
            },
    )
}

fn fit(data: &Vec<u8>, len: usize) -> (r: Vec<u8>)
    ensures
        r@ == fitted(data@, len as nat),
{
    let mut r: Vec<u8> = Vec::new();
    let mut i: usize = 0;
    while i < len
        invariant
            i <= len,
            r@ == fitted(data@, i as nat),
        decreases len - i,
    {
        if i < data.len() {
            r.push(data[i]);
        } else {
            r.push(0);
        }
        i = i + 1;
        assert(r@ =~= fitted(data@, i as nat));
    }
    r
}

/// The bytes of a row of one-bit pixels, in whole words of four bytes.
pub open spec fn mono_row(width: u32) -> nat {
    (width as nat + 31) / 32 * 4
}

impl CursorStateView {
    pub open spec fn blank(self) -> bool {
        self.width == 0 || self.height == 0 || self.shape_data.len() == 0
    }

    /// The image to send of the pointer, if there is any. A monochrome image holds
    /// two masks, one below the other.
    pub open spec fn remote_shape(self) -> Result<Option<RemoteCursorShapeView>, CursorShapeError> {
        if self.shape_type == CURSOR_TYPE_COLOR || self.shape_type == CURSOR_TYPE_MASKED_COLOR {
            if self.blank() {
                Ok(None)
            } else if 4 * self.width * self.height > usize::MAX {
                Err(CursorShapeError::BufferOverflow)
            } else if 4 * self.width > u32::MAX {
                Err(CursorShapeError::RowPitchOverflow)
            } else {
                Ok(
                    Some(
                        RemoteCursorShapeView {
                            generation: self.shape_generation,
                            kind: if self.shape_type == CURSOR_TYPE_MASKED_COLOR {
                                RemoteCursorShapeKind::MaskedColor
                            } else {
                                RemoteCursorShapeKind::Color
                            },
                            width: self.width,
                            height: self.height,
                            pitch: (4 * self.width) as u32,
                            data: repacked(
                                self.shape_data,
                                self.pitch as nat,
                                self.width as nat,
                                self.height as nat,
                            ),
                        },
                    ),
                )
            }
        } else if self.shape_type == CURSOR_TYPE_MONOCHROME {
            if self.blank() {
                Ok(None)
            } else if mono_row(self.width) * self.height as nat > usize::MAX {
                Err(CursorShapeError::BufferOverflow)
            } else {
                Ok(
                    Some(
                        RemoteCursorShapeView {
                            generation: self.shape_generation,
                            kind: RemoteCursorShapeKind::Monochrome,
                            width: self.width,
                            height: self.height / 2,
                            pitch: mono_row(self.width) as u32,
                            data: fitted(
                                self.shape_data,
                                mono_row(self.width) * self.height as nat,
                            ),
                        },
                    ),
                )
            }
        } else {
            Ok(None)
        }
    }
}

/// The image to send of the pointer, if there is any.
pub fn build_remote_cursor_shape(cursor: &CursorState) -> (r: Result<
    Option<RemoteCursorShape>,
    CursorShapeError,
>)
    ensures
        match cursor@.remote_shape() {
            Ok(Some(view)) => r matches Ok(Some(shape)) && shape@ == view,
            Ok(None) => r matches Ok(None),
            Err(error) => r == Err::<Option<RemoteCursorShape>, CursorShapeError>(error),
        },
{
    if cursor.shape_type == CURSOR_TYPE_COLOR || cursor.shape_type == CURSOR_TYPE_MASKED_COLOR {
        if cursor.width == 0 || cursor.height == 0 || cursor.shape_data.len() == 0 {
            return Ok(None);
        }
        let data = match repack_color_cursor_rgba(cursor) {
            Ok(data) => data,
            Err(error) => {
                return Err(error);
            },
        };
        if cursor.width > u32::MAX / 4 {
            return Err(CursorShapeError::RowPitchOverflow);
        }
        Ok(
            Some(
                RemoteCursorShape {
                    generation: cursor.shape_generation,
                    kind: if cursor.shape_type == CURSOR_TYPE_MASKED_COLOR {
                        RemoteCursorShapeKind::MaskedColor
                    } else {
                        RemoteCursorShapeKind::Color
                    },
                    width: cursor.width,
                    height: cursor.height,
                    pitch: cursor.width * 4,
                    data,
                },
            ),
        )
    } else if cursor.shape_type == CURSOR_TYPE_MONOCHROME {
        if cursor.width == 0 || cursor.height == 0 || cursor.shape_data.len() == 0 {
            return Ok(None);
        }
        let visible_height = cursor.height / 2;
        let row_bytes: u64 = (cursor.width as u64 + 31) / 32 * 4;
        let height: u64 = cursor.height as u64;
        assert(row_bytes * height <= 0x2000_0000 * u32::MAX) by (nonlinear_arith)
            requires
                row_bytes <= 0x2000_0000,
                height <= u32::MAX,
        ;
        let expected_len: u64 = row_bytes * height;
        if expected_len > usize::MAX as u64 {
            return Err(CursorShapeError::BufferOverflow);
        }
        let data = fit(&cursor.shape_data, expected_len as usize);
        Ok(
            Some(
                RemoteCursorShape {
                    generation: cursor.shape_generation,
                    kind: RemoteCursorShapeKind::Monochrome,
                    width: cursor.width,
                    height: visible_height,
                    pitch: row_bytes as u32,
                    data,
                },
            ),
        )
    } else {
        Ok(None)
    }
}

/// A sent image holds what its size says: its rows, of a colour image once and of
/// a monochrome one for each of the two masks.
pub proof fn sent_images_are_whole(cursor: CursorStateView)
    requires
        cursor.remote_shape() matches Ok(Some(_)),
    ensures
        ({
            let shape = cursor.remote_shape()->Ok_0->Some_0;
            &&& shape.generation == cursor.shape_generation
            &&& shape.kind is Monochrome ==> shape.data.len() == shape.pitch * cursor.height
            &&& shape.kind is Monochrome ==> shape.data.len() >= shape.pitch * (2 * shape.height)
            &&& !(shape.kind is Monochrome) ==> shape.data.len() == shape.pitch * shape.height
        }),
{
    let shape = cursor.remote_shape()->Ok_0->Some_0;
    if shape.kind is Monochrome {
        assert(shape.pitch * (2 * shape.height) <= shape.pitch * cursor.height)
            by (nonlinear_arith)
            requires
                2 * shape.height <= cursor.height,
                shape.pitch >= 0,
        ;
    } else {
        repacked_images_are_whole(
            cursor.shape_data,
            cursor.pitch as nat,
            cursor.width as nat,
            cursor.height as nat,
        );
    }
}

// ---------------------------------------------------------------------------
// Position
// ---------------------------------------------------------------------------

/// The corner of the pointer image on a display with this origin.
pub open spec fn on_display(cursor: CursorStateView, origin: (i32, i32)) -> (int, int) {
    (cursor.x - origin.0 - cursor.hot_x, cursor.y - origin.1 - cursor.hot_y)
}

/// The distances that lead to that corner can be written in 32 bits.
pub open spec fn can_be_placed(cursor: CursorStateView, origin: (i32, i32)) -> bool {
    &&& i32::MIN <= cursor.x - origin.0 <= i32::MAX
    &&& i32::MIN <= cursor.y - origin.1 <= i32::MAX
    &&& i32::MIN <= on_display(cursor, origin).0 <= i32::MAX
    &&& i32::MIN <= on_display(cursor, origin).1 <= i32::MAX
}

pub fn cursor_position_relative_to_display(cursor: &CursorState, display_origin: (i32, i32)) -> (r: (
    i32,
    i32,
))
    requires
        can_be_placed(cursor@, display_origin),
    ensures
        r.0 == on_display(cursor@, display_origin).0,
        r.1 == on_display(cursor@, display_origin).1,
{
    (
        cursor.x - display_origin.0 - cursor.hot_x,
        cursor.y - display_origin.1 - cursor.hot_y,
    )
}

// ---------------------------------------------------------------------------
// Publication
// ---------------------------------------------------------------------------

/// The pointer of a display, and which of its images has been sent.
#[derive(Debug)]
pub struct PointerTracker {
    cursor: CursorState,
    sent_generation: u64,
    display_origin: (i32, i32),
}

#[verifier::ext_equal]
pub struct PointerTrackerView {
    pub cursor: CursorStateView,
    pub sent_generation: u64,
    pub display_origin: (i32, i32),
}

impl View for PointerTracker {
    type V = PointerTrackerView;

    closed spec fn view(&self) -> PointerTrackerView {
        PointerTrackerView {
            cursor: self.cursor@,
            sent_generation: self.sent_generation,
            display_origin: self.display_origin,
        }
    }
}

impl PointerTrackerView {
    pub open spec fn initial(display_origin: (i32, i32)) -> PointerTrackerView {
        PointerTrackerView {
            cursor: CursorStateView {
                visible: false,
                x: 0,
                y: 0,
                hot_x: 0,
                hot_y: 0,
                width: 0,
                height: 0,
                pitch: 0,
                shape_type: 0,
                shape_generation: 0,
                shape_data: Seq::empty(),
            },
            sent_generation: 0,
            display_origin,
        }
    }

    /// The pointer moved, or was shown or hidden.
    pub open spec fn moved(self, position: PointerPosition) -> PointerTrackerView {
        PointerTrackerView {
            cursor: CursorStateView {
                visible: position.visible,
                x: position.x,
                y: position.y,
                ..self.cursor
            },
            ..self
        }
    }

    /// The pointer has another image, the next in number.
    pub open spec fn reshaped(self, shape: PointerShape) -> PointerTrackerView {
        PointerTrackerView {
            cursor: CursorStateView {
                width: shape.width,
                height: shape.height,
                pitch: shape.pitch,
                hot_x: shape.hot_x,
                hot_y: shape.hot_y,
                shape_type: shape.shape_type,
                shape_data: shape.data@,
                shape_generation: if self.cursor.shape_generation == u64::MAX {
                    0
                } else {
                    (self.cursor.shape_generation + 1) as u64
                },
                ..self.cursor
            },
            ..self
        }
    }

    /// The pointer, once it has been told where it is and what it looks like, as far
    /// as either changed.
    pub open spec fn told(
        self,
        position: Option<PointerPosition>,
        shape: Option<PointerShape>,
    ) -> PointerTrackerView {
        let moved = match position {
            Some(position) => self.moved(position),
            None => self,
        };
        match shape {
            Some(shape) => moved.reshaped(shape),
            None => moved,
        }
    }

    /// The pointer has an image that has not been sent.
    pub open spec fn has_news(self) -> bool {
        self.cursor.shape_generation != 0 && self.cursor.shape_generation != self.sent_generation
    }

    /// The image to send now, if any.
    pub open spec fn unsent_shape(self) -> Result<Option<RemoteCursorShapeView>, CursorShapeError> {
        if self.has_news() {
            self.cursor.remote_shape()
        } else {
            Ok(None)
        }
    }
}

impl PointerTracker {
    pub fn new(display_origin: (i32, i32)) -> (r: PointerTracker)
        ensures
            r@ == PointerTrackerView::initial(display_origin),
    {
        let r = PointerTracker {
            cursor: CursorState {
                visible: false,
                x: 0,
                y: 0,
                hot_x: 0,
                hot_y: 0,
                width: 0,
                height: 0,
                pitch: 0,
                shape_type: 0,
                shape_generation: 0,
                shape_data: Vec::new(),
            },
            sent_generation: 0,
            display_origin,
        };
        assert(r@ =~= PointerTrackerView::initial(display_origin));
        r
    }

    pub fn move_to(&mut self, position: PointerPosition)
        ensures
            final(self)@ == old(self)@.moved(position),
    {
        self.cursor.visible = position.visible;
        self.cursor.x = position.x;
        self.cursor.y = position.y;
    }

    pub fn reshape(&mut self, shape: PointerShape)
        ensures
            final(self)@ == old(self)@.reshaped(shape),
    {
        self.cursor.shape_data = shape.data;
        self.cursor.width = shape.width;
        self.cursor.height = shape.height;
        self.cursor.pitch = shape.pitch;
        self.cursor.hot_x = shape.hot_x;
        self.cursor.hot_y = shape.hot_y;
        self.cursor.shape_type = shape.shape_type;
        self.cursor.shape_generation = if self.cursor.shape_generation == u64::MAX {
            0
        } else {
            self.cursor.shape_generation + 1
        };
    }

    /// Whether the pointer has an image that has not been sent.
    pub fn has_news(&self) -> (r: bool)
        ensures
            r == self@.has_news(),
    {
        self.cursor.shape_generation != 0 && self.cursor.shape_generation != self.sent_generation
    }

    /// The image to send now, if any.
    pub fn unsent_shape(&self) -> (r: Result<Option<RemoteCursorShape>, CursorShapeError>)
        ensures
            match self@.unsent_shape() {
                Ok(Some(view)) => r matches Ok(Some(shape)) && shape@ == view,
                Ok(None) => r matches Ok(None),
                Err(error) => r == Err::<Option<RemoteCursorShape>, CursorShapeError>(error),
            },
    {
        if self.cursor.shape_generation == 0 || self.cursor.shape_generation
            == self.sent_generation {
            return Ok(None);
        }
        build_remote_cursor_shape(&self.cursor)
    }

    /// The image at hand has been sent, or is none that can be.
    pub fn shape_published(&mut self)
        ensures
            final(self)@ == (PointerTrackerView {
                sent_generation: old(self)@.cursor.shape_generation,
                ..old(self)@
            }),
    {
        self.sent_generation = self.cursor.shape_generation;
    }

    /// Whether the position of the pointer can be told, once it has been told where
    /// it is and what it looks like.
    pub fn can_be_placed(&self, position: &Option<PointerPosition>, shape: &Option<PointerShape>) -> (r:
        bool)
        ensures
            r == can_be_placed(self@.told(*position, *shape).cursor, self@.display_origin),
    {
        let (x, y): (i32, i32) = match position {
            Some(position) => (position.x, position.y),
            None => (self.cursor.x, self.cursor.y),
        };
        let (hot_x, hot_y): (i32, i32) = match shape {
            Some(shape) => (shape.hot_x, shape.hot_y),
            None => (self.cursor.hot_x, self.cursor.hot_y),
        };
        let dx: i64 = x as i64 - self.display_origin.0 as i64;
        let dy: i64 = y as i64 - self.display_origin.1 as i64;
        let left: i64 = dx - hot_x as i64;
        let top: i64 = dy - hot_y as i64;
        let low: i64 = i32::MIN as i64;
        let high: i64 = i32::MAX as i64;
        low <= dx && dx <= high && low <= dy && dy <= high && low <= left && left <= high && low
            <= top && top <= high
    }

    /// The position of the pointer, and the number of its image.
    pub fn state(&self, timestamp_us: u64) -> (r: RemoteCursorState)
        requires
            can_be_placed(self@.cursor, self@.display_origin),
        ensures
            r.timestamp_us == timestamp_us,
            r.generation == self@.cursor.shape_generation,
            r.visible == self@.cursor.visible,
            r.x == on_display(self@.cursor, self@.display_origin).0,
            r.y == on_display(self@.cursor, self@.display_origin).1,
    {
        let (x, y) = cursor_position_relative_to_display(&self.cursor, self.display_origin);
        RemoteCursorState {
            timestamp_us,
            generation: self.cursor.shape_generation,
            visible: self.cursor.visible,
            x,
            y,
        }
    }
}

/// An image is sent once: after it has been, there is none to send until the
/// pointer gets another, and then that one is the next in number.
pub proof fn images_are_sent_once(tracker: PointerTrackerView, shape: PointerShape)
    ensures
        ({
            let sent = PointerTrackerView {
                sent_generation: tracker.cursor.shape_generation,
                ..tracker
            };
            sent.unsent_shape() matches Ok(None) && (tracker.cursor.shape_generation < u64::MAX
                ==> sent.reshaped(shape).has_news() && sent.reshaped(shape).cursor.shape_generation
                == tracker.cursor.shape_generation + 1)
        }),
{
}

// ---------------------------------------------------------------------------
// Laws
// ---------------------------------------------------------------------------

/// Every pixel of a repacked image is the pixel in the same place of the data, with red
/// and blue changed, or transparent black where the data does not hold it.
pub proof fn pixels_keep_their_places(data: Seq<u8>, pitch: nat, width: nat, rows: nat, x: nat, y: nat)
    requires
        x < width,
        y < rows,
    ensures
        ({
            let image = repacked(data, pitch, width, rows);
            let p = (y * pitch + 4 * x) as int;
            let q = (4 * (width * y + x)) as int;
            &&& q + 4 <= image.len()
            &&& p + 3 < data.len() ==> image[q] == data[p + 2] && image[q + 1] == data[p + 1]
                && image[q + 2] == data[p] && image[q + 3] == data[p + 3]
            &&& p + 3 >= data.len() ==> image[q] == 0 && image[q + 1] == 0 && image[q + 2] == 0
                && image[q + 3] == 0
        }),
    decreases rows,
{
    let image = repacked(data, pitch, width, rows);
    let q = 4 * (width * y + x) as int;
    let above = repacked(data, pitch, width, (rows - 1) as nat);
    repacked_images_are_whole(data, pitch, width, rows);
    repacked_images_are_whole(data, pitch, width, (rows - 1) as nat);
    assert(q == 4 * width * y + 4 * x) by (nonlinear_arith)
        requires
            q == 4 * (width * y + x),
    ;
    assert(4 * width * y + 4 * width <= 4 * width * rows) by (nonlinear_arith)
        requires
            y < rows,
    ;
    if y + 1 < rows {
        pixels_keep_their_places(data, pitch, width, (rows - 1) as nat, x, y);
        assert(4 * width * y + 4 * width <= 4 * width * (rows - 1)) by (nonlinear_arith)
            requires
                y + 1 < rows,
        ;
        assert(image[q] == above[q] && image[q + 1] == above[q + 1]);
        assert(image[q + 2] == above[q + 2] && image[q + 3] == above[q + 3]);
    } else {
        let row = repacked_row(data, (y * pitch) as int, width);
        let at = 4 * x as int;
        assert((at + 1) / 4 == x && (at + 2) / 4 == x && (at + 3) / 4 == x && at / 4 == x);
        assert(at % 4 == 0 && (at + 1) % 4 == 1 && (at + 2) % 4 == 2 && (at + 3) % 4 == 3);
        assert(image[q] == row[at] && image[q + 1] == row[at + 1]);
        assert(image[q + 2] == row[at + 2] && image[q + 3] == row[at + 3]);
    }
}

/// A colour image is sent pixel by pixel: at every place the pixel that the desktop
/// reported there, turned from BGRA to RGBA.
pub proof fn sent_pixels_are_the_reported_ones(cursor: CursorStateView, x: nat, y: nat)
    requires
        cursor.shape_type == 2 || cursor.shape_type == 4,
        cursor.remote_shape() matches Ok(Some(_)),
        x < cursor.width,
        y < cursor.height,
    ensures
        ({
            let shape = cursor.remote_shape()->Ok_0->Some_0;
            let p = y * cursor.pitch + 4 * x;
            let q = 4 * (cursor.width * y + x);
            &&& 0 <= q && q + 4 <= shape.data.len()
            &&& shape.width == cursor.width && shape.height == cursor.height && shape.pitch == 4
                * cursor.width
            &&& shape.kind is MaskedColor <==> cursor.shape_type == 4
            &&& shape.kind is Color <==> cursor.shape_type == 2
            &&& p + 3 < cursor.shape_data.len() ==> shape.data[q] == cursor.shape_data[p + 2]
                && shape.data[q + 1] == cursor.shape_data[p + 1] && shape.data[q + 2]
                == cursor.shape_data[p] && shape.data[q + 3] == cursor.shape_data[p + 3]
            &&& p + 3 >= cursor.shape_data.len() ==> shape.data[q] == 0 && shape.data[q + 1] == 0
                && shape.data[q + 2] == 0 && shape.data[q + 3] == 0
        }),
{
    pixels_keep_their_places(
        cursor.shape_data,
        cursor.pitch as nat,
        cursor.width as nat,
        cursor.height as nat,
        x,
        y,
    );
}

/// The masks of a monochrome pointer are sent as they were reported, byte by byte, in
/// rows of whole words that hold one bit for each pixel. The image is as high as one of
/// the two masks.
pub proof fn masks_are_sent_as_reported(cursor: CursorStateView)
    requires
        cursor.shape_type == 1,
        cursor.remote_shape() matches Ok(Some(_)),
    ensures
        ({
            let shape = cursor.remote_shape()->Ok_0->Some_0;
            &&& shape.kind is Monochrome
            &&& shape.width == cursor.width
            &&& 2 * shape.height <= cursor.height <= 2 * shape.height + 1
            &&& shape.pitch % 4 == 0
            &&& 8 * shape.pitch - 32 < cursor.width <= 8 * shape.pitch
            &&& shape.data.len() == shape.pitch * cursor.height
            &&& forall|i: int|
                0 <= i < shape.data.len() ==> #[trigger] shape.data[i] == if i
                    < cursor.shape_data.len() {
                    cursor.shape_data[i]
                } else {
                    0u8
                }
        }),
{
}

/// Whether a pointer has an image to send: it is of a kind that is known, and neither
/// its sides nor its data are empty. It cannot be sent only where its size cannot be
/// written.
pub proof fn known_images_are_sent(cursor: CursorStateView)
    ensures
        cursor.remote_shape() matches Ok(None) <==> !(cursor.shape_type == 1 || cursor.shape_type
            == 2 || cursor.shape_type == 4) || cursor.width == 0 || cursor.height == 0
            || cursor.shape_data.len() == 0,
        cursor.remote_shape() is Err ==> 4 * cursor.width * cursor.height > usize::MAX || 4
            * cursor.width > u32::MAX || (cursor.width + 31) / 8 * cursor.height > usize::MAX,
        cursor.remote_shape() matches Ok(Some(shape)) ==> shape.generation
            == cursor.shape_generation,
{
    let row = mono_row(cursor.width) as int;
    let h = cursor.height as int;
    assert(row <= (cursor.width + 31) / 8);
    assert(row * h <= ((cursor.width + 31) / 8) * h) by (nonlinear_arith)
        requires
            row <= (cursor.width + 31) / 8,
            h >= 0,
    ;
}

/// The place of the pointer's image: with the image's corner there, its hot spot is at
/// the pointer's position on the desktop.
pub proof fn the_hot_spot_is_the_position(cursor: CursorStateView, origin: (i32, i32))
    ensures
        on_display(cursor, origin).0 + cursor.hot_x + origin.0 == cursor.x,
        on_display(cursor, origin).1 + cursor.hot_y + origin.1 == cursor.y,
{
}

/// The pointer is where it was last told to be and looks as it was last told to look.
/// What was not told stays as it was, and no image counts as sent by that.
pub proof fn pointers_are_as_told(
    tracker: PointerTrackerView,
    position: Option<PointerPosition>,
    shape: Option<PointerShape>,
)
    ensures
        ({
            let after = tracker.told(position, shape);
            &&& after.sent_generation == tracker.sent_generation
            &&& after.display_origin == tracker.display_origin
            &&& match position {
                Some(p) => after.cursor.visible == p.visible && after.cursor.x == p.x
                    && after.cursor.y == p.y,
                None => after.cursor.visible == tracker.cursor.visible && after.cursor.x
                    == tracker.cursor.x && after.cursor.y == tracker.cursor.y,
            }
            &&& match shape {
                Some(s) => after.cursor.width == s.width && after.cursor.height == s.height
                    && after.cursor.pitch == s.pitch && after.cursor.hot_x == s.hot_x
                    && after.cursor.hot_y == s.hot_y && after.cursor.shape_type == s.shape_type
                    && after.cursor.shape_data == s.data@ && after.cursor.shape_generation == (
                tracker.cursor.shape_generation + 1) % 0x1_0000_0000_0000_0000,
                None => after.cursor.width == tracker.cursor.width && after.cursor.height
                    == tracker.cursor.height && after.cursor.pitch == tracker.cursor.pitch
                    && after.cursor.hot_x == tracker.cursor.hot_x && after.cursor.hot_y
                    == tracker.cursor.hot_y && after.cursor.shape_type == tracker.cursor.shape_type
                    && after.cursor.shape_data == tracker.cursor.shape_data
                    && after.cursor.shape_generation == tracker.cursor.shape_generation,
            }
        }),
{
}

/// A new pointer has no image to send, and the first one it gets is sent.
pub proof fn the_first_image_is_sent(display_origin: (i32, i32), shape: PointerShape)
    ensures
        PointerTrackerView::initial(display_origin).unsent_shape() matches Ok(None),
        ({
            let told = PointerTrackerView::initial(display_origin).told(None, Some(shape));
            told.has_news() && told.unsent_shape() == told.cursor.remote_shape()
                && told.cursor.shape_generation == 1
        }),
{
}

/// A pointer can be placed if its way from the display's corner, with and without the way
/// to its hot spot, can be written in 32 bits.
pub proof fn pointers_are_placed_where_they_fit(cursor: CursorStateView, origin: (i32, i32))
    ensures
        can_be_placed(cursor, origin) <==> {
            &&& origin.0 - 0x8000_0000 <= cursor.x <= origin.0 + 0x7fff_ffff
            &&& origin.1 - 0x8000_0000 <= cursor.y <= origin.1 + 0x7fff_ffff
            &&& origin.0 + cursor.hot_x - 0x8000_0000 <= cursor.x <= origin.0 + cursor.hot_x
                + 0x7fff_ffff
            &&& origin.1 + cursor.hot_y - 0x8000_0000 <= cursor.y <= origin.1 + cursor.hot_y
                + 0x7fff_ffff
        },
{
}

/// Before anything is told of it the pointer is hidden, at no distance from the origin and
/// without an image, and no image of it has been sent.
pub proof fn pointers_begin_hidden(display_origin: (i32, i32))
    ensures
        ({
            let p = PointerTrackerView::initial(display_origin);
            let c = p.cursor;
            &&& p.display_origin == display_origin && p.sent_generation == 0
            &&& !c.visible && c.shape_data.len() == 0 && c.shape_generation == 0
            &&& c.x == 0 && c.y == 0 && c.hot_x == 0 && c.hot_y == 0
            &&& c.width == 0 && c.height == 0 && c.pitch == 0 && c.shape_type == 0
        }),
{
}

} // verus!
