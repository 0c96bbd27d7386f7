//! Presentation of decoded frames.

use vstd::prelude::*;

verus! {

/// The pixel formats that the decoder may hand out: two planes, with the values of
/// video or with the full range of values.
pub const PIXEL_FORMAT_420V: u32 = 0x3432_3076;

pub const PIXEL_FORMAT_420F: u32 = 0x3432_3066;

/// Why a decoded picture cannot be shown.
#[derive(Clone, Copy, Debug, PartialEq, Eq, Structural)]
pub enum PictureError {
    NotPlanar,
    PlaneCount,
    PixelFormat,
}

/// Checks a decoded picture.
pub fn check_picture(is_planar: bool, plane_count: usize, pixel_format: u32) -> (r: Result<
    (),
    PictureError,
>)
    ensures
        r == if !is_planar {
            Err(PictureError::NotPlanar)
        } else if plane_count != 2 {
            Err(PictureError::PlaneCount)
        } else if pixel_format != PIXEL_FORMAT_420V && pixel_format != PIXEL_FORMAT_420F {
            Err(PictureError::PixelFormat)
        } else {
            Ok::<(), PictureError>(())
        },
{
    if !is_planar {
        return Err(PictureError::NotPlanar);
    }
    if plane_count != 2 {
        return Err(PictureError::PlaneCount);
    }
    if pixel_format != PIXEL_FORMAT_420V && pixel_format != PIXEL_FORMAT_420F {
        return Err(PictureError::PixelFormat);
    }
    Ok(())
}

/// What a turn of the render loop does.
#[derive(Clone, Copy, Debug, PartialEq, Eq, Structural)]
pub enum RenderStep {
    /// Show the newest frame, on a window that is resized first or not.
    Present { resize: bool },
    /// Wait for a frame.
    Wait,
    /// No frame will come any more.
    Stop,
}

/// The window.
#[derive(Clone, Copy, Debug, PartialEq, Eq, Structural)]
pub struct VideoWindow {
    pub width: u32,
    pub height: u32,
}

impl VideoWindow {
    /// A turn of the render loop: `newest` is the size of the newest frame that has
    /// arrived, and `disconnected` tells that no other will.
    pub fn turn(&mut self, newest: Option<(u32, u32)>, disconnected: bool) -> (r: RenderStep)
        ensures
            r == match newest {
                Some((width, height)) => RenderStep::Present {
                    resize: old(self).width != width || old(self).height != height,
                },
                None => if disconnected {
                    RenderStep::Stop
                } else {
                    RenderStep::Wait
                },
            },
            *final(self) == match newest {
                Some((width, height)) => VideoWindow { width, height },
                None => *old(self),
            },
    {
        match newest {
            Some((width, height)) => {
                let resize = self.width != width || self.height != height;
                self.width = width;
                self.height = height;
                RenderStep::Present { resize }
            },
            None => {
                if disconnected {
                    RenderStep::Stop
                } else {
                    RenderStep::Wait
                }
            },
        }
    }
}

} // verus!
