//! Motion-compensated frame interpolation: the sizes of its textures and of its
//! passes.
//!
//! One mid-frame is synthesised between every pair of consecutive decoded
//! frames. Both luma planes are downsampled four times, blocks of eight by eight
//! downsampled pixels are matched, and the flow of the blocks warps both frames
//! into the mid-frame.

use vstd::prelude::*;

verus! {

/// The least number of parts of size `part` that make up `n`.
pub open spec fn parts(n: u64, part: u64) -> nat {
    (n as nat + part as nat - 1) as nat / part as nat
}

/// The least number of parts of size `part` that make up `n`.
fn div_ceil(n: u64, part: u64) -> (r: u64)
    requires
        part > 1,
    ensures
        r == parts(n, part),
{
    let whole: u64 = n / part;
    proof {
        lemma_parts(n as int, part as int);
    }
    if n % part > 0 {
        whole + 1
    } else {
        whole
    }
}

proof fn lemma_parts(n: int, part: int)
    requires
        n >= 0,
        part > 1,
    ensures
        (n + part - 1) / part == if n % part > 0 {
            n / part + 1
        } else {
            n / part
        },
        n % part > 0 ==> n / part + 1 <= n,
{
    let q = n / part;
    let r = n % part;
    assert(n == part * q + r && 0 <= r < part && q >= 0) by (nonlinear_arith)
        requires
            q == n / part,
            r == n % part,
            n >= 0,
            part > 1,
    ;
    if r > 0 {
        assert((n + part - 1) / part == q + 1) by (nonlinear_arith)
            requires
                n == part * q + r,
                0 < r < part,
                part > 1,
        ;
        assert(q + 1 <= n) by (nonlinear_arith)
            requires
                n == part * q + r,
                0 < r,
                q >= 0,
                part > 1,
        ;
    } else {
        assert((n + part - 1) / part == q) by (nonlinear_arith)
            requires
                n == part * q,
                part > 1,
        ;
    }
}

/// Two extents.
#[derive(Clone, Copy, Debug, PartialEq, Eq, Structural)]
pub struct Extent {
    pub width: u64,
    pub height: u64,
}

/// The sizes of the intermediate textures.
#[derive(Clone, Copy, Debug, PartialEq, Eq, Structural)]
pub struct TextureSizes {
    /// Luma scratch at a quarter of the size.
    pub downsampled: Extent,
    /// One flow vector for each block of 32 by 32 pixels.
    pub flow: Extent,
    /// The synthesised mid-frame.
    pub output: Extent,
}

/// The sizes for frames of this size.
pub open spec fn sizes(width: u64, height: u64) -> TextureSizes {
    TextureSizes {
        downsampled: Extent { width: parts(width, 4) as u64, height: parts(height, 4) as u64 },
        flow: Extent { width: parts(width, 32) as u64, height: parts(height, 32) as u64 },
        output: Extent { width, height },
    }
}

fn texture_sizes(width: u64, height: u64) -> (r: TextureSizes)
    ensures
        r == sizes(width, height),
{
    let ds_w: u64 = div_ceil(width, 4);
    let ds_h: u64 = div_ceil(height, 4);
    let flow_w: u64 = div_ceil(ds_w, 8);
    let flow_h: u64 = div_ceil(ds_h, 8);
    TextureSizes {
        downsampled: Extent { width: ds_w, height: ds_h },
        flow: Extent { width: flow_w, height: flow_h },
        output: Extent { width, height },
    }
}

/// What the warp pass is told.
#[derive(Clone, Copy, Debug, PartialEq, Eq, Structural)]
pub struct WarpParams {
    pub full_range: u32,
    pub width: u32,
    pub height: u32,
}

/// The passes of an interpolation, in order.
#[derive(Clone, Copy, Debug, PartialEq, Eq, Structural)]
pub struct Passes {
    /// Threads of each of the two downsampling passes.
    pub downsample_grid: Extent,
    pub downsample_group: Extent,
    /// Groups of threads of the block matching pass, one for each block.
    pub match_groups: Extent,
    /// Threads of a group, one for each candidate offset.
    pub match_threads: u64,
    /// Threads of the warp pass.
    pub warp_grid: Extent,
    pub warp_group: Extent,
    pub warp: WarpParams,
}

/// The passes for frames of this size.
pub open spec fn passes(width: u64, height: u64, full_range: bool) -> Passes {
    Passes {
        downsample_grid: sizes(width, height).downsampled,
        downsample_group: Extent { width: 16, height: 16 },
        match_groups: sizes(width, height).flow,
        match_threads: 81,
        warp_grid: sizes(width, height).output,
        warp_group: Extent { width: 16, height: 16 },
        warp: WarpParams {
            full_range: if full_range {
                1
            } else {
                0
            },
            width: width as u32,
            height: height as u32,
        },
    }
}

/// An interpolator for frames of one size.
#[derive(Clone, Copy, Debug, PartialEq, Eq, Structural)]
pub struct FrameInterpolator {
    pub width: u64,
    pub height: u64,
    /// The textures that are at hand.
    pub textures: TextureSizes,
}

/// The textures of a new size could not be made.
#[derive(Clone, Copy, Debug, PartialEq, Eq, Structural)]
pub struct AllocationFailed;

impl FrameInterpolator {
    /// The textures at hand are those of the size.
    pub open spec fn wf(self) -> bool {
        self.textures == sizes(self.width, self.height)
    }

    /// An interpolator for frames of `width` by `height` pixels, and the textures
    /// that it needs.
    pub fn new(width: u64, height: u64) -> (r: (FrameInterpolator, TextureSizes))
        ensures
            r.0 == (FrameInterpolator { width, height, textures: sizes(width, height) }),
            r.1 == sizes(width, height),
            r.0.wf(),
    {
        let textures = texture_sizes(width, height);
        (FrameInterpolator { width, height, textures }, textures)
    }

    /// The textures to make for a resolution: none when the dimensions are unchanged.
    pub fn plan_resize(&self, width: u64, height: u64) -> (r: Option<TextureSizes>)
        ensures
            r == if self.width == width && self.height == height {
                None
            } else {
                Some(sizes(width, height))
            },
    {
        if self.width == width && self.height == height {
            None
        } else {
            Some(texture_sizes(width, height))
        }
    }

    /// Takes a resolution over, once the textures for it were made or could not be.
    /// A no-op when the dimensions are unchanged. Without the textures, size and
    /// textures stay as they were.
    pub fn resize(&mut self, width: u64, height: u64, made: bool) -> (r: Result<
        (),
        AllocationFailed,
    >)
        requires
            old(self).wf(),
        ensures
            final(self).wf(),
            r is Err <==> !(old(self).width == width && old(self).height == height) && !made,
            r is Ok ==> final(self).width == width && final(self).height == height
                && final(self).textures == sizes(width, height),
            r is Err ==> *final(self) == *old(self),
            old(self).width == width && old(self).height == height ==> *final(self) == *old(self),
    {
        if self.width == width && self.height == height {
            return Ok(());
        }
        if !made {
            return Err(AllocationFailed);
        }
        self.width = width;
        self.height = height;
        self.textures = texture_sizes(width, height);
        Ok(())
    }

    /// The passes that synthesise a mid-frame.
    pub fn encode(&self, full_range: bool) -> (r: Passes)
        ensures
            r == passes(self.width, self.height, full_range),
    {
        let sizes = texture_sizes(self.width, self.height);
        #[verifier::truncate]
        let width: u32 = self.width as u32;
        #[verifier::truncate]
        let height: u32 = self.height as u32;
        Passes {
            downsample_grid: sizes.downsampled,
            downsample_group: Extent { width: 16, height: 16 },
            match_groups: sizes.flow,
            match_threads: 81,
            warp_grid: sizes.output,
            warp_group: Extent { width: 16, height: 16 },
            warp: WarpParams {
                full_range: if full_range {
                    1
                } else {
                    0
                },
                width,
                height,
            },
        }
    }
}

/// The passes cover the frame: every pixel has a downsampled one, every
/// downsampled one a block, and every block a place in the flow texture; none of
/// them is larger than it has to be.
pub proof fn passes_cover_the_frame(width: u64, height: u64, full_range: bool)
    ensures
        ({
            let p = passes(width, height, full_range);
            let s = sizes(width, height);
            &&& width <= 4 * p.downsample_grid.width < width + 4
            &&& height <= 4 * p.downsample_grid.height < height + 4
            &&& width <= 32 * p.match_groups.width < width + 32
            &&& height <= 32 * p.match_groups.height < height + 32
            &&& p.match_groups == s.flow && p.downsample_grid == s.downsampled && p.warp_grid
                == s.output
        }),
{
}

/// A mid-frame has the size of the frames and is warped pixel by pixel, in their own range
/// of values. Threads come in groups of 16 by 16, and for each block every offset of up to
/// four downsampled pixels to either side is tried.
pub proof fn mid_frames_have_the_size_of_the_frames(width: u64, height: u64, full_range: bool)
    ensures
        ({
            let p = passes(width, height, full_range);
            let s = sizes(width, height);
            &&& s.output.width == width && s.output.height == height
            &&& p.warp_grid.width == width && p.warp_grid.height == height
            &&& width <= u32::MAX ==> p.warp.width == width
            &&& height <= u32::MAX ==> p.warp.height == height
            &&& full_range ==> p.warp.full_range == 1
            &&& !full_range ==> p.warp.full_range == 0
            &&& p.downsample_group.width == 16 && p.downsample_group.height == 16
            &&& p.warp_group.width == 16 && p.warp_group.height == 16
            &&& p.match_threads == 9 * 9
        }),
{
}

} // verus!
