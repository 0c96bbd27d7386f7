#include <metal_stdlib>
using namespace metal;

// ─── Downsample luma 4× ─────────────────────────────────────────────────────
// One thread per output pixel.  Averages a 4×4 neighbourhood in the source
// luma plane, clamping at texture boundaries.
kernel void downsample_4x(
    texture2d<float, access::read>  src [[texture(0)]],
    texture2d<float, access::write> dst [[texture(1)]],
    uint2 gid [[thread_position_in_grid]]
) {
    if (gid.x >= dst.get_width() || gid.y >= dst.get_height()) return;
    uint2 base = gid * 4;
    float sum  = 0.0;
    uint  sw   = src.get_width();
    uint  sh   = src.get_height();
    for (int dy = 0; dy < 4; dy++)
        for (int dx = 0; dx < 4; dx++)
            sum += src.read(uint2(min(base.x + (uint)dx, sw - 1),
                                  min(base.y + (uint)dy, sh - 1))).r;
    dst.write(float4(sum * 0.0625, 0.0, 0.0, 1.0), gid);
}

// ─── Block-match optical flow ────────────────────────────────────────────────
// One Metal threadgroup per 8×8 block in the downsampled luma image.
// 81 threads per threadgroup (9×9 search window, radius = 4 in ¼-res pixels
// = ±16 full-resolution pixels).  Each thread computes the SAD for one
// candidate offset; thread 0 picks the minimum and writes the flow vector.
constexpr int BM_BLOCK  = 8;
constexpr int BM_RADIUS = 4;
constexpr int BM_SW     = 2 * BM_RADIUS + 1;  // 9
constexpr int BM_NC     = BM_SW * BM_SW;        // 81

kernel void block_match_flow(
    texture2d<float, access::read>  prev_ds [[texture(0)]],
    texture2d<float, access::read>  curr_ds [[texture(1)]],
    texture2d<float, access::write> flow    [[texture(2)]],
    uint2 group_id  [[threadgroup_position_in_grid]],
    uint  thread_id [[thread_index_in_threadgroup]]
) {
    // Defensive guard — in practice the threadgroup size is exactly BM_NC.
    if (thread_id >= (uint)BM_NC) return;

    int cand_x = (int)(thread_id % (uint)BM_SW) - BM_RADIUS;
    int cand_y = (int)(thread_id / (uint)BM_SW) - BM_RADIUS;

    int2 origin = int2(group_id) * BM_BLOCK;
    int  w      = (int)prev_ds.get_width();
    int  h      = (int)prev_ds.get_height();

    float sad = 0.0;
    for (int py = 0; py < BM_BLOCK; py++) {
        for (int px = 0; px < BM_BLOCK; px++) {
            int2 pp = origin + int2(px, py);
            int2 cp = pp + int2(cand_x, cand_y);
            uint2 ppc = uint2(clamp(pp.x, 0, w-1), clamp(pp.y, 0, h-1));
            uint2 cpc = uint2(clamp(cp.x, 0, w-1), clamp(cp.y, 0, h-1));
            sad += abs(prev_ds.read(ppc).r - curr_ds.read(cpc).r);
        }
    }

    // Deposit into threadgroup-shared storage, then thread 0 reduces.
    threadgroup float  tg_sad[BM_NC];
    threadgroup float2 tg_off[BM_NC];
    tg_sad[thread_id] = sad;
    tg_off[thread_id] = float2(cand_x, cand_y);

    threadgroup_barrier(mem_flags::mem_threadgroup);

    if (thread_id == 0) {
        float  min_sad = tg_sad[0];
        float2 best    = tg_off[0];
        for (int i = 1; i < BM_NC; i++) {
            if (tg_sad[i] < min_sad) {
                min_sad = tg_sad[i];
                best    = tg_off[i];
            }
        }
        flow.write(float4(best.x, best.y, 0.0, 1.0), group_id);
    }
}

// ─── Motion-compensated warp ─────────────────────────────────────────────────
// One thread per output pixel.  Reads the bilinearly-upsampled block-level
// flow, converts it to a full-resolution UV offset, and produces a t = 0.5
// in-between sample by blending warped prev and curr in YCbCr space before
// converting to RGB.
struct WarpParams { uint full_range; uint width; uint height; uint _pad; };

kernel void optical_flow_warp(
    texture2d<float, access::sample> prev_luma   [[texture(0)]],
    texture2d<float, access::sample> prev_chroma [[texture(1)]],
    texture2d<float, access::sample> curr_luma   [[texture(2)]],
    texture2d<float, access::sample> curr_chroma [[texture(3)]],
    texture2d<float, access::sample> flow_tex    [[texture(4)]],
    texture2d<float, access::write>  output      [[texture(5)]],
    constant WarpParams&             params      [[buffer(0)]],
    uint2 gid [[thread_position_in_grid]]
) {
    if (gid.x >= params.width || gid.y >= params.height) return;

    float2 full_sz = float2(params.width, params.height);
    // Normalised coordinate at the centre of this pixel.
    float2 base    = (float2(gid) + 0.5) / full_sz;

    // Flow is in ¼-res pixel units.  For t = 0.5:
    //   half-offset (UV) = flow × (4 / 2) / full_sz = flow × 2 / full_sz
    constexpr sampler fs(coord::normalized, address::clamp_to_edge, filter::linear);
    float2 flow    = flow_tex.sample(fs, base).rg;
    float2 half_uv = flow * 2.0 / full_sz;

    float2 prev_uv = clamp(base - half_uv, 0.0, 1.0);
    float2 curr_uv = clamp(base + half_uv, 0.0, 1.0);

    constexpr sampler s(coord::normalized, address::clamp_to_edge, filter::linear);

    float  py  = prev_luma.sample(s, prev_uv).r;
    float2 puv = prev_chroma.sample(s, prev_uv).rg;
    float  cy  = curr_luma.sample(s, curr_uv).r;
    float2 cuv = curr_chroma.sample(s, curr_uv).rg;

    float  y  = (py  + cy)  * 0.5;
    float2 uv = (puv + cuv) * 0.5 - 0.5;

    float luma = y;
    if (params.full_range == 0)
        luma = max(y - (16.0 / 255.0), 0.0) * (255.0 / 219.0);

    float r = clamp(luma + 1.59603 * uv.y,                   0.0, 1.0);
    float g = clamp(luma - 0.39176 * uv.x - 0.81297 * uv.y, 0.0, 1.0);
    float b = clamp(luma + 2.01723 * uv.x,                   0.0, 1.0);
    output.write(float4(r, g, b, 1.0), gid);
}
