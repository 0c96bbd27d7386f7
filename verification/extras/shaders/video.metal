#include <metal_stdlib>
using namespace metal;

struct VertexIn {
    float2 position;
    float2 tex_coord;
};

struct VertexOut {
    float4 position [[position]];
    float2 tex_coord;
};

struct ColorConversionParams {
    uint full_range;
};

struct CursorRenderParams {
    int2 cursor_origin;
    uint2 cursor_size;
    uint cursor_row_bytes;
    uint cursor_kind;
    uint cursor_visible;
    uint cursor_has_shape;
    uint2 frame_size;
    uint2 _padding;
};

vertex VertexOut video_vertex(
    const device VertexIn* vertices [[buffer(0)]],
    uint vertex_id [[vertex_id]]
) {
    VertexOut vertex_out;
    const VertexIn vertex_in = vertices[vertex_id];
    vertex_out.position = float4(vertex_in.position, 0.0, 1.0);
    vertex_out.tex_coord = vertex_in.tex_coord;
    return vertex_out;
}

fragment float4 video_fragment(
    VertexOut in [[stage_in]],
    texture2d<float> luma_tex [[texture(0)]],
    texture2d<float> chroma_tex [[texture(1)]],
    texture2d<uint> cursor_color_tex [[texture(2)]],
    texture2d<uint> cursor_mono_tex [[texture(3)]],
    constant ColorConversionParams& params [[buffer(0)]],
    constant CursorRenderParams& cursor [[buffer(1)]]
) {
    constexpr sampler tex_sampler(coord::normalized, address::clamp_to_edge, filter::linear);

    const float y = luma_tex.sample(tex_sampler, in.tex_coord).r;
    const float2 uv = chroma_tex.sample(tex_sampler, in.tex_coord).rg - float2(0.5, 0.5);

    float luma = y;
    if (params.full_range == 0) {
        luma = max(y - (16.0 / 255.0), 0.0) * (255.0 / 219.0);
    }

    const float r = luma + 1.59603 * uv.y;
    const float g = luma - 0.39176 * uv.x - 0.81297 * uv.y;
    const float b = luma + 2.01723 * uv.x;
    float3 rgb = clamp(float3(r, g, b), 0.0, 1.0);

    if (cursor.cursor_visible == 0 || cursor.cursor_has_shape == 0) {
        return float4(rgb, 1.0);
    }

    const uint frame_width = max(cursor.frame_size.x, 1u);
    const uint frame_height = max(cursor.frame_size.y, 1u);
    const uint px = min((uint)(in.tex_coord.x * frame_width), frame_width - 1);
    const uint py = min((uint)(in.tex_coord.y * frame_height), frame_height - 1);
    const int2 cursor_pos = int2((int)px, (int)py) - cursor.cursor_origin;

    if (cursor_pos.x < 0 || cursor_pos.y < 0
        || (uint)cursor_pos.x >= cursor.cursor_size.x
        || (uint)cursor_pos.y >= cursor.cursor_size.y) {
        return float4(rgb, 1.0);
    }

    if (cursor.cursor_kind == 1u || cursor.cursor_kind == 2u) {
        const uint4 sample = cursor_color_tex.read(uint2((uint)cursor_pos.x, (uint)cursor_pos.y));
        const float3 cursor_rgb = float3(sample.r, sample.g, sample.b) / 255.0;
        const uint alpha = sample.a;

        if (cursor.cursor_kind == 1u) {
            if (alpha == 0u) {
                return float4(rgb, 1.0);
            }
            const float a = (float)alpha / 255.0;
            rgb = mix(rgb, cursor_rgb, a);
        } else {
            if (alpha == 255u) {
                const uint3 base_rgb = uint3(round(rgb * 255.0));
                rgb = float3(base_rgb ^ sample.rgb) / 255.0;
            } else {
                rgb = cursor_rgb;
            }
        }

        return float4(clamp(rgb, 0.0, 1.0), 1.0);
    }

    if (cursor.cursor_kind == 3u) {
        const uint byte_col = (uint)cursor_pos.x / 8u;
        const uint bit = 0x80u >> ((uint)cursor_pos.x % 8u);
        const uint and_byte = cursor_mono_tex.read(uint2(byte_col, (uint)cursor_pos.y)).r;
        const uint xor_byte = cursor_mono_tex.read(
            uint2(byte_col, (uint)cursor_pos.y + cursor.cursor_size.y)
        ).r;
        const bool and_bit = (and_byte & bit) != 0u;
        const bool xor_bit = (xor_byte & bit) != 0u;

        if (!and_bit && !xor_bit) {
            rgb = float3(0.0);
        } else if (!and_bit && xor_bit) {
            rgb = float3(1.0);
        } else if (and_bit && xor_bit) {
            rgb = 1.0 - rgb;
        }

        return float4(clamp(rgb, 0.0, 1.0), 1.0);
    }

    return float4(rgb, 1.0);
}
