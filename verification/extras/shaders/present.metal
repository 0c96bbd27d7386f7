#include <metal_stdlib>
using namespace metal;

struct VertexIn  { float2 position; float2 tex_coord; };
struct VertexOut { float4 position [[position]]; float2 tex_coord; };

vertex VertexOut rgb_vert(
    const device VertexIn* v [[buffer(0)]],
    uint vid [[vertex_id]]
) {
    VertexOut o;
    o.position  = float4(v[vid].position, 0.0, 1.0);
    o.tex_coord = v[vid].tex_coord;
    return o;
}

fragment float4 rgb_frag(
    VertexOut in [[stage_in]],
    texture2d<float> tex [[texture(0)]]
) {
    constexpr sampler s(coord::normalized, address::clamp_to_edge, filter::linear);
    return tex.sample(s, in.tex_coord);
}
