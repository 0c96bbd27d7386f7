cbuffer Params : register(b0) { uint source_transfer; uint3 padding; };
Texture2D<float4> source : register(t0);

struct Vertex { float4 position : SV_Position; };

Vertex vs_main(uint id : SV_VertexID) {
    Vertex v;
    v.position = float4(id == 2 ? 3.0 : -1.0, id == 1 ? 3.0 : -1.0, 0.0, 1.0);
    return v;
}

float to_srgb(float c) {
    c = saturate(c);
    return c <= 0.0031308 ? c * 12.92 : 1.055 * pow(c, 1.0 / 2.4) - 0.055;
}

float4 ps_main(Vertex v) : SV_Target {
    float3 c = source.Load(int3(v.position.xy, 0)).rgb;
    if (source_transfer == 1) {
        c = float3(to_srgb(c.r), to_srgb(c.g), to_srgb(c.b));
    }
    return float4(c, 1.0);
}
