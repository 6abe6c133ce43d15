//! Renderer vocabulary: shader kinds and their WGSL source, draw effects,
//! texture ids, batch sort keys and the renderer's error types.

use vstd::prelude::*;

verus! {

/// WGSL source of the `Sprite` — vertex tinted, alpha-blended textured quad.
pub const SPRITE_WGSL: &'static str = r#"//
struct FrameUniforms {
    view_proj: mat4x4<f32>,
};
@group(0) @binding(0) var<uniform> frame: FrameUniforms;

struct VsIn {
    @location(0) position: vec2<f32>,
    @location(1) uv:       vec2<f32>,
    @location(2) tint:     vec4<f32>,
};

struct VsOut {
    @builtin(position) clip: vec4<f32>,
    @location(0) uv:        vec2<f32>,
    @location(1) tint:      vec4<f32>,
};

@vertex
fn vs_main(in: VsIn) -> VsOut {
    var out: VsOut;
    out.clip = frame.view_proj * vec4<f32>(in.position, 0.0, 1.0);
    out.uv   = in.uv;
    out.tint = in.tint;
    return out;
}

@group(1) @binding(0) var tex: texture_2d<f32>;
@group(1) @binding(1) var samp: sampler;

@fragment
fn fs_main(in: VsOut) -> @location(0) vec4<f32> {
    let sampled = textureSample(tex, samp, in.uv);
    return sampled * in.tint;
}
"#;

/// WGSL source of the `Multiply` — multiplicative blend over the destination.
pub const MULTIPLY_WGSL: &'static str = r#"//
struct FrameUniforms {
    view_proj: mat4x4<f32>,
};
@group(0) @binding(0) var<uniform> frame: FrameUniforms;

struct VsIn {
    @location(0) position: vec2<f32>,
    @location(1) uv:       vec2<f32>,
    @location(2) tint:     vec4<f32>,
};

struct VsOut {
    @builtin(position) clip: vec4<f32>,
    @location(0) uv:        vec2<f32>,
    @location(1) tint:      vec4<f32>,
};

@vertex
fn vs_main(in: VsIn) -> VsOut {
    var out: VsOut;
    out.clip = frame.view_proj * vec4<f32>(in.position, 0.0, 1.0);
    out.uv   = in.uv;
    out.tint = in.tint;
    return out;
}

@group(1) @binding(0) var tex: texture_2d<f32>;
@group(1) @binding(1) var samp: sampler;

@fragment
fn fs_main(in: VsOut) -> @location(0) vec4<f32> {
    let s = textureSample(tex, samp, in.uv);
    // multiply: src * dst (alpha = tint.a * s.a)
    return vec4<f32>(s.rgb * in.tint.rgb, s.a * in.tint.a);
}
"#;

/// WGSL source of the `Overlay` — light-blend overlay.
pub const OVERLAY_WGSL: &'static str = r#"//
struct FrameUniforms {
    view_proj: mat4x4<f32>,
};
@group(0) @binding(0) var<uniform> frame: FrameUniforms;

struct VsIn {
    @location(0) position: vec2<f32>,
    @location(1) uv:       vec2<f32>,
    @location(2) tint:     vec4<f32>,
};

struct VsOut {
    @builtin(position) clip: vec4<f32>,
    @location(0) uv:        vec2<f32>,
    @location(1) tint:      vec4<f32>,
};

@vertex
fn vs_main(in: VsIn) -> VsOut {
    var out: VsOut;
    out.clip = frame.view_proj * vec4<f32>(in.position, 0.0, 1.0);
    out.uv   = in.uv;
    out.tint = in.tint;
    return out;
}

@group(1) @binding(0) var tex: texture_2d<f32>;
@group(1) @binding(1) var samp: sampler;

@fragment
fn fs_main(in: VsOut) -> @location(0) vec4<f32> {
    let s = textureSample(tex, samp, in.uv);
    // additive (clamped in-blender)
    let rgb = s.rgb * in.tint.rgb * in.tint.a;
    return vec4<f32>(clamp(rgb, vec3<f32>(0.0), vec3<f32>(1.0)), s.a);
}
"#;

/// WGSL source of the `Post` — post-process pass.
pub const POST_WGSL: &'static str = r#"//
struct FrameUniforms {
    view_proj: mat4x4<f32>,
};
@group(0) @binding(0) var<uniform> frame: FrameUniforms;

struct VsIn {
    @location(0) position: vec2<f32>,
    @location(1) uv:       vec2<f32>,
    @location(2) tint:     vec4<f32>,
};

struct VsOut {
    @builtin(position) clip: vec4<f32>,
    @location(0) uv:        vec2<f32>,
    @location(1) tint:      vec4<f32>,
};

@vertex
fn vs_main(in: VsIn) -> VsOut {
    var out: VsOut;
    out.clip = vec4<f32>(in.position, 0.0, 1.0);
    out.uv   = in.uv;
    out.tint = in.tint;
    return out;
}

@group(1) @binding(0) var tex: texture_2d<f32>;
@group(1) @binding(1) var samp: sampler;

@fragment
fn fs_main(in: VsOut) -> @location(0) vec4<f32> {
    let s = textureSample(tex, samp, in.uv);
    // simple gamma + tint
    let gamma = vec3<f32>(1.0 / 2.2);
    return vec4<f32>(pow(s.rgb, gamma) * in.tint.rgb, s.a * in.tint.a);
}
"#;

/// The four shader pipelines.
#[derive(Debug, Clone, Copy, PartialEq, Eq, Hash, Structural)]
pub enum ShaderKind {
    /// Tinted, alpha-blended textured quad (the default).
    Sprite,
    /// Multiplicative blend.
    Multiply,
    /// Light-blend overlay.
    Overlay,
    /// Post-process pass.
    Post,
}

/// Pipeline index of a shader kind.
pub open spec fn shader_index_spec(k: ShaderKind) -> usize {
    match k {
        ShaderKind::Sprite => 0,
        ShaderKind::Multiply => 1,
        ShaderKind::Overlay => 2,
        ShaderKind::Post => 3,
    }
}

impl ShaderKind {
    /// Number of variants (size of the pipeline table).
    pub fn count() -> (r: usize)
        ensures
            r == 4,
    {
        4
    }

    /// Dense index into the pipeline table.
    pub fn index(self) -> (r: usize)
        ensures
            r == shader_index_spec(self),
            r < 4,
    {
        match self {
            ShaderKind::Sprite => 0,
            ShaderKind::Multiply => 1,
            ShaderKind::Overlay => 2,
            ShaderKind::Post => 3,
        }
    }

    /// WGSL source for this kind.
    pub fn wgsl(self) -> (r: &'static str)
        ensures
            r@ == match self {
                ShaderKind::Sprite => SPRITE_WGSL@,
                ShaderKind::Multiply => MULTIPLY_WGSL@,
                ShaderKind::Overlay => OVERLAY_WGSL@,
                ShaderKind::Post => POST_WGSL@,
            },
    {
        match self {
            ShaderKind::Sprite => SPRITE_WGSL,
            ShaderKind::Multiply => MULTIPLY_WGSL,
            ShaderKind::Overlay => OVERLAY_WGSL,
            ShaderKind::Post => POST_WGSL,
        }
    }
}

impl Default for ShaderKind {
    fn default() -> (r: ShaderKind)
        ensures
            r == ShaderKind::Sprite,
    {
        ShaderKind::Sprite
    }
}

/// Per-element draw effects, a set of bit flags. All flags take part in
/// the batch sort key.
#[derive(Debug, Clone, Copy, PartialEq, Eq, Hash, Structural)]
pub struct DrawEffect {
    bits: u32,
}

/// Bit of the premultiplied-alpha flag.
pub const PREMULTIPLIED_ALPHA_BIT: u32 = 1;
/// Bit of the no-blending flag.
pub const NO_BLENDING_BIT: u32 = 2;
/// Bit of the invert-alpha flag.
pub const INVERT_ALPHA_BIT: u32 = 4;
/// Bit of the segregated-alpha flag.
pub const SEGREGATED_ALPHA_BIT: u32 = 8;
/// Bit of the tinted flag.
pub const TINTED_BIT: u32 = 16;
/// Bit of the from-sRGB flag.
pub const FROM_SRGB_BIT: u32 = 32;
/// All defined flag bits.
pub const ALL_EFFECT_BITS: u32 = 63;

impl DrawEffect {
    /// The flag bits.
    pub closed spec fn bits_spec(self) -> u32 {
        self.bits
    }

    /// No effects — straight alpha blend of source over destination.
    pub fn none() -> (r: DrawEffect)
        ensures
            r.bits_spec() == 0,
    {
        DrawEffect { bits: 0 }
    }

    /// Source alpha is already premultiplied into RGB.
    pub fn premultiplied_alpha() -> (r: DrawEffect)
        ensures
            r.bits_spec() == PREMULTIPLIED_ALPHA_BIT,
    {
        DrawEffect { bits: PREMULTIPLIED_ALPHA_BIT }
    }

    /// Disable blending entirely (opaque copy).
    pub fn no_blending() -> (r: DrawEffect)
        ensures
            r.bits_spec() == NO_BLENDING_BIT,
    {
        DrawEffect { bits: NO_BLENDING_BIT }
    }

    /// Invert the source alpha (drop shadows).
    pub fn invert_alpha() -> (r: DrawEffect)
        ensures
            r.bits_spec() == INVERT_ALPHA_BIT,
    {
        DrawEffect { bits: INVERT_ALPHA_BIT }
    }

    /// RGB and alpha computed separately (glow / inner shadow).
    pub fn segregated_alpha() -> (r: DrawEffect)
        ensures
            r.bits_spec() == SEGREGATED_ALPHA_BIT,
    {
        DrawEffect { bits: SEGREGATED_ALPHA_BIT }
    }

    /// Per-element tint applied after sampling.
    pub fn tinted() -> (r: DrawEffect)
        ensures
            r.bits_spec() == TINTED_BIT,
    {
        DrawEffect { bits: TINTED_BIT }
    }

    /// Texture is gamma-space; convert sRGB to linear on sample.
    pub fn from_srgb() -> (r: DrawEffect)
        ensures
            r.bits_spec() == FROM_SRGB_BIT,
    {
        DrawEffect { bits: FROM_SRGB_BIT }
    }

    /// The raw flag bits.
    pub fn bits(self) -> (r: u32)
        ensures
            r == self.bits_spec(),
    {
        self.bits
    }

    /// The flags among `bits` that are defined; unknown bits are dropped.
    pub fn from_bits_truncate(bits: u32) -> (r: DrawEffect)
        ensures
            r.bits_spec() == bits & ALL_EFFECT_BITS,
    {
        DrawEffect { bits: bits & ALL_EFFECT_BITS }
    }

    /// Both sets of flags.
    pub fn union(self, other: DrawEffect) -> (r: DrawEffect)
        ensures
            r.bits_spec() == self.bits_spec() | other.bits_spec(),
    {
        DrawEffect { bits: self.bits | other.bits }
    }

    /// Whether every flag of `other` is set here.
    pub fn contains(self, other: DrawEffect) -> (r: bool)
        ensures
            r == (self.bits_spec() & other.bits_spec() == other.bits_spec()),
    {
        self.bits & other.bits == other.bits
    }

    /// Whether no flag is set.
    pub fn is_empty(self) -> (r: bool)
        ensures
            r == (self.bits_spec() == 0),
    {
        self.bits == 0
    }
}

impl Default for DrawEffect {
    fn default() -> (r: DrawEffect)
        ensures
            r.bits_spec() == 0,
    {
        DrawEffect::none()
    }
}

/// Opaque texture handle (index into the renderer's texture table).
/// `0` is reserved for "no texture".
#[derive(Debug, Clone, Copy, PartialEq, Eq, Hash, Structural)]
pub struct TextureId(pub u32);

impl TextureId {
    /// No texture.
    pub fn none() -> (r: TextureId)
        ensures
            r.0 == 0,
    {
        TextureId(0)
    }

    /// First allocated texture id.
    pub fn first() -> (r: TextureId)
        ensures
            r.0 == 1,
    {
        TextureId(1)
    }
}

impl Default for TextureId {
    fn default() -> (r: TextureId)
        ensures
            r.0 == 0,
    {
        TextureId(0)
    }
}

/// Batch sort key: layer, then shader, then effect bits, then texture.
#[derive(Debug, Clone, Copy, PartialEq, Eq, Hash, PartialOrd, Ord, Structural)]
pub struct SortKey {
    /// Draw layer (lower draws first).
    pub layer: i32,
    /// Shader index.
    pub shader: u8,
    /// Effect bits.
    pub effect: u32,
    /// Texture id.
    pub texture: u32,
}

/// Lexicographic order on (layer, shader, effect, texture).
pub open spec fn key_lt(a: SortKey, b: SortKey) -> bool {
    a.layer < b.layer || (a.layer == b.layer && (a.shader < b.shader || (a.shader == b.shader && (
    a.effect < b.effect || (a.effect == b.effect && a.texture < b.texture)))))
}

impl SortKey {
    /// The key of an element drawn on `layer` with `shader`, `effect` and
    /// `texture`.
    pub fn of(layer: i32, shader: ShaderKind, effect: DrawEffect, texture: TextureId) -> (r: SortKey)
        ensures
            r == (SortKey {
                layer,
                shader: shader_index_spec(shader) as u8,
                effect: effect.bits_spec(),
                texture: texture.0,
            }),
    {
        SortKey { layer, shader: shader.index() as u8, effect: effect.bits(), texture: texture.0 }
    }

    /// Whether `self` sorts strictly before `other`.
    pub fn precedes(&self, other: &SortKey) -> (r: bool)
        ensures
            r == key_lt(*self, *other),
    {
        if self.layer != other.layer {
            return self.layer < other.layer;
        }
        if self.shader != other.shader {
            return self.shader < other.shader;
        }
        if self.effect != other.effect {
            return self.effect < other.effect;
        }
        self.texture < other.texture
    }
}

/// Texture atlas errors.
#[derive(Debug, PartialEq, Eq)]
pub enum AtlasError {
    /// No free rectangle large enough.
    Full {
        /// Requested width.
        w: i32,
        /// Requested height.
        h: i32,
    },
}

/// Errors from the renderer.
#[derive(Debug, PartialEq, Eq)]
pub enum RendererError {
    /// Adapter request failed (no GPU / no compatible driver).
    NoAdapter,
    /// Device request failed.
    NoDevice(String),
    /// Could not get a current surface texture.
    NoSurfaceTexture,
    /// Image file failed to decode.
    Image(String),
    /// Texture id is not in the table.
    UnknownTexture(TextureId),
    /// RGBA payload does not match the texture byte size.
    TextureSize {
        /// Texture that was written.
        id: TextureId,
        /// Expected RGBA byte count.
        expected: usize,
        /// Payload length.
        got: usize,
    },
}

} // verus!
