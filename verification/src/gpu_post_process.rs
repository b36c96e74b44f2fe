//! How pictures get to the screen: colour spaces, the textures of their planes, and drawing.
use vstd::prelude::*;

use crate::decode::PixelFormat;

verus! {

/// A colour space, as a source tells it.
#[derive(Debug, Clone, Copy, PartialEq, Eq, Structural)]
pub enum Space {
    Bt709,
    Smpte170m,
    Bt470bg,
    Bt2020ncl,
    Bt2020cl,
    Other,
}

/// How much one component of a pixel adds to red, green and blue, in thousandths. The last number
/// only fills the column up to the width that the shader reads.
#[derive(Debug, Clone, Copy, PartialEq, Eq, Structural)]
pub struct Column {
    pub red: i32,
    pub green: i32,
    pub blue: i32,
    pub fill: i32,
}

/// The numbers by which a shader turns luma and chroma into red, green and blue: a column for each
/// component, and what is added to the components before, in parts of 255.
#[derive(Debug, Clone, Copy, PartialEq, Eq, Structural)]
pub struct ColorSpaceUniform {
    pub luma: Column,
    pub chroma_blue: Column,
    pub chroma_red: Column,
    pub luma_offset: i32,
    pub chroma_offset: i32,
}

/// Three numbers.
#[derive(Debug, Clone, Copy, PartialEq, Eq, Structural)]
pub struct Triple {
    pub x: i32,
    pub y: i32,
    pub z: i32,
}

/// Three columns of three numbers.
#[derive(Debug, Clone, Copy, PartialEq, Eq, Structural)]
pub struct Matrix {
    pub x_axis: Triple,
    pub y_axis: Triple,
    pub z_axis: Triple,
}

/// A column as the shader reads it.
pub open spec fn column_of(axis: Triple) -> Column {
    Column { red: axis.x, green: axis.y, blue: axis.z, fill: 0 }
}

impl ColorSpaceUniform {
    /// Lays the numbers of a colour space out as the shader reads them.
    pub fn new(matrix: Matrix, luma_offset: i32, chroma_offset: i32) -> (uniform: ColorSpaceUniform)
        ensures
            uniform == (ColorSpaceUniform {
                luma: column_of(matrix.x_axis),
                chroma_blue: column_of(matrix.y_axis),
                chroma_red: column_of(matrix.z_axis),
                luma_offset,
                chroma_offset,
            }),
    {
        let (x, y, z) = (matrix.x_axis, matrix.y_axis, matrix.z_axis);
        ColorSpaceUniform {
            luma: Column { red: x.x, green: x.y, blue: x.z, fill: 0 },
            chroma_blue: Column { red: y.x, green: y.y, blue: y.z, fill: 0 },
            chroma_red: Column { red: z.x, green: z.y, blue: z.z, fill: 0 },
            luma_offset,
            chroma_offset,
        }
    }
}

/// The numbers of a colour space in which only some weights of the chroma differ.
pub open spec fn uniform_with(
    green_of_blue: i32,
    blue_of_blue: i32,
    red_of_red: i32,
    green_of_red: i32,
) -> ColorSpaceUniform {
    ColorSpaceUniform {
        luma: Column { red: 1164, green: 1164, blue: 1164, fill: 0 },
        chroma_blue: Column { red: 0, green: green_of_blue, blue: blue_of_blue, fill: 0 },
        chroma_red: Column { red: red_of_red, green: green_of_red, blue: 0, fill: 0 },
        luma_offset: -16i32,
        chroma_offset: -128i32,
    }
}

/// The numbers of the colour space BT.601.
pub open spec fn bt601() -> ColorSpaceUniform {
    uniform_with(-391i32, 2018, 1596, -813i32)
}

/// The numbers of the colour space BT.709.
pub open spec fn bt709() -> ColorSpaceUniform {
    uniform_with(-213i32, 2112, 1793, -533i32)
}

/// The numbers of the colour space BT.2020.
pub open spec fn bt2020() -> ColorSpaceUniform {
    uniform_with(-187i32, 2142, 1675, -650i32)
}

/// The numbers for the colour space of a source.
pub open spec fn uniform_of(space: Space) -> ColorSpaceUniform {
    match space {
        Space::Smpte170m | Space::Bt470bg => bt601(),
        Space::Bt2020ncl | Space::Bt2020cl => bt2020(),
        _ => bt709(),
    }
}

/// The red, green and blue of a pixel in thousandths, given its luma and its two chromas.
pub open spec fn rgb_of(uniform: ColorSpaceUniform, y: int, u: int, v: int) -> (int, int, int) {
    let luma = y + uniform.luma_offset;
    let blue = u + uniform.chroma_offset;
    let red = v + uniform.chroma_offset;
    (
        uniform.luma.red * luma + uniform.chroma_blue.red * blue + uniform.chroma_red.red * red,
        uniform.luma.green * luma + uniform.chroma_blue.green * blue + uniform.chroma_red.green
            * red,
        uniform.luma.blue * luma + uniform.chroma_blue.blue * blue + uniform.chroma_red.blue * red,
    )
}

/// Without chroma a pixel is grey in every colour space, and black at the lowest luma.
pub proof fn law_grey_stays_grey(space: Space, y: int)
    ensures
        ({
            let (red, green, blue) = rgb_of(uniform_of(space), y, 128, 128);
            red == 1164 * (y - 16) && green == red && blue == red
        }),
{
    let uniform = uniform_of(space);
    assert(128 + uniform.chroma_offset == 0);
}

/// The kind of the numbers in a texture.
#[derive(Debug, Clone, Copy, PartialEq, Eq, Structural)]
pub enum TextureFormat {
    R8Unorm,
    R16Unorm,
    Rg8Unorm,
    Rg16Unorm,
    Rgba8Unorm,
}

/// A texture that holds a plane of a picture.
#[derive(Debug, Clone, Copy, PartialEq, Eq, Structural)]
pub struct PlaneTexture {
    pub width: u32,
    pub height: u32,
    pub format: TextureFormat,
}

/// Whether a picture has ten bits a component.
pub open spec fn is_ten_bit(format: PixelFormat) -> bool {
    format == PixelFormat::P010le || format == PixelFormat::Yuv420p10 || format
        == PixelFormat::Yuv420p10le
}

/// Decides whether a picture has ten bits a component.
pub fn has_ten_bits(format: PixelFormat) -> (ten: bool)
    ensures
        ten == is_ten_bit(format),
{
    match format {
        PixelFormat::P010le | PixelFormat::Yuv420p10 | PixelFormat::Yuv420p10le => true,
        _ => false,
    }
}

/// How the shader reads the planes of a picture from a device: luma, and both chromas together.
#[derive(Debug, Clone, Copy, PartialEq, Eq, Structural)]
pub struct BindGroup {
    pub view_y: TextureFormat,
    pub view_uv: TextureFormat,
}

/// How the shader reads the planes of a picture that the processor decoded.
#[derive(Debug, Clone, Copy, PartialEq, Eq, Structural)]
pub struct FallbackBindGroup {
    pub view_y: TextureFormat,
    pub view_u: TextureFormat,
    pub view_v: TextureFormat,
}

/// What the converter holds.
#[derive(Debug, Clone, Copy, PartialEq, Eq, Structural)]
pub struct ColorSpaceConverter {
    pub uniform: ColorSpaceUniform,
    pub texture_y: Option<PlaneTexture>,
    pub texture_u: Option<PlaneTexture>,
    pub texture_v: Option<PlaneTexture>,
    pub texture_uv: Option<PlaneTexture>,
    pub bind_group: Option<BindGroup>,
    pub fallback_bind_group: Option<FallbackBindGroup>,
    /// Whether the texture that is shown has a view to draw on.
    pub has_playback_view: bool,
}

/// The plane of the luma of a picture.
pub open spec fn luma_plane(format: PixelFormat, width: u32, height: u32) -> PlaneTexture {
    PlaneTexture {
        width,
        height,
        format: if is_ten_bit(format) {
            TextureFormat::R16Unorm
        } else {
            TextureFormat::R8Unorm
        },
    }
}

/// The plane of both chromas of a picture.
pub open spec fn chroma_plane(format: PixelFormat, width: u32, height: u32) -> PlaneTexture {
    PlaneTexture {
        width: width / 2,
        height: height / 2,
        format: if is_ten_bit(format) {
            TextureFormat::Rg16Unorm
        } else {
            TextureFormat::Rg8Unorm
        },
    }
}

/// The plane of one chroma of a picture that the processor decoded.
pub open spec fn single_chroma_plane(width: u32, height: u32) -> PlaneTexture {
    PlaneTexture { width: width / 2, height: height / 2, format: TextureFormat::R8Unorm }
}

/// A converter that is ready for pictures of a source. What belongs to the other way of decoding
/// stays as it was.
pub open spec fn prepared(
    converter: ColorSpaceConverter,
    space: Space,
    format: PixelFormat,
    width: u32,
    height: u32,
    hardware: bool,
) -> ColorSpaceConverter {
    let common = ColorSpaceConverter {
        uniform: uniform_of(space),
        texture_y: Some(luma_plane(format, width, height)),
        has_playback_view: false,
        ..converter
    };
    if hardware {
        ColorSpaceConverter {
            texture_uv: Some(chroma_plane(format, width, height)),
            bind_group: Some(
                BindGroup {
                    view_y: luma_plane(format, width, height).format,
                    view_uv: chroma_plane(format, width, height).format,
                },
            ),
            ..common
        }
    } else {
        ColorSpaceConverter {
            texture_u: Some(single_chroma_plane(width, height)),
            texture_v: Some(single_chroma_plane(width, height)),
            fallback_bind_group: Some(
                FallbackBindGroup {
                    view_y: TextureFormat::R8Unorm,
                    view_u: TextureFormat::R8Unorm,
                    view_v: TextureFormat::R8Unorm,
                },
            ),
            ..common
        }
    }
}

/// The way a picture is drawn.
#[derive(Debug, Clone, Copy, PartialEq, Eq, Structural)]
pub enum Pipeline {
    /// For pictures from a device.
    Main,
    /// For pictures that the processor decoded.
    Fallback,
}

/// How a picture is drawn: its planes are copied to those textures that are there, a view is made
/// if there is none, and the pipeline draws.
#[derive(Debug, Clone, Copy, PartialEq, Eq, Structural)]
pub struct DrawPlan {
    pub make_view: bool,
    pub pipeline: Pipeline,
    /// The texture that gets plane 0.
    pub plane_0: Option<PlaneTexture>,
    /// The texture that gets plane 1: both chromas, or the first one.
    pub plane_1: Option<PlaneTexture>,
    /// The texture that gets plane 2: the second chroma.
    pub plane_2: Option<PlaneTexture>,
}

/// The window is not drawn by the graphics card.
#[derive(Debug, Clone, Copy, PartialEq, Eq, Structural)]
pub struct NoRenderState;

impl ColorSpaceConverter {
    /// Makes a converter without textures, if the window is drawn by the graphics card.
    pub fn new(has_render_state: bool) -> (converter: Result<ColorSpaceConverter, NoRenderState>)
        ensures
            converter == (if has_render_state {
                Ok::<ColorSpaceConverter, NoRenderState>(
                    ColorSpaceConverter {
                        uniform: bt709(),
                        texture_y: None,
                        texture_u: None,
                        texture_v: None,
                        texture_uv: None,
                        bind_group: None,
                        fallback_bind_group: None,
                        has_playback_view: false,
                    },
                )
            } else {
                Err(NoRenderState)
            }),
    {
        if !has_render_state {
            return Err(NoRenderState);
        }
        Ok(ColorSpaceConverter {
            uniform: Self::get_bt709_params(),
            texture_y: None,
            texture_u: None,
            texture_v: None,
            texture_uv: None,
            bind_group: None,
            fallback_bind_group: None,
            has_playback_view: false,
        })
    }

    /// The numbers of the colour space BT.601.
    pub fn get_bt601_params() -> (uniform: ColorSpaceUniform)
        ensures
            uniform == bt601(),
    {
        ColorSpaceUniform::new(
            Matrix {
                x_axis: Triple { x: 1164, y: 1164, z: 1164 },
                y_axis: Triple { x: 0, y: -391, z: 2018 },
                z_axis: Triple { x: 1596, y: -813, z: 0 },
            },
            -16,
            -128,
        )
    }

    /// The numbers of the colour space BT.709.
    pub fn get_bt709_params() -> (uniform: ColorSpaceUniform)
        ensures
            uniform == bt709(),
    {
        ColorSpaceUniform::new(
            Matrix {
                x_axis: Triple { x: 1164, y: 1164, z: 1164 },
                y_axis: Triple { x: 0, y: -213, z: 2112 },
                z_axis: Triple { x: 1793, y: -533, z: 0 },
            },
            -16,
            -128,
        )
    }

    /// The numbers of the colour space BT.2020.
    pub fn get_bt2020_params() -> (uniform: ColorSpaceUniform)
        ensures
            uniform == bt2020(),
    {
        ColorSpaceUniform::new(
            Matrix {
                x_axis: Triple { x: 1164, y: 1164, z: 1164 },
                y_axis: Triple { x: 0, y: -187, z: 2142 },
                z_axis: Triple { x: 1675, y: -650, z: 0 },
            },
            -16,
            -128,
        )
    }

    /// Gets ready for the pictures of a source.
    pub fn set_params_for_space(
        &mut self,
        color_space: Space,
        pixel_format: PixelFormat,
        width: u32,
        height: u32,
        hardware_flag: bool,
    )
        ensures
            *final(self) == prepared(
                *old(self),
                color_space,
                pixel_format,
                width,
                height,
                hardware_flag,
            ),
    {
        let uniform = match color_space {
            Space::Bt709 => Self::get_bt709_params(),
            Space::Smpte170m | Space::Bt470bg => Self::get_bt601_params(),
            Space::Bt2020ncl | Space::Bt2020cl => Self::get_bt2020_params(),
            Space::Other => Self::get_bt709_params(),
        };
        let (y_format, uv_format) = if has_ten_bits(pixel_format) {
            (TextureFormat::R16Unorm, TextureFormat::Rg16Unorm)
        } else {
            (TextureFormat::R8Unorm, TextureFormat::Rg8Unorm)
        };
        self.uniform = uniform;
        if hardware_flag {
            self.texture_uv = Some(
                PlaneTexture { width: width / 2, height: height / 2, format: uv_format },
            );
            self.bind_group = Some(BindGroup { view_y: y_format, view_uv: uv_format });
        } else {
            let chroma = PlaneTexture {
                width: width / 2,
                height: height / 2,
                format: TextureFormat::R8Unorm,
            };
            self.texture_u = Some(chroma);
            self.texture_v = Some(chroma);
            self.fallback_bind_group = Some(
                FallbackBindGroup {
                    view_y: TextureFormat::R8Unorm,
                    view_u: TextureFormat::R8Unorm,
                    view_v: TextureFormat::R8Unorm,
                },
            );
        }
        self.texture_y = Some(PlaneTexture { width, height, format: y_format });
        self.has_playback_view = false;
    }

    /// How a picture is drawn.
    pub open spec fn plan(self, is_hw_acc: bool) -> DrawPlan {
        DrawPlan {
            make_view: !self.has_playback_view,
            pipeline: if is_hw_acc {
                Pipeline::Main
            } else {
                Pipeline::Fallback
            },
            plane_0: self.texture_y,
            plane_1: if is_hw_acc {
                self.texture_uv
            } else {
                self.texture_u
            },
            plane_2: if is_hw_acc {
                None
            } else {
                self.texture_v
            },
        }
    }

    /// The converter when it has drawn a picture.
    pub open spec fn drawn(self) -> ColorSpaceConverter {
        ColorSpaceConverter { has_playback_view: true, ..self }
    }

    /// Decides how a picture is drawn. The view that is drawn on is kept for the next picture.
    pub fn render_video(&mut self, is_hw_acc: bool) -> (plan: DrawPlan)
        ensures
            plan == old(self).plan(is_hw_acc),
            *final(self) == old(self).drawn(),
    {
        let make_view = !self.has_playback_view;
        self.has_playback_view = true;
        if is_hw_acc {
            DrawPlan {
                make_view,
                pipeline: Pipeline::Main,
                plane_0: self.texture_y,
                plane_1: self.texture_uv,
                plane_2: None,
            }
        } else {
            DrawPlan {
                make_view,
                pipeline: Pipeline::Fallback,
                plane_0: self.texture_y,
                plane_1: self.texture_u,
                plane_2: self.texture_v,
            }
        }
    }
}

/// What a shader is given at one of its binding places.
#[derive(Debug, Clone, Copy, PartialEq, Eq, Structural)]
pub enum Binding {
    /// A texture in two dimensions that is read with filtering.
    Texture,
    /// The sampler that filters between pixels.
    Sampler,
    /// The numbers of the colour space.
    UniformBuffer,
}

/// What a pipeline is given in its first group: its planes, and then the sampler.
pub open spec fn planes_layout(pipeline: Pipeline) -> Seq<Binding> {
    match pipeline {
        Pipeline::Main => seq![Binding::Texture, Binding::Texture, Binding::Sampler],
        Pipeline::Fallback => seq![
            Binding::Texture,
            Binding::Texture,
            Binding::Texture,
            Binding::Sampler,
        ],
    }
}

impl Pipeline {
    /// What the pipeline is given in its first group.
    pub fn bind_group_layout(self) -> (layout: Vec<Binding>)
        ensures
            layout@ == planes_layout(self),
    {
        match self {
            Pipeline::Main => vec![Binding::Texture, Binding::Texture, Binding::Sampler],
            Pipeline::Fallback => vec![
                Binding::Texture,
                Binding::Texture,
                Binding::Texture,
                Binding::Sampler,
            ],
        }
    }

    /// What every pipeline is given in its second group.
    pub fn uniform_layout() -> (layout: Vec<Binding>)
        ensures
            layout@ == seq![Binding::UniformBuffer],
    {
        vec![Binding::UniformBuffer]
    }
}

/// A pipeline has a texture for each plane that is copied for it.
pub proof fn law_pipeline_reads_every_plane(
    converter: ColorSpaceConverter,
    space: Space,
    format: PixelFormat,
    width: u32,
    height: u32,
    hardware: bool,
)
    ensures
        ({
            let plan = prepared(converter, space, format, width, height, hardware).plan(hardware);
            let layout = planes_layout(plan.pipeline);
            &&& layout[0] == Binding::Texture && plan.plane_0 is Some
            &&& layout[1] == Binding::Texture && plan.plane_1 is Some
            &&& layout[2] == Binding::Texture <==> plan.plane_2 is Some
            &&& layout.last() == Binding::Sampler
        }),
{
}

/// The first picture of a source gets a new view and finds a texture for each of its planes; the
/// chroma has half the width and half the height.
pub proof fn law_first_picture(
    converter: ColorSpaceConverter,
    space: Space,
    format: PixelFormat,
    width: u32,
    height: u32,
    hardware: bool,
)
    ensures
        ({
            let ready = prepared(converter, space, format, width, height, hardware);
            let plan = ready.plan(hardware);
            &&& plan.make_view
            &&& plan.plane_0 matches Some(y) && y.width == width && y.height == height
            &&& plan.plane_1 matches Some(c) && c.width == width / 2 && c.height == height / 2
            &&& plan.plane_2 is Some <==> !hardware
            &&& hardware ==> ready.bind_group is Some
            &&& !hardware ==> ready.fallback_bind_group is Some
        }),
{
}

/// The shader reads every plane as what it is, but for pictures of ten bits that the processor
/// decoded.
pub proof fn law_planes_are_read_as_they_are(
    converter: ColorSpaceConverter,
    space: Space,
    format: PixelFormat,
    width: u32,
    height: u32,
    hardware: bool,
)
    requires
        hardware || !is_ten_bit(format),
    ensures
        ({
            let ready = prepared(converter, space, format, width, height, hardware);
            if hardware {
                &&& ready.bind_group.unwrap().view_y == ready.texture_y.unwrap().format
                &&& ready.bind_group.unwrap().view_uv == ready.texture_uv.unwrap().format
            } else {
                &&& ready.fallback_bind_group.unwrap().view_y == ready.texture_y.unwrap().format
                &&& ready.fallback_bind_group.unwrap().view_u == ready.texture_u.unwrap().format
                &&& ready.fallback_bind_group.unwrap().view_v == ready.texture_v.unwrap().format
            }
        }),
{
}

/// Whether `y`, `u` and `v` are the codes of a colour, each rounded to a whole number: the luma is
/// the mean of red, green and blue by the weights `kr`, `kg` and `kb` in parts of 10000, stretched
/// over 219 steps from 16 on; the chromas are the distances of blue and of red from it, stretched
/// over 224 steps around 128.
pub open spec fn encodes(
    weights: (int, int, int),
    colour: (int, int, int),
    y: int,
    u: int,
    v: int,
) -> bool {
    let (kr, kg, kb) = weights;
    let (r, g, b) = colour;
    let mean = kr * r + kg * g + kb * b;
    &&& -1275000 <= 2550000 * (y - 16) - 219 * mean <= 1275000
    &&& -255 * (10000 - kb) <= 2 * (255 * (10000 - kb) * (u - 128) - 112 * (10000 * b - mean)) <= 255 * (
    10000 - kb)
    &&& -255 * (10000 - kr) <= 2 * (255 * (10000 - kr) * (v - 128) - 112 * (10000 * r - mean)) <= 255 * (
    10000 - kr)
}

proof fn lemma_bt601(y: int, u: int, v: int)
    ensures
        rgb_of(bt601(), y, u, v) == (
            1164 * (y - 16) + 1596 * (v - 128),
            1164 * (y - 16) - 391 * (u - 128) - 813 * (v - 128),
            1164 * (y - 16) + 2018 * (u - 128),
        ),
{
    let uniform = bt601();
    let (luma, blue, red) = (y - 16, u - 128, v - 128);
    assert(uniform.luma.red * luma == 1164 * luma) by (nonlinear_arith)
        requires
            uniform.luma.red == 1164,
    ;
    assert(uniform.chroma_blue.red * blue == 0 && uniform.chroma_red.blue * red == 0) by (nonlinear_arith)
        requires
            uniform.chroma_blue.red == 0,
            uniform.chroma_red.blue == 0,
    ;
    assert(uniform.chroma_blue.green * blue == -391 * blue) by (nonlinear_arith)
        requires
            uniform.chroma_blue.green == -391,
    ;
    assert(uniform.chroma_blue.blue * blue == 2018 * blue) by (nonlinear_arith)
        requires
            uniform.chroma_blue.blue == 2018,
    ;
    assert(uniform.chroma_red.red * red == 1596 * red) by (nonlinear_arith)
        requires
            uniform.chroma_red.red == 1596,
    ;
    assert(uniform.chroma_red.green * red == -813 * red) by (nonlinear_arith)
        requires
            uniform.chroma_red.green == -813,
    ;
}

proof fn lemma_bt601_codes(colour: (int, int, int), y: int, u: int, v: int)
    requires
        encodes((2990int, 5870int, 1140int), colour, y, u, v),
    ensures
        ({
            let (r, g, b) = colour;
            let mean = 2990 * r + 5870 * g + 1140 * b;
            &&& -1275000 <= 2550000 * (y - 16) - 219 * mean <= 1275000
            &&& -2259300 <= 2 * (2259300 * (u - 128) - 112 * (10000 * b - mean))
                <= 2259300
            &&& -1787550 <= 2 * (1787550 * (v - 128) - 112 * (10000 * r - mean))
                <= 1787550
        }),
{
    let (kr, kg, kb) = (2990int, 5870int, 1140int);
    let (r, g, b) = colour;
    let (blue, red) = (u - 128, v - 128);
    assert(kr * r == 2990 * r && kg * g == 5870 * g && kb * b == 1140 * b) by (nonlinear_arith)
        requires
            kr == 2990,
            kg == 5870,
            kb == 1140,
    ;
    assert(255 * (10000 - kb) * blue == 2259300 * blue) by (nonlinear_arith)
        requires
            kb == 1140,
    ;
    assert(255 * (10000 - kr) * red == 1787550 * red) by (nonlinear_arith)
        requires
            kr == 2990,
    ;
}

proof fn lemma_bt709(y: int, u: int, v: int)
    ensures
        rgb_of(bt709(), y, u, v) == (
            1164 * (y - 16) + 1793 * (v - 128),
            1164 * (y - 16) - 213 * (u - 128) - 533 * (v - 128),
            1164 * (y - 16) + 2112 * (u - 128),
        ),
{
    let uniform = bt709();
    let (luma, blue, red) = (y - 16, u - 128, v - 128);
    assert(uniform.luma.red * luma == 1164 * luma) by (nonlinear_arith)
        requires
            uniform.luma.red == 1164,
    ;
    assert(uniform.chroma_blue.red * blue == 0 && uniform.chroma_red.blue * red == 0) by (nonlinear_arith)
        requires
            uniform.chroma_blue.red == 0,
            uniform.chroma_red.blue == 0,
    ;
    assert(uniform.chroma_blue.green * blue == -213 * blue) by (nonlinear_arith)
        requires
            uniform.chroma_blue.green == -213,
    ;
    assert(uniform.chroma_blue.blue * blue == 2112 * blue) by (nonlinear_arith)
        requires
            uniform.chroma_blue.blue == 2112,
    ;
    assert(uniform.chroma_red.red * red == 1793 * red) by (nonlinear_arith)
        requires
            uniform.chroma_red.red == 1793,
    ;
    assert(uniform.chroma_red.green * red == -533 * red) by (nonlinear_arith)
        requires
            uniform.chroma_red.green == -533,
    ;
}

proof fn lemma_bt709_codes(colour: (int, int, int), y: int, u: int, v: int)
    requires
        encodes((2126int, 7152int, 722int), colour, y, u, v),
    ensures
        ({
            let (r, g, b) = colour;
            let mean = 2126 * r + 7152 * g + 722 * b;
            &&& -1275000 <= 2550000 * (y - 16) - 219 * mean <= 1275000
            &&& -2365890 <= 2 * (2365890 * (u - 128) - 112 * (10000 * b - mean))
                <= 2365890
            &&& -2007870 <= 2 * (2007870 * (v - 128) - 112 * (10000 * r - mean))
                <= 2007870
        }),
{
    let (kr, kg, kb) = (2126int, 7152int, 722int);
    let (r, g, b) = colour;
    let (blue, red) = (u - 128, v - 128);
    assert(kr * r == 2126 * r && kg * g == 7152 * g && kb * b == 722 * b) by (nonlinear_arith)
        requires
            kr == 2126,
            kg == 7152,
            kb == 722,
    ;
    assert(255 * (10000 - kb) * blue == 2365890 * blue) by (nonlinear_arith)
        requires
            kb == 722,
    ;
    assert(255 * (10000 - kr) * red == 2007870 * red) by (nonlinear_arith)
        requires
            kr == 2126,
    ;
}

proof fn lemma_bt2020(y: int, u: int, v: int)
    ensures
        rgb_of(bt2020(), y, u, v) == (
            1164 * (y - 16) + 1675 * (v - 128),
            1164 * (y - 16) - 187 * (u - 128) - 650 * (v - 128),
            1164 * (y - 16) + 2142 * (u - 128),
        ),
{
    let uniform = bt2020();
    let (luma, blue, red) = (y - 16, u - 128, v - 128);
    assert(uniform.luma.red * luma == 1164 * luma) by (nonlinear_arith)
        requires
            uniform.luma.red == 1164,
    ;
    assert(uniform.chroma_blue.red * blue == 0 && uniform.chroma_red.blue * red == 0) by (nonlinear_arith)
        requires
            uniform.chroma_blue.red == 0,
            uniform.chroma_red.blue == 0,
    ;
    assert(uniform.chroma_blue.green * blue == -187 * blue) by (nonlinear_arith)
        requires
            uniform.chroma_blue.green == -187,
    ;
    assert(uniform.chroma_blue.blue * blue == 2142 * blue) by (nonlinear_arith)
        requires
            uniform.chroma_blue.blue == 2142,
    ;
    assert(uniform.chroma_red.red * red == 1675 * red) by (nonlinear_arith)
        requires
            uniform.chroma_red.red == 1675,
    ;
    assert(uniform.chroma_red.green * red == -650 * red) by (nonlinear_arith)
        requires
            uniform.chroma_red.green == -650,
    ;
}

proof fn lemma_bt2020_codes(colour: (int, int, int), y: int, u: int, v: int)
    requires
        encodes((2627int, 6780int, 593int), colour, y, u, v),
    ensures
        ({
            let (r, g, b) = colour;
            let mean = 2627 * r + 6780 * g + 593 * b;
            &&& -1275000 <= 2550000 * (y - 16) - 219 * mean <= 1275000
            &&& -2398785 <= 2 * (2398785 * (u - 128) - 112 * (10000 * b - mean))
                <= 2398785
            &&& -1880115 <= 2 * (1880115 * (v - 128) - 112 * (10000 * r - mean))
                <= 1880115
        }),
{
    let (kr, kg, kb) = (2627int, 6780int, 593int);
    let (r, g, b) = colour;
    let (blue, red) = (u - 128, v - 128);
    assert(kr * r == 2627 * r && kg * g == 6780 * g && kb * b == 593 * b) by (nonlinear_arith)
        requires
            kr == 2627,
            kg == 6780,
            kb == 593,
    ;
    assert(255 * (10000 - kb) * blue == 2398785 * blue) by (nonlinear_arith)
        requires
            kb == 593,
    ;
    assert(255 * (10000 - kr) * red == 1880115 * red) by (nonlinear_arith)
        requires
            kr == 2627,
    ;
}

/// Every colour comes out as itself: the codes that a colour has in a colour space give back its
/// red, green and blue, to within two and a half parts of 255. The weights are those of the
/// standard by which the source is encoded; what no standard is told for is taken for BT.709.
pub proof fn law_colours_come_out(
    space: Space,
    weights: (int, int, int),
    colour: (int, int, int),
    y: int,
    u: int,
    v: int,
)
    requires
        weights == match space {
            Space::Smpte170m | Space::Bt470bg => (2990int, 5870int, 1140int),
            Space::Bt2020ncl | Space::Bt2020cl => (2627int, 6780int, 593int),
            Space::Bt709 | Space::Other => (2126int, 7152int, 722int),
        },
        0 <= colour.0 <= 255,
        0 <= colour.1 <= 255,
        0 <= colour.2 <= 255,
        encodes(weights, colour, y, u, v),
    ensures
        ({
            let (red, green, blue) = rgb_of(uniform_of(space), y, u, v);
            &&& -2500 <= red - 1000 * colour.0 <= 2500
            &&& -2500 <= green - 1000 * colour.1 <= 2500
            &&& -2500 <= blue - 1000 * colour.2 <= 2500
        }),
{
    match space {
        Space::Smpte170m | Space::Bt470bg => {
            lemma_bt601(y, u, v);
            lemma_bt601_codes(colour, y, u, v);
        },
        Space::Bt2020ncl | Space::Bt2020cl => {
            lemma_bt2020(y, u, v);
            lemma_bt2020_codes(colour, y, u, v);
        },
        Space::Bt709 | Space::Other => {
            lemma_bt709(y, u, v);
            lemma_bt709_codes(colour, y, u, v);
        },
    }
}

/// In every colour space all three components grow with the luma. Red grows with the second chroma
/// and blue with the first, each leaves the other as it is, and green shrinks with both.
pub proof fn law_chroma_turns_colours(space: Space, y: int, u: int, v: int, step: int)
    requires
        step > 0,
    ensures
        ({
            let uniform = uniform_of(space);
            let (red, green, blue) = rgb_of(uniform, y, u, v);
            let lighter = rgb_of(uniform, y + step, u, v);
            let bluer = rgb_of(uniform, y, u + step, v);
            let redder = rgb_of(uniform, y, u, v + step);
            &&& lighter.0 > red && lighter.1 > green && lighter.2 > blue
            &&& bluer.0 == red && bluer.1 < green && bluer.2 > blue
            &&& redder.0 > red && redder.1 < green && redder.2 == blue
        }),
{
    lemma_bt601(y, u, v);
    lemma_bt601(y + step, u, v);
    lemma_bt601(y, u + step, v);
    lemma_bt601(y, u, v + step);
    lemma_bt709(y, u, v);
    lemma_bt709(y + step, u, v);
    lemma_bt709(y, u + step, v);
    lemma_bt709(y, u, v + step);
    lemma_bt2020(y, u, v);
    lemma_bt2020(y + step, u, v);
    lemma_bt2020(y, u + step, v);
    lemma_bt2020(y, u, v + step);
}

/// The shader reads a matrix by its columns: the first for luma, the others for the chromas, each
/// for red, green and blue in this order.
pub proof fn law_columns_keep_order(axis: Triple)
    ensures
        column_of(axis).red == axis.x,
        column_of(axis).green == axis.y,
        column_of(axis).blue == axis.z,
        column_of(axis).fill == 0,
{
}

/// How many bits a texture holds for each component.
pub open spec fn component_bits(format: TextureFormat) -> int {
    match format {
        TextureFormat::R8Unorm | TextureFormat::Rg8Unorm | TextureFormat::Rgba8Unorm => 8,
        TextureFormat::R16Unorm | TextureFormat::Rg16Unorm => 16,
    }
}

/// How many components a texture holds.
pub open spec fn components(format: TextureFormat) -> int {
    match format {
        TextureFormat::R8Unorm | TextureFormat::R16Unorm => 1,
        TextureFormat::Rg8Unorm | TextureFormat::Rg16Unorm => 2,
        TextureFormat::Rgba8Unorm => 4,
    }
}

/// The planes of pictures from a device have room for their bits: sixteen where a component has
/// ten, else eight. The luma is one component and both chromas are two, of half the width and half
/// the height. The processor's pictures have a plane of eight bits for each chroma. The numbers are
/// those of the colour space.
pub proof fn law_planes_have_room(
    converter: ColorSpaceConverter,
    space: Space,
    format: PixelFormat,
    width: u32,
    height: u32,
    hardware: bool,
)
    ensures
        ({
            let ready = prepared(converter, space, format, width, height, hardware);
            let bits = if format == PixelFormat::P010le || format == PixelFormat::Yuv420p10 || format
                == PixelFormat::Yuv420p10le {
                16int
            } else {
                8int
            };
            let luma = ready.texture_y.unwrap();
            &&& ready.texture_y is Some && component_bits(luma.format) == bits && components(
                luma.format,
            ) == 1 && luma.width == width && luma.height == height
            &&& hardware ==> {
                let chroma = ready.texture_uv.unwrap();
                &&& ready.texture_uv is Some && component_bits(chroma.format) == bits && components(
                    chroma.format,
                ) == 2 && chroma.width == width / 2 && chroma.height == height / 2
                &&& ready.texture_u == converter.texture_u && ready.texture_v == converter.texture_v
                &&& ready.fallback_bind_group == converter.fallback_bind_group
            }
            &&& !hardware ==> {
                let (one, two) = (ready.texture_u.unwrap(), ready.texture_v.unwrap());
                &&& ready.texture_u is Some && ready.texture_v is Some && one == two
                &&& component_bits(one.format) == 8 && components(one.format) == 1
                &&& one.width == width / 2 && one.height == height / 2
                &&& ready.texture_uv == converter.texture_uv && ready.bind_group
                    == converter.bind_group
                &&& ready.fallback_bind_group is Some && {
                    let views = ready.fallback_bind_group.unwrap();
                    &&& component_bits(views.view_y) == 8 && components(views.view_y) == 1
                    &&& component_bits(views.view_u) == 8 && components(views.view_u) == 1
                    &&& component_bits(views.view_v) == 8 && components(views.view_v) == 1
                }
            }
            &&& ready.uniform == uniform_of(space)
            &&& !ready.has_playback_view
        }),
{
}

/// Pictures from a device are drawn by their own pipeline with both chromas together, those of the
/// processor by the other with each chroma by itself. A view is made for the first picture only;
/// what is drawn after it is drawn the same way.
pub proof fn law_drawing(converter: ColorSpaceConverter, is_hw_acc: bool)
    ensures
        ({
            let plan = converter.plan(is_hw_acc);
            let next = converter.drawn().plan(is_hw_acc);
            &&& plan.pipeline == Pipeline::Main <==> is_hw_acc
            &&& plan.plane_0 == converter.texture_y
            &&& is_hw_acc ==> plan.plane_1 == converter.texture_uv && plan.plane_2 is None
            &&& !is_hw_acc ==> plan.plane_1 == converter.texture_u && plan.plane_2
                == converter.texture_v
            &&& plan.make_view <==> !converter.has_playback_view
            &&& !next.make_view
            &&& next.pipeline == plan.pipeline && next.plane_0 == plan.plane_0 && next.plane_1
                == plan.plane_1 && next.plane_2 == plan.plane_2
            &&& planes_layout(plan.pipeline).len() == if is_hw_acc {
                3int
            } else {
                4int
            }
            &&& converter.drawn().uniform == converter.uniform
        }),
{
}

} // verus!
