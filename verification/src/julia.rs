//! The fractal's parameters and the per-frame pipeline that readies them for
//! the device: extract, prepare, queue, dispatch.
//!
//! The numeric parameters are raw 32-bit words (the bit patterns of the
//! single-precision numbers that the shader reads); nothing here looks inside
//! them. So is the realized size that the texture registry reports, which
//! goes into the uniform block as it is. The size that sizes the dispatch is
//! a pair of pixel counts.

use vstd::prelude::*;

verus! {

/// The edge of the square tile that one compute workgroup covers.
pub const WORKGROUP_EDGE: u32 = 8;

/// The binding of the scalar-field texture in the compute shader.
pub const FIELD_BINDING: u32 = 0;

/// The binding of the uniform block in the compute shader.
pub const PARAMS_BINDING: u32 = 1;

/// Two 32-bit words: a point or a complex number.
#[derive(Clone, Copy, Debug, PartialEq, Eq, Structural)]
pub struct Pair {
    pub x: u32,
    pub y: u32,
}

/// The dimensions of a texture, in pixels.
#[derive(Clone, Copy, Debug, PartialEq, Eq, Structural)]
pub struct JuliaSize {
    pub w: u32,
    pub h: u32,
}

/// One fractal instance as the application describes it.
#[derive(Clone, Copy, Debug, PartialEq, Eq, Structural)]
pub struct JuliaData {
    pub c: Pair,
    pub view_center: Pair,
    pub view_scale: u32,
    pub view_aspect: u32,
    pub iters: u32,
    /// The texture that receives the scalar field.
    pub image: u64,
}

/// The uniform block, field by field in the order in which the shader
/// declares it.
#[derive(Clone, Copy, Debug, PartialEq, Eq, Structural)]
pub struct JuliaBuffer {
    pub c: Pair,
    pub w: u32,
    pub h: u32,
    pub view_center: Pair,
    pub view_scale: u32,
    pub view_aspect: u32,
    pub iters: u32,
}

/// Parameters that are ready for the device.
#[derive(Clone, Copy, Debug, PartialEq, Eq, Structural)]
pub struct GpuJuliaData {
    pub params: JuliaBuffer,
}

/// What an attempt to prepare an asset comes to.
#[derive(Clone, Copy, Debug, PartialEq, Eq, Structural)]
pub enum Prepared {
    /// The target texture is realized and the parameters are built.
    Ready(GpuJuliaData),
    /// The target texture is not realized yet: the asset comes back
    /// untouched, to be tried again on the next frame.
    Pending(JuliaData),
}

/// What extraction records of the active asset for one frame.
#[derive(Clone, Copy, Debug, PartialEq, Eq, Structural)]
pub struct JuliaImage {
    pub image: u64,
    pub size: JuliaSize,
}

/// The two resources that the compute shader is bound to: the scalar-field
/// texture at `FIELD_BINDING` and the parameters at `PARAMS_BINDING`.
#[derive(Clone, Copy, Debug, PartialEq, Eq, Structural)]
pub struct JuliaBindGroup {
    pub texture: u64,
    pub params: JuliaBuffer,
}

/// A compute dispatch: workgroup counts along x, y and z.
#[derive(Clone, Copy, Debug, PartialEq, Eq, Structural)]
pub struct Workgroups {
    pub x: u32,
    pub y: u32,
    pub z: u32,
}

/// The two textures that follow the window: the scalar field and the
/// displayed output.
#[derive(Clone, Copy, Debug, PartialEq, Eq, Structural)]
pub struct Textures {
    pub field: JuliaSize,
    pub output: JuliaSize,
}

/// The frame-scoped state of the compute pipeline. Each frame's stages
/// overwrite what the frame before left.
#[derive(Clone, Copy, Debug, PartialEq, Eq, Structural)]
pub struct JuliaPipeline {
    /// The asset as extracted, waiting to be prepared.
    pub asset: Option<JuliaData>,
    /// The texture reference and dimensions recorded by extraction.
    pub target: Option<JuliaImage>,
    /// The parameters prepared this frame.
    pub prepared: Option<GpuJuliaData>,
    /// The bind group queued this frame.
    pub bind_group: Option<JuliaBindGroup>,
}

/// The number of workgroups that cover `len` pixels: `len / 8`, rounded up.
pub open spec fn workgroups_spec(len: int) -> int {
    (len + 7) / 8
}

/// The dispatch that covers a texture of the given size.
pub open spec fn dispatch_spec(size: JuliaSize) -> Workgroups {
    Workgroups {
        x: workgroups_spec(size.w as int) as u32,
        y: workgroups_spec(size.h as int) as u32,
        z: 1,
    }
}

/// Workgroups of edge 8 cover every pixel, and none of them lies wholly
/// outside the texture.
pub proof fn lemma_workgroups_cover(len: int)
    requires
        0 <= len,
    ensures
        8 * workgroups_spec(len) >= len,
        8 * (workgroups_spec(len) - 1) < len || len == 0,
        len == 0 ==> workgroups_spec(len) == 0,
{
}

/// The number of workgroups that cover `len` pixels.
pub fn workgroup_count(len: u32) -> (r: u32)
    ensures
        r == workgroups_spec(len as int),
{
    if len % WORKGROUP_EDGE == 0 {
        len / WORKGROUP_EDGE
    } else {
        len / WORKGROUP_EDGE + 1
    }
}

/// The point of a path of `len` points that frame number `frame` shows: the
/// path is played in a loop, one point a frame.
pub fn path_index(frame: usize, len: usize) -> (r: usize)
    requires
        len > 0,
    ensures
        r == frame % len,
{
    frame % len
}

/// A window resize: both textures take the window's size exactly, and the
/// asset takes the new aspect ratio (the window's width over its height, as
/// a 32-bit word). Nothing else of the asset changes.
pub fn window_size(
    data: &mut JuliaData,
    textures: &mut Textures,
    size: JuliaSize,
    view_aspect: u32,
)
    ensures
        *final(data) == (JuliaData { view_aspect, ..*old(data) }),
        *final(textures) == (Textures { field: size, output: size }),
{
    data.view_aspect = view_aspect;
    textures.field = size;
    textures.output = size;
}

impl JuliaBuffer {
    /// The uniform block for an asset whose target texture has the given
    /// realized size.
    pub open spec fn new_spec(data: JuliaData, size: Pair) -> JuliaBuffer {
        JuliaBuffer {
            c: data.c,
            w: size.x,
            h: size.y,
            view_center: data.view_center,
            view_scale: data.view_scale,
            view_aspect: data.view_aspect,
            iters: data.iters,
        }
    }

    /// Builds the uniform block: the asset's numbers, and the width (`x`) and
    /// height (`y`) of the realized texture.
    pub fn new(data: &JuliaData, size: Pair) -> (r: JuliaBuffer)
        ensures
            r == JuliaBuffer::new_spec(*data, size),
    {
        JuliaBuffer {
            c: data.c,
            w: size.x,
            h: size.y,
            view_center: data.view_center,
            view_scale: data.view_scale,
            view_aspect: data.view_aspect,
            iters: data.iters,
        }
    }

    /// The block as the device reads it, word by word: c, width, height,
    /// view centre, view scale, view aspect, iterations, and one word of
    /// padding that fills the block to a multiple of two words.
    pub open spec fn layout(self) -> Seq<u32> {
        seq![
            self.c.x,
            self.c.y,
            self.w,
            self.h,
            self.view_center.x,
            self.view_center.y,
            self.view_scale,
            self.view_aspect,
            self.iters,
            0u32,
        ]
    }

    /// The words of the block, in the order and with the padding of the
    /// uniform layout.
    pub fn words(&self) -> (r: Vec<u32>)
        ensures
            r@ == self.layout(),
    {
        let mut out: Vec<u32> = Vec::new();
        out.push(self.c.x);
        out.push(self.c.y);
        out.push(self.w);
        out.push(self.h);
        out.push(self.view_center.x);
        out.push(self.view_center.y);
        out.push(self.view_scale);
        out.push(self.view_aspect);
        out.push(self.iters);
        out.push(0);
        assert(out@ =~= self.layout());
        out
    }
}

impl JuliaData {
    /// What preparing `data` comes to, given what the texture registry has
    /// for its target texture.
    pub open spec fn prepare_spec(data: JuliaData, image: Option<Pair>) -> Prepared {
        match image {
            Some(size) => Prepared::Ready(
                GpuJuliaData { params: JuliaBuffer::new_spec(data, size) },
            ),
            None => Prepared::Pending(data),
        }
    }

    /// The copy of the asset that the render side works on.
    pub fn extract_asset(&self) -> (r: JuliaData)
        ensures
            r == *self,
    {
        *self
    }

    /// Prepares the asset for the device. `image` is what the texture
    /// registry holds for `data.image`: its realized size, or nothing while
    /// the texture is not realized. With a size the parameters are built,
    /// always; without one the asset is handed back as it came.
    pub fn prepare_asset(data: JuliaData, image: Option<Pair>) -> (r: Prepared)
        ensures
            r == JuliaData::prepare_spec(data, image),
    {
        match image {
            Some(size) => Prepared::Ready(GpuJuliaData { params: JuliaBuffer::new(&data, size) }),
            None => Prepared::Pending(data),
        }
    }
}

impl JuliaPipeline {
    /// The bind group that queueing publishes: one only where parameters were
    /// prepared this frame and a target was extracted.
    pub open spec fn queued(self) -> Option<JuliaBindGroup> {
        match (self.prepared, self.target) {
            (Some(gpu), Some(target)) => Some(
                JuliaBindGroup { texture: target.image, params: gpu.params },
            ),
            _ => None,
        }
    }

    /// The dispatch that is due: one only where a bind group is published
    /// and a target was extracted.
    pub open spec fn due(self) -> Option<Workgroups> {
        match (self.bind_group, self.target) {
            (Some(_), Some(target)) => Some(dispatch_spec(target.size)),
            _ => None,
        }
    }

    /// A pipeline on which no frame has run.
    pub fn new() -> (r: JuliaPipeline)
        ensures
            r == (JuliaPipeline { asset: None, target: None, prepared: None, bind_group: None }),
    {
        JuliaPipeline { asset: None, target: None, prepared: None, bind_group: None }
    }

    /// Stage one: starts a frame. Records the asset, its texture reference
    /// and that texture's current size, and drops what the frame before
    /// published.
    pub fn extract(&mut self, data: &JuliaData, size: JuliaSize)
        ensures
            *final(self) == (JuliaPipeline {
                asset: Some(*data),
                target: Some(JuliaImage { image: data.image, size }),
                prepared: None,
                bind_group: None,
            }),
    {
        self.asset = Some(data.extract_asset());
        self.target = Some(JuliaImage { image: data.image, size });
        self.prepared = None;
        self.bind_group = None;
    }

    /// Stage two: prepares the extracted asset. `image` is what the texture
    /// registry holds for the target. Returns whether parameters were
    /// published; where they were not, the asset stays in place for the next
    /// attempt.
    pub fn prepare(&mut self, image: Option<Pair>) -> (ready: bool)
        ensures
            ready == (old(self).asset.is_some() && image.is_some()),
            final(self).asset == old(self).asset,
            final(self).target == old(self).target,
            final(self).bind_group == old(self).bind_group,
            final(self).prepared == (match old(self).asset {
                Some(data) => match JuliaData::prepare_spec(data, image) {
                    Prepared::Ready(gpu) => Some(gpu),
                    Prepared::Pending(_) => None,
                },
                None => None,
            }),
    {
        match self.asset {
            Some(data) => match JuliaData::prepare_asset(data, image) {
                Prepared::Ready(gpu) => {
                    self.prepared = Some(gpu);
                    true
                },
                Prepared::Pending(back) => {
                    self.asset = Some(back);
                    self.prepared = None;
                    false
                },
            },
            None => {
                self.prepared = None;
                false
            },
        }
    }

    /// Stage three: publishes the bind group where this frame's preparation
    /// succeeded, and withdraws it where it did not.
    pub fn queue(&mut self)
        ensures
            *final(self) == (JuliaPipeline { bind_group: old(self).queued(), ..*old(self) }),
    {
        self.bind_group = match (self.prepared, self.target) {
            (Some(gpu), Some(target)) => Some(
                JuliaBindGroup { texture: target.image, params: gpu.params },
            ),
            _ => None,
        };
    }

    /// Stage four: the compute dispatch to submit, sized to the extracted
    /// texture; nothing where no bind group is published.
    pub fn dispatch(&self) -> (r: Option<Workgroups>)
        ensures
            r == self.due(),
    {
        match (self.bind_group, self.target) {
            (Some(_), Some(target)) => Some(
                Workgroups {
                    x: workgroup_count(target.size.w),
                    y: workgroup_count(target.size.h),
                    z: 1,
                },
            ),
            _ => None,
        }
    }

    /// One frame: the four stages in their fixed order. `size` is the current
    /// size of the asset's texture, `image` what the texture registry holds
    /// for it. A dispatch comes back exactly when the registry has the
    /// texture; it covers `size`, and the published parameters carry the
    /// registry's dimensions.
    pub fn run_frame(&mut self, data: &JuliaData, size: JuliaSize, image: Option<Pair>) -> (r:
        Option<Workgroups>)
        ensures
            final(self).asset == Some(*data),
            final(self).target == Some(JuliaImage { image: data.image, size }),
            match image {
                Some(realized) => {
                    &&& r == Some(dispatch_spec(size))
                    &&& final(self).prepared == Some(
                        GpuJuliaData { params: JuliaBuffer::new_spec(*data, realized) },
                    )
                    &&& final(self).bind_group == Some(
                        JuliaBindGroup {
                            texture: data.image,
                            params: JuliaBuffer::new_spec(*data, realized),
                        },
                    )
                },
                None => {
                    &&& r == None::<Workgroups>
                    &&& final(self).prepared == None::<GpuJuliaData>
                    &&& final(self).bind_group == None::<JuliaBindGroup>
                },
            },
    {
        self.extract(data, size);
        self.prepare(image);
        self.queue();
        self.dispatch()
    }
}

} // verus!
