use vstd::prelude::*;

use super::shader::{Shader, ShaderType};

verus! {

/// A linked program object, known by its driver-side name.
///
/// Made with `ProgramBuilder` or `ProgramFromFileBuilder`.
pub struct Program {
    handle: u32,
}

impl Program {
    /// Wraps a name that the driver returned for a linked program.
    pub fn from_handle(handle: u32) -> (r: Program)
        ensures
            r.name() == handle,
    {
        Program { handle }
    }

    /// The driver-side name of the program.
    pub closed spec fn name(&self) -> u32 {
        self.handle
    }

    /// Gets the underlying OpenGL handle.
    pub fn handle(&self) -> (r: u32)
        ensures
            r == self.name(),
    {
        self.handle
    }
}

/// The stages in the order in which shaders are attached to a program.
pub open spec fn stage_order() -> Seq<ShaderType> {
    seq![
        ShaderType::Compute,
        ShaderType::Vertex,
        ShaderType::TessControl,
        ShaderType::TessEvaluation,
        ShaderType::Geometry,
        ShaderType::Fragment,
    ]
}

/// Keeps, of a sequence of optional entries in stage order, the stages that
/// have one, with the entry.
pub open spec fn present<T>(slots: Seq<Option<T>>) -> Seq<(ShaderType, T)>
    decreases slots.len(),
{
    if slots.len() == 0 {
        Seq::empty()
    } else {
        let rest = present(slots.drop_last());
        match slots.last() {
            Some(v) => rest.push((stage_order()[slots.len() - 1], v)),
            None => rest,
        }
    }
}

/// Collects the entries that are set, in stage order.
pub(crate) fn collect_present<T: Copy>(slots: [Option<T>; 6]) -> (r: Vec<(ShaderType, T)>)
    ensures
        r@ == present(slots@),
{
    let stages = [
        ShaderType::Compute,
        ShaderType::Vertex,
        ShaderType::TessControl,
        ShaderType::TessEvaluation,
        ShaderType::Geometry,
        ShaderType::Fragment,
    ];
    let mut r: Vec<(ShaderType, T)> = Vec::new();
    let mut k: usize = 0;
    while k < 6
        invariant
            k <= 6,
            stages@ == stage_order(),
            r@ == present(slots@.subrange(0, k as int)),
        decreases 6 - k,
    {
        proof {
            assert(slots@.subrange(0, k as int + 1).drop_last() =~= slots@.subrange(0, k as int));
        }
        if let Some(v) = slots[k] {
            r.push((stages[k], v));
        }
        k += 1;
    }
    proof {
        assert(slots@.subrange(0, 6) =~= slots@);
    }
    r
}

/// Records the compiled shaders that a program is to be linked from, at most
/// one per stage.
pub struct ProgramBuilder {
    cs: Option<u32>,
    vs: Option<u32>,
    tcs: Option<u32>,
    tes: Option<u32>,
    gs: Option<u32>,
    fs: Option<u32>,
}

impl ProgramBuilder {
    /// The shader names per stage, in stage order.
    pub closed spec fn slots(&self) -> Seq<Option<u32>> {
        seq![self.cs, self.vs, self.tcs, self.tes, self.gs, self.fs]
    }

    pub fn new() -> (r: ProgramBuilder)
        ensures
            r.slots() == seq![None::<u32>, None, None, None, None, None],
    {
        ProgramBuilder { cs: None, vs: None, tcs: None, tes: None, gs: None, fs: None }
    }

    /// Sets the compute shader to attach.
    pub fn attach_cs(&mut self, shader: &Shader) -> (r: &mut ProgramBuilder)
        ensures
            r.slots() == old(self).slots().update(0, Some(shader.name())),
            *final(self) == *final(r),
    {
        self.cs = Some(shader.handle());
        self
    }

    /// Sets the vertex shader to attach.
    pub fn attach_vs(&mut self, shader: &Shader) -> (r: &mut ProgramBuilder)
        ensures
            r.slots() == old(self).slots().update(1, Some(shader.name())),
            *final(self) == *final(r),
    {
        self.vs = Some(shader.handle());
        self
    }

    /// Sets the tessellation control shader to attach.
    pub fn attach_tcs(&mut self, shader: &Shader) -> (r: &mut ProgramBuilder)
        ensures
            r.slots() == old(self).slots().update(2, Some(shader.name())),
            *final(self) == *final(r),
    {
        self.tcs = Some(shader.handle());
        self
    }

    /// Sets the tessellation evaluation shader to attach.
    pub fn attach_tes(&mut self, shader: &Shader) -> (r: &mut ProgramBuilder)
        ensures
            r.slots() == old(self).slots().update(3, Some(shader.name())),
            *final(self) == *final(r),
    {
        self.tes = Some(shader.handle());
        self
    }

    /// Sets the geometry shader to attach.
    pub fn attach_gs(&mut self, shader: &Shader) -> (r: &mut ProgramBuilder)
        ensures
            r.slots() == old(self).slots().update(4, Some(shader.name())),
            *final(self) == *final(r),
    {
        self.gs = Some(shader.handle());
        self
    }

    /// Sets the fragment shader to attach.
    pub fn attach_fs(&mut self, shader: &Shader) -> (r: &mut ProgramBuilder)
        ensures
            r.slots() == old(self).slots().update(5, Some(shader.name())),
            *final(self) == *final(r),
    {
        self.fs = Some(shader.handle());
        self
    }

    /// The shaders to attach when linking, in stage order.
    pub fn attached(&self) -> (r: Vec<(ShaderType, u32)>)
        ensures
            r@ == present(self.slots()),
    {
        let r = collect_present([self.cs, self.vs, self.tcs, self.tes, self.gs, self.fs]);
        proof {
            assert([self.cs, self.vs, self.tcs, self.tes, self.gs, self.fs]@ =~= self.slots());
        }
        r
    }
}

/// Records the files holding shader code that a program is to be compiled and
/// linked from, at most one per stage.
pub struct ProgramFromFileBuilder<'a> {
    cs_path: Option<&'a str>,
    vs_path: Option<&'a str>,
    tcs_path: Option<&'a str>,
    tes_path: Option<&'a str>,
    gs_path: Option<&'a str>,
    fs_path: Option<&'a str>,
}

impl<'a> ProgramFromFileBuilder<'a> {
    /// The file paths per stage, in stage order.
    pub closed spec fn slots(&self) -> Seq<Option<&'a str>> {
        seq![self.cs_path, self.vs_path, self.tcs_path, self.tes_path, self.gs_path, self.fs_path]
    }

    pub fn new() -> (r: ProgramFromFileBuilder<'a>)
        ensures
            r.slots() == seq![None::<&'a str>, None, None, None, None, None],
    {
        ProgramFromFileBuilder {
            cs_path: None,
            vs_path: None,
            tcs_path: None,
            tes_path: None,
            gs_path: None,
            fs_path: None,
        }
    }

    /// Sets the file holding compute shader code.
    pub fn cs_path(&mut self, path: &'a str) -> (r: &mut ProgramFromFileBuilder<'a>)
        ensures
            r.slots() == old(self).slots().update(0, Some(path)),
            *final(self) == *final(r),
    {
        self.cs_path = Some(path);
        self
    }

    /// Sets the file holding vertex shader code.
    pub fn vs_path(&mut self, path: &'a str) -> (r: &mut ProgramFromFileBuilder<'a>)
        ensures
            r.slots() == old(self).slots().update(1, Some(path)),
            *final(self) == *final(r),
    {
        self.vs_path = Some(path);
        self
    }

    /// Sets the file holding tessellation control shader code.
    pub fn tcs_path(&mut self, path: &'a str) -> (r: &mut ProgramFromFileBuilder<'a>)
        ensures
            r.slots() == old(self).slots().update(2, Some(path)),
            *final(self) == *final(r),
    {
        self.tcs_path = Some(path);
        self
    }

    /// Sets the file holding tessellation evaluation shader code.
    pub fn tes_path(&mut self, path: &'a str) -> (r: &mut ProgramFromFileBuilder<'a>)
        ensures
            r.slots() == old(self).slots().update(3, Some(path)),
            *final(self) == *final(r),
    {
        self.tes_path = Some(path);
        self
    }

    /// Sets the file holding geometry shader code.
    pub fn gs_path(&mut self, path: &'a str) -> (r: &mut ProgramFromFileBuilder<'a>)
        ensures
            r.slots() == old(self).slots().update(4, Some(path)),
            *final(self) == *final(r),
    {
        self.gs_path = Some(path);
        self
    }

    /// Sets the file holding fragment shader code.
    pub fn fs_path(&mut self, path: &'a str) -> (r: &mut ProgramFromFileBuilder<'a>)
        ensures
            r.slots() == old(self).slots().update(5, Some(path)),
            *final(self) == *final(r),
    {
        self.fs_path = Some(path);
        self
    }

    /// The files to compile, in stage order.
    pub fn sources(&self) -> (r: Vec<(ShaderType, &'a str)>)
        ensures
            r@ == present(self.slots()),
    {
        let slots = [self.cs_path, self.vs_path, self.tcs_path, self.tes_path, self.gs_path, self.fs_path];
        let r = collect_present(slots);
        proof {
            assert(slots@ =~= self.slots());
        }
        r
    }
}

} // verus!
