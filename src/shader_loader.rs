//! Builders that gather shader names or shader files for linking a program.
use vstd::prelude::*;

use crate::gliw::program::{present, stage_order};
use crate::gliw::shader::ShaderType;

verus! {

/// Keeps the names that are set (not zero), with their stages, in stage order.
pub open spec fn named(names: Seq<u32>) -> Seq<(ShaderType, u32)>
    decreases names.len(),
{
    if names.len() == 0 {
        Seq::empty()
    } else {
        let rest = named(names.drop_last());
        if names.last() != 0 {
            rest.push((stage_order()[names.len() - 1], names.last()))
        } else {
            rest
        }
    }
}

/// Gathers the names of compiled shaders to link into a program; zero stands
/// for none.
pub struct ProgramLinkBuilder {
    cs: u32,
    vs: u32,
    tcs: u32,
    tes: u32,
    gs: u32,
    fs: u32,
}

impl ProgramLinkBuilder {
    /// The shader names per stage, in stage order.
    pub closed spec fn slots(&self) -> Seq<u32> {
        seq![self.cs, self.vs, self.tcs, self.tes, self.gs, self.fs]
    }

    pub fn new() -> (r: ProgramLinkBuilder)
        ensures
            r.slots() == seq![0u32, 0, 0, 0, 0, 0],
    {
        ProgramLinkBuilder { cs: 0, vs: 0, tcs: 0, tes: 0, gs: 0, fs: 0 }
    }

    pub fn attach_cs(&mut self, name: u32)
        ensures
            final(self).slots() == old(self).slots().update(0, name),
    {
        self.cs = name;
    }

    pub fn attach_vs(&mut self, name: u32)
        ensures
            final(self).slots() == old(self).slots().update(1, name),
    {
        self.vs = name;
    }

    pub fn attach_tcs(&mut self, name: u32)
        ensures
            final(self).slots() == old(self).slots().update(2, name),
    {
        self.tcs = name;
    }

    pub fn attach_tes(&mut self, name: u32)
        ensures
            final(self).slots() == old(self).slots().update(3, name),
    {
        self.tes = name;
    }

    pub fn attach_gs(&mut self, name: u32)
        ensures
            final(self).slots() == old(self).slots().update(4, name),
    {
        self.gs = name;
    }

    pub fn attach_fs(&mut self, name: u32)
        ensures
            final(self).slots() == old(self).slots().update(5, name),
    {
        self.fs = name;
    }

    /// The shaders to attach when linking, in stage order.
    pub fn attached(&self) -> (r: Vec<(ShaderType, u32)>)
        ensures
            r@ == named(self.slots()),
    {
        let names = [self.cs, self.vs, self.tcs, self.tes, self.gs, self.fs];
        let stages = [
            ShaderType::Compute,
            ShaderType::Vertex,
            ShaderType::TessControl,
            ShaderType::TessEvaluation,
            ShaderType::Geometry,
            ShaderType::Fragment,
        ];
        let mut r: Vec<(ShaderType, u32)> = Vec::new();
        let mut k: usize = 0;
        while k < 6
            invariant
                k <= 6,
                names@ == self.slots(),
                stages@ == stage_order(),
                r@ == named(names@.subrange(0, k as int)),
            decreases 6 - k,
        {
            proof {
                assert(names@.subrange(0, k as int + 1).drop_last() =~= names@.subrange(0, k as int));
            }
            if names[k] != 0 {
                r.push((stages[k], names[k]));
            }
            k += 1;
        }
        proof {
            assert(names@.subrange(0, 6) =~= names@);
        }
        r
    }
}

/// Gathers the files holding shader code to compile and link into a program.
pub struct ProgramBuilder<'a> {
    cs_path: Option<&'a str>,
    vs_path: Option<&'a str>,
    tcs_path: Option<&'a str>,
    tes_path: Option<&'a str>,
    gs_path: Option<&'a str>,
    fs_path: Option<&'a str>,
}

impl<'a> ProgramBuilder<'a> {
    /// The file paths per stage, in stage order.
    pub closed spec fn slots(&self) -> Seq<Option<&'a str>> {
        seq![self.cs_path, self.vs_path, self.tcs_path, self.tes_path, self.gs_path, self.fs_path]
    }

    pub fn new() -> (r: ProgramBuilder<'a>)
        ensures
            r.slots() == seq![None::<&'a str>, None, None, None, None, None],
    {
        ProgramBuilder {
            cs_path: None,
            vs_path: None,
            tcs_path: None,
            tes_path: None,
            gs_path: None,
            fs_path: None,
        }
    }

    pub fn cs_path(&mut self, path: &'a str) -> (r: &mut ProgramBuilder<'a>)
        ensures
            r.slots() == old(self).slots().update(0, Some(path)),
            *final(self) == *final(r),
    {
        self.cs_path = Some(path);
        self
    }

    pub fn vs_path(&mut self, path: &'a str) -> (r: &mut ProgramBuilder<'a>)
        ensures
            r.slots() == old(self).slots().update(1, Some(path)),
            *final(self) == *final(r),
    {
        self.vs_path = Some(path);
        self
    }

    pub fn tcs_path(&mut self, path: &'a str) -> (r: &mut ProgramBuilder<'a>)
        ensures
            r.slots() == old(self).slots().update(2, Some(path)),
            *final(self) == *final(r),
    {
        self.tcs_path = Some(path);
        self
    }

    pub fn tes_path(&mut self, path: &'a str) -> (r: &mut ProgramBuilder<'a>)
        ensures
            r.slots() == old(self).slots().update(3, Some(path)),
            *final(self) == *final(r),
    {
        self.tes_path = Some(path);
        self
    }

    pub fn gs_path(&mut self, path: &'a str) -> (r: &mut ProgramBuilder<'a>)
        ensures
            r.slots() == old(self).slots().update(4, Some(path)),
            *final(self) == *final(r),
    {
        self.gs_path = Some(path);
        self
    }

    pub fn fs_path(&mut self, path: &'a str) -> (r: &mut ProgramBuilder<'a>)
        ensures
            r.slots() == old(self).slots().update(5, Some(path)),
            *final(self) == *final(r),
    {
        self.fs_path = Some(path);
        self
    }

    /// The files to compile, in stage order.
    pub fn sources(&self) -> (r: Vec<(ShaderType, &'a str)>)
        ensures
            r@ == present(self.slots()),
    {
        let slots = [self.cs_path, self.vs_path, self.tcs_path, self.tes_path, self.gs_path, self.fs_path];
        let r = crate::gliw::program::collect_present(slots);
        proof {
            assert(slots@ =~= self.slots());
        }
        r
    }
}

} // verus!
