use engine::color::Color;
use engine::gliw::vert_attrib::{AttribError, ComponentCount, ComponentType, PointerArgs};
use engine::gliw::{
    AttribFloatFormat, AttribIntFormat, AttribLocation, Program, ProgramBuilder,
    ProgramFromFileBuilder, Shader, ShaderType, Vao, VertexAttrib,
};
use engine::overlay::geometry::Rgba;
use engine::shader_loader::{ProgramBuilder as FileProgramBuilder, ProgramLinkBuilder};

#[test]
fn handles_are_kept() {
    assert_eq!(Program::from_handle(7).handle(), 7);
    assert_eq!(Shader::from_handle(3).handle(), 3);
    assert_eq!(Vao::from_handle(11).handle(), 11);
    assert_eq!(VertexAttrib::new(-1).handle(), -1);
    assert_eq!(AttribLocation::from_handle(2).handle(), 2);
}

#[test]
fn builder_lists_attached_shaders_in_stage_order() {
    let vs = Shader::from_handle(5);
    let fs = Shader::from_handle(6);
    let gs = Shader::from_handle(9);
    let mut b = ProgramBuilder::new();
    b.attach_fs(&fs).attach_vs(&vs);
    assert_eq!(b.attached(), vec![(ShaderType::Vertex, 5), (ShaderType::Fragment, 6)]);
    b.attach_gs(&gs).attach_vs(&fs);
    assert_eq!(
        b.attached(),
        vec![(ShaderType::Vertex, 6), (ShaderType::Geometry, 9), (ShaderType::Fragment, 6)]
    );
    let cs = Shader::from_handle(1);
    let mut c = ProgramBuilder::new();
    c.attach_cs(&cs).attach_tcs(&vs).attach_tes(&fs);
    assert_eq!(
        c.attached(),
        vec![(ShaderType::Compute, 1), (ShaderType::TessControl, 5), (ShaderType::TessEvaluation, 6)]
    );
    assert!(ProgramBuilder::new().attached().is_empty());
}

#[test]
fn file_builders_list_sources() {
    let mut b = ProgramFromFileBuilder::new();
    b.vs_path("a.vs").fs_path("a.fs").cs_path("a.cs");
    assert_eq!(
        b.sources(),
        vec![(ShaderType::Compute, "a.cs"), (ShaderType::Vertex, "a.vs"), (ShaderType::Fragment, "a.fs")]
    );
    let mut c = FileProgramBuilder::new();
    c.gs_path("g").tcs_path("t").tes_path("e");
    assert_eq!(
        c.sources(),
        vec![(ShaderType::TessControl, "t"), (ShaderType::TessEvaluation, "e"), (ShaderType::Geometry, "g")]
    );
}

#[test]
fn link_builder_skips_zero_names() {
    let mut b = ProgramLinkBuilder::new();
    b.attach_vs(4);
    b.attach_fs(8);
    b.attach_gs(0);
    assert_eq!(b.attached(), vec![(ShaderType::Vertex, 4), (ShaderType::Fragment, 8)]);
    b.attach_cs(1);
    b.attach_tcs(2);
    b.attach_tes(3);
    b.attach_fs(0);
    assert_eq!(
        b.attached(),
        vec![
            (ShaderType::Compute, 1),
            (ShaderType::Vertex, 4),
            (ShaderType::TessControl, 2),
            (ShaderType::TessEvaluation, 3)
        ]
    );
}

#[test]
fn float_pointer_arguments() {
    let a = VertexAttrib::new(2);
    assert_eq!(
        a.float_pointer(AttribFloatFormat::Float(3), 32, 16),
        Ok(PointerArgs {
            index: 2,
            size: ComponentCount::Count(3),
            component: ComponentType::Float,
            normalized: false,
            stride: 32
        })
    );
    assert_eq!(
        a.float_pointer(AttribFloatFormat::Ubyte(4, true), 0, 16),
        Ok(PointerArgs {
            index: 2,
            size: ComponentCount::Count(4),
            component: ComponentType::Ubyte,
            normalized: true,
            stride: 0
        })
    );
    assert_eq!(
        a.float_pointer(AttribFloatFormat::Ubyte_BGRA, 0, 16).unwrap().size,
        ComponentCount::Bgra
    );
    assert_eq!(
        a.float_pointer(AttribFloatFormat::Uint_10f_11f_11f_Rev(false), 0, 16).unwrap().size,
        ComponentCount::Count(3)
    );
    assert_eq!(a.float_pointer(AttribFloatFormat::Float(5), 0, 16), Err(AttribError::InvalidSize));
    assert_eq!(a.float_pointer(AttribFloatFormat::Byte(0, false), 0, 16), Err(AttribError::InvalidSize));
    assert_eq!(a.float_pointer(AttribFloatFormat::Float(2), -4, 16), Err(AttribError::NegativeStride));
    assert_eq!(a.float_pointer(AttribFloatFormat::Float(2), 0, 2), Err(AttribError::BadLocation));
    assert_eq!(
        VertexAttrib::new(-1).float_pointer(AttribFloatFormat::Float(2), 0, 16),
        Err(AttribError::BadLocation)
    );
}

#[test]
fn int_pointer_arguments() {
    let a = VertexAttrib::new(0);
    assert_eq!(
        a.int_pointer(AttribIntFormat::Ushort(2), 8, 16),
        Ok(PointerArgs {
            index: 0,
            size: ComponentCount::Count(2),
            component: ComponentType::Ushort,
            normalized: false,
            stride: 8
        })
    );
    assert_eq!(a.int_pointer(AttribIntFormat::Int(7), 8, 16), Err(AttribError::InvalidSize));
    assert_eq!(a.int_pointer(AttribIntFormat::Int(1), -1, 16), Err(AttribError::NegativeStride));
}

#[test]
fn color_from_rgba() {
    assert_eq!(Color::from_rgba(1, 2, 3, 4), Rgba { r: 1, g: 2, b: 3, a: 4 });
}
