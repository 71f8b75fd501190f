use vstd::prelude::*;

verus! {

/// Data formats of a floating point vertex attribute.
///
/// Most variants carry the number of components, 1 to 4, and whether integer
/// data is normalized. `*_BGRA` variants take four components in BGRA order and
/// are normalized.
#[allow(non_camel_case_types)]
#[derive(Clone, Copy, Debug, PartialEq, Eq)]
pub enum AttribFloatFormat {
    Byte(i32, bool),
    Ubyte(i32, bool),
    Short(i32, bool),
    Ushort(i32, bool),
    Int(i32, bool),
    Uint(i32, bool),
    HalfFloat(i32),
    Float(i32),
    Double(i32),
    Fixed(i32),
    Int_2_10_10_10_Rev(bool),
    Uint_2_10_10_10_Rev(bool),
    Uint_10f_11f_11f_Rev(bool),
    Ubyte_BGRA,
    Int_2_10_10_10_Rev_BGRA,
    Uint_2_10_10_10_Rev_BGRA,
}

/// Data formats of an integer vertex attribute, each with its number of
/// components, 1 to 4.
#[derive(Clone, Copy, Debug, PartialEq, Eq)]
pub enum AttribIntFormat {
    Byte(i32),
    Ubyte(i32),
    Short(i32),
    Ushort(i32),
    Int(i32),
    Uint(i32),
}

/// The type of one component in the vertex buffer.
#[derive(Clone, Copy, Debug, PartialEq, Eq)]
pub enum ComponentType {
    Byte,
    Ubyte,
    Short,
    Ushort,
    Int,
    Uint,
    HalfFloat,
    Float,
    Double,
    Fixed,
    Int2101010Rev,
    Uint2101010Rev,
    Uint10f11f11fRev,
}

/// How many components an attribute has: a count, or four in BGRA order.
#[derive(Clone, Copy, Debug, PartialEq, Eq)]
pub enum ComponentCount {
    Count(i32),
    Bgra,
}

/// The arguments of an attribute pointer call, apart from the offset.
#[derive(Clone, Copy, Debug, PartialEq, Eq)]
pub struct PointerArgs {
    pub index: u32,
    pub size: ComponentCount,
    pub component: ComponentType,
    pub normalized: bool,
    pub stride: i32,
}

/// Why an attribute format was refused.
#[derive(Clone, Copy, Debug, PartialEq, Eq)]
pub enum AttribError {
    /// The stride is negative.
    NegativeStride,
    /// The location is negative, or not below the driver's attribute count.
    BadLocation,
    /// The component count is not between 1 and 4.
    InvalidSize,
}

pub open spec fn valid_size(size: i32) -> bool {
    1 <= size <= 4
}

/// The size, component type and normalization of a float format, or `None`
/// when its component count is out of range.
pub open spec fn float_layout(f: AttribFloatFormat) -> Option<(ComponentCount, ComponentType, bool)> {
    let sized = |s: i32, t: ComponentType, n: bool|
        if valid_size(s) {
            Some((ComponentCount::Count(s), t, n))
        } else {
            None
        };
    match f {
        AttribFloatFormat::Byte(s, n) => sized(s, ComponentType::Byte, n),
        AttribFloatFormat::Ubyte(s, n) => sized(s, ComponentType::Ubyte, n),
        AttribFloatFormat::Short(s, n) => sized(s, ComponentType::Short, n),
        AttribFloatFormat::Ushort(s, n) => sized(s, ComponentType::Ushort, n),
        AttribFloatFormat::Int(s, n) => sized(s, ComponentType::Int, n),
        AttribFloatFormat::Uint(s, n) => sized(s, ComponentType::Uint, n),
        AttribFloatFormat::HalfFloat(s) => sized(s, ComponentType::HalfFloat, false),
        AttribFloatFormat::Float(s) => sized(s, ComponentType::Float, false),
        AttribFloatFormat::Double(s) => sized(s, ComponentType::Double, false),
        AttribFloatFormat::Fixed(s) => sized(s, ComponentType::Fixed, false),
        AttribFloatFormat::Int_2_10_10_10_Rev(n) => Some((ComponentCount::Count(4), ComponentType::Int2101010Rev, n)),
        AttribFloatFormat::Uint_2_10_10_10_Rev(n) => Some((ComponentCount::Count(4), ComponentType::Uint2101010Rev, n)),
        AttribFloatFormat::Uint_10f_11f_11f_Rev(n) => Some((ComponentCount::Count(3), ComponentType::Uint10f11f11fRev, n)),
        AttribFloatFormat::Ubyte_BGRA => Some((ComponentCount::Bgra, ComponentType::Ubyte, true)),
        AttribFloatFormat::Int_2_10_10_10_Rev_BGRA => Some((ComponentCount::Bgra, ComponentType::Int2101010Rev, true)),
        AttribFloatFormat::Uint_2_10_10_10_Rev_BGRA => Some((ComponentCount::Bgra, ComponentType::Uint2101010Rev, true)),
    }
}

/// The component count and type of an integer format, or `None` when the count
/// is out of range.
pub open spec fn int_layout(f: AttribIntFormat) -> Option<(i32, ComponentType)> {
    let (s, t) = match f {
        AttribIntFormat::Byte(s) => (s, ComponentType::Byte),
        AttribIntFormat::Ubyte(s) => (s, ComponentType::Ubyte),
        AttribIntFormat::Short(s) => (s, ComponentType::Short),
        AttribIntFormat::Ushort(s) => (s, ComponentType::Ushort),
        AttribIntFormat::Int(s) => (s, ComponentType::Int),
        AttribIntFormat::Uint(s) => (s, ComponentType::Uint),
    };
    if valid_size(s) {
        Some((s, t))
    } else {
        None
    }
}

fn sized(s: i32, t: ComponentType, n: bool) -> (r: Option<(ComponentCount, ComponentType, bool)>)
    ensures
        r == (if valid_size(s) {
            Some((ComponentCount::Count(s), t, n))
        } else {
            None
        }),
{
    if 1 <= s && s <= 4 {
        Some((ComponentCount::Count(s), t, n))
    } else {
        None
    }
}

impl AttribFloatFormat {
    /// The size, component type and normalization this format stands for.
    pub fn layout(&self) -> (r: Option<(ComponentCount, ComponentType, bool)>)
        ensures
            r == float_layout(*self),
    {
        match *self {
            AttribFloatFormat::Byte(s, n) => sized(s, ComponentType::Byte, n),
            AttribFloatFormat::Ubyte(s, n) => sized(s, ComponentType::Ubyte, n),
            AttribFloatFormat::Short(s, n) => sized(s, ComponentType::Short, n),
            AttribFloatFormat::Ushort(s, n) => sized(s, ComponentType::Ushort, n),
            AttribFloatFormat::Int(s, n) => sized(s, ComponentType::Int, n),
            AttribFloatFormat::Uint(s, n) => sized(s, ComponentType::Uint, n),
            AttribFloatFormat::HalfFloat(s) => sized(s, ComponentType::HalfFloat, false),
            AttribFloatFormat::Float(s) => sized(s, ComponentType::Float, false),
            AttribFloatFormat::Double(s) => sized(s, ComponentType::Double, false),
            AttribFloatFormat::Fixed(s) => sized(s, ComponentType::Fixed, false),
            AttribFloatFormat::Int_2_10_10_10_Rev(n) => Some((ComponentCount::Count(4), ComponentType::Int2101010Rev, n)),
            AttribFloatFormat::Uint_2_10_10_10_Rev(n) => Some((ComponentCount::Count(4), ComponentType::Uint2101010Rev, n)),
            AttribFloatFormat::Uint_10f_11f_11f_Rev(n) => Some((ComponentCount::Count(3), ComponentType::Uint10f11f11fRev, n)),
            AttribFloatFormat::Ubyte_BGRA => Some((ComponentCount::Bgra, ComponentType::Ubyte, true)),
            AttribFloatFormat::Int_2_10_10_10_Rev_BGRA => Some((ComponentCount::Bgra, ComponentType::Int2101010Rev, true)),
            AttribFloatFormat::Uint_2_10_10_10_Rev_BGRA => Some((ComponentCount::Bgra, ComponentType::Uint2101010Rev, true)),
        }
    }
}

impl AttribIntFormat {
    /// The component count and type this format stands for.
    pub fn layout(&self) -> (r: Option<(i32, ComponentType)>)
        ensures
            r == int_layout(*self),
    {
        let (s, t) = match *self {
            AttribIntFormat::Byte(s) => (s, ComponentType::Byte),
            AttribIntFormat::Ubyte(s) => (s, ComponentType::Ubyte),
            AttribIntFormat::Short(s) => (s, ComponentType::Short),
            AttribIntFormat::Ushort(s) => (s, ComponentType::Ushort),
            AttribIntFormat::Int(s) => (s, ComponentType::Int),
            AttribIntFormat::Uint(s) => (s, ComponentType::Uint),
        };
        if 1 <= s && s <= 4 {
            Some((s, t))
        } else {
            None
        }
    }
}

/// A vertex attribute location.
///
/// Nothing guarantees that an attribute lives there: the driver reports `-1`
/// both for a missing name and for one that was optimized out.
pub struct VertexAttrib {
    handle: i32,
}

/// Which of the three checks on an attribute pointer call fails first, if any.
pub open spec fn pointer_check(handle: i32, stride: i32, max_vertex_attribs: i32) -> Option<AttribError> {
    if stride < 0 {
        Some(AttribError::NegativeStride)
    } else if handle < 0 || handle >= max_vertex_attribs {
        Some(AttribError::BadLocation)
    } else {
        None
    }
}

impl VertexAttrib {
    /// An attribute at a location chosen by the caller, for instance with a
    /// layout qualifier in the shader.
    pub fn new(handle: i32) -> (r: VertexAttrib)
        ensures
            r.location() == handle,
    {
        VertexAttrib { handle }
    }

    pub closed spec fn location(&self) -> i32 {
        self.handle
    }

    /// Gets the underlying attribute location.
    pub fn handle(&self) -> (r: i32)
        ensures
            r == self.location(),
    {
        self.handle
    }

    /// The arguments for pointing this attribute at float data of the given
    /// format; `max_vertex_attribs` is the driver's attribute count.
    pub fn float_pointer(&self, format: AttribFloatFormat, stride: i32, max_vertex_attribs: i32) -> (r:
        Result<PointerArgs, AttribError>)
        ensures
            pointer_check(self.location(), stride, max_vertex_attribs) matches Some(e) ==> r == Err::<
                PointerArgs,
                AttribError,
            >(e),
            pointer_check(self.location(), stride, max_vertex_attribs) is None ==> match float_layout(format) {
                Some((size, component, normalized)) => r == Ok::<PointerArgs, AttribError>(
                    PointerArgs { index: self.location() as u32, size, component, normalized, stride },
                ),
                None => r == Err::<PointerArgs, AttribError>(AttribError::InvalidSize),
            },
    {
        if stride < 0 {
            return Err(AttribError::NegativeStride);
        }
        if self.handle < 0 || self.handle >= max_vertex_attribs {
            return Err(AttribError::BadLocation);
        }
        match format.layout() {
            Some((size, component, normalized)) => Ok(
                PointerArgs { index: self.handle as u32, size, component, normalized, stride },
            ),
            None => Err(AttribError::InvalidSize),
        }
    }

    /// The arguments for pointing this attribute at integer data of the given
    /// format; `max_vertex_attribs` is the driver's attribute count.
    pub fn int_pointer(&self, format: AttribIntFormat, stride: i32, max_vertex_attribs: i32) -> (r:
        Result<PointerArgs, AttribError>)
        ensures
            pointer_check(self.location(), stride, max_vertex_attribs) matches Some(e) ==> r == Err::<
                PointerArgs,
                AttribError,
            >(e),
            pointer_check(self.location(), stride, max_vertex_attribs) is None ==> match int_layout(format) {
                Some((size, component)) => r == Ok::<PointerArgs, AttribError>(
                    PointerArgs {
                        index: self.location() as u32,
                        size: ComponentCount::Count(size),
                        component,
                        normalized: false,
                        stride,
                    },
                ),
                None => r == Err::<PointerArgs, AttribError>(AttribError::InvalidSize),
            },
    {
        if stride < 0 {
            return Err(AttribError::NegativeStride);
        }
        if self.handle < 0 || self.handle >= max_vertex_attribs {
            return Err(AttribError::BadLocation);
        }
        match format.layout() {
            Some((size, component)) => Ok(
                PointerArgs {
                    index: self.handle as u32,
                    size: ComponentCount::Count(size),
                    component,
                    normalized: false,
                    stride,
                },
            ),
            None => Err(AttribError::InvalidSize),
        }
    }
}

} // verus!
