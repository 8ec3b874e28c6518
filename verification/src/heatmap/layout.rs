//! How the instances of the heatmap lie in the buffers that the shaders read.
use vstd::prelude::*;

verus! {

/// How many bytes the corner of a quad takes.
pub const VERTEX_STRIDE: u64 = 8;

/// How many bytes a rectangle takes.
pub const RECT_STRIDE: u64 = 52;

/// How many bytes a circle takes.
pub const CIRCLE_STRIDE: u64 = 36;

/// How many bytes the camera takes: two vectors of four numbers.
pub const CAMERA_UNIFORM_BYTES: u64 = 32;

/// How many bytes the parameters take: eight vectors of four numbers.
pub const PARAMS_UNIFORM_BYTES: u64 = 128;

/// What an attribute holds.
#[derive(Debug, Clone, Copy, PartialEq, Eq, Structural)]
pub enum AttributeFormat {
    Float32,
    Float32x2,
    Float32x4,
    Sint32,
    Uint32,
}

impl AttributeFormat {
    /// How many bytes the attribute takes.
    pub open spec fn spec_size(self) -> int {
        match self {
            AttributeFormat::Float32x2 => 8,
            AttributeFormat::Float32x4 => 16,
            _ => 4,
        }
    }

    /// How many bytes the attribute takes.
    pub fn size(self) -> (n: u64)
        ensures
            n == self.spec_size(),
    {
        match self {
            AttributeFormat::Float32x2 => 8,
            AttributeFormat::Float32x4 => 16,
            _ => 4,
        }
    }
}

/// An attribute of an instance, and the place of the shader that it goes to.
#[derive(Debug, Clone, Copy, PartialEq, Eq, Structural)]
pub struct Attribute {
    pub offset: u64,
    pub location: u32,
    pub format: AttributeFormat,
}

/// The attributes lie one after the other within `stride` bytes, on multiples of four, and go to
/// the places from one on.
pub open spec fn is_layout(attributes: Seq<Attribute>, stride: int) -> bool {
    &&& stride % 4 == 0
    &&& forall|i: int|
        0 <= i < attributes.len() ==> {
            &&& (#[trigger] attributes[i]).location == i + 1
            &&& attributes[i].offset % 4 == 0
            &&& attributes[i].offset + attributes[i].format.spec_size() <= stride
        }
    &&& forall|i: int, j: int|
        0 <= i < j < attributes.len() ==> (#[trigger] attributes[i]).offset
            + attributes[i].format.spec_size() <= (#[trigger] attributes[j]).offset
}

fn attribute(offset: u64, location: u32, format: AttributeFormat) -> (a: Attribute)
    ensures
        a == (Attribute { offset, location, format }),
{
    Attribute { offset, location, format }
}

/// The attributes of a rectangle: its center, its size, its colour, its first bin and the one
/// after its last, whether it is placed by bins, how it fades, and how much of a pixel it covers.
pub fn rect_attributes() -> (r: Vec<Attribute>)
    ensures
        is_layout(r@, RECT_STRIDE as int),
        r@.len() == 8,
        r@[0].format == AttributeFormat::Float32x2,
        r@[1].format == AttributeFormat::Float32x2,
        r@[2].format == AttributeFormat::Float32x4,
        r@[3].format == AttributeFormat::Sint32,
        r@[4].format == AttributeFormat::Sint32,
        r@[5].format == AttributeFormat::Uint32,
        r@[6].format == AttributeFormat::Uint32,
        r@[7].format == AttributeFormat::Float32,
        r@[7].offset + 4 == RECT_STRIDE,
{
    let mut r: Vec<Attribute> = Vec::new();
    r.push(attribute(0, 1, AttributeFormat::Float32x2));
    r.push(attribute(8, 2, AttributeFormat::Float32x2));
    r.push(attribute(16, 3, AttributeFormat::Float32x4));
    r.push(attribute(32, 4, AttributeFormat::Sint32));
    r.push(attribute(36, 5, AttributeFormat::Sint32));
    r.push(attribute(40, 6, AttributeFormat::Uint32));
    r.push(attribute(44, 7, AttributeFormat::Uint32));
    r.push(attribute(48, 8, AttributeFormat::Float32));
    r
}

/// The attributes of a circle: its height, its bin, where in the bin it lies, its radius and, after
/// a gap of four bytes, its colour.
pub fn circle_attributes() -> (r: Vec<Attribute>)
    ensures
        is_layout(r@, CIRCLE_STRIDE as int),
        r@.len() == 5,
        r@[0].format == AttributeFormat::Float32,
        r@[1].format == AttributeFormat::Sint32,
        r@[2].format == AttributeFormat::Float32,
        r@[3].format == AttributeFormat::Float32,
        r@[3].offset + 4 == 16,
        r@[4].format == AttributeFormat::Float32x4,
        r@[4].offset == 20,
{
    let mut r: Vec<Attribute> = Vec::new();
    r.push(attribute(0, 1, AttributeFormat::Float32));
    r.push(attribute(4, 2, AttributeFormat::Sint32));
    r.push(attribute(8, 3, AttributeFormat::Float32));
    r.push(attribute(12, 4, AttributeFormat::Float32));
    r.push(attribute(20, 5, AttributeFormat::Float32x4));
    r
}

/// The corners of a quad, in halves of its sides.
pub fn quad_corners() -> (r: Vec<(i8, i8)>)
    ensures
        r@ == seq![(-1i8, -1i8), (1i8, -1i8), (1i8, 1i8), (-1i8, 1i8)],
{
    let mut r: Vec<(i8, i8)> = Vec::new();
    r.push((-1, -1));
    r.push((1, -1));
    r.push((1, 1));
    r.push((-1, 1));
    r
}

/// The corners of the two triangles that a quad is drawn as.
pub fn quad_indices() -> (r: Vec<u16>)
    ensures
        r@ == seq![0u16, 1u16, 2u16, 2u16, 3u16, 0u16],
{
    let mut r: Vec<u16> = Vec::new();
    r.push(0);
    r.push(1);
    r.push(2);
    r.push(2);
    r.push(3);
    r.push(0);
    r
}

/// No two attributes of a layout share a byte.
pub proof fn attributes_do_not_overlap(attributes: Seq<Attribute>, stride: int, i: int, j: int, byte: int)
    requires
        is_layout(attributes, stride),
        0 <= i < attributes.len(),
        0 <= j < attributes.len(),
        i != j,
        attributes[i].offset <= byte < attributes[i].offset + attributes[i].format.spec_size(),
    ensures
        !(attributes[j].offset <= byte < attributes[j].offset + attributes[j].format.spec_size()),
        0 <= byte < stride,
{
}

} // verus!
