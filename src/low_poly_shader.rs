//! The flat-shaded render pass that chunk meshes are drawn with: its name and
//! the vertex layout it expects, which is the layout the mesh buffers follow.

use vstd::prelude::*;

verus! {

/// One attribute of a mesh vertex as the pass reads it.
#[derive(Clone, Copy, Debug, PartialEq, Eq, Structural)]
pub enum VertexAttribute {
    Position,
    Normal,
    TexCoord,
    JointCombined,
}

/// A flat 3D pass: one normal per triangle, no smoothing.
#[derive(Clone, Copy, Debug, PartialEq, Eq, Structural)]
pub struct MyFlatPassDef;

impl MyFlatPassDef {
    /// The pass's name.
    pub fn name() -> (r: &'static str)
        ensures
            r@ == "Flat"@,
    {
        "Flat"
    }

    /// Layout of an unskinned vertex: position, normal, texture coordinate.
    pub fn base_format() -> (r: Vec<VertexAttribute>)
        ensures
            r@ == seq![VertexAttribute::Position, VertexAttribute::Normal, VertexAttribute::TexCoord],
    {
        let mut v: Vec<VertexAttribute> = Vec::new();
        v.push(VertexAttribute::Position);
        v.push(VertexAttribute::Normal);
        v.push(VertexAttribute::TexCoord);
        v
    }

    /// Layout of a skinned vertex: the unskinned layout, then the joints.
    pub fn skinned_format() -> (r: Vec<VertexAttribute>)
        ensures
            r@ == seq![
                VertexAttribute::Position,
                VertexAttribute::Normal,
                VertexAttribute::TexCoord,
                VertexAttribute::JointCombined,
            ],
    {
        let mut v = MyFlatPassDef::base_format();
        v.push(VertexAttribute::JointCombined);
        v
    }
}

} // verus!
