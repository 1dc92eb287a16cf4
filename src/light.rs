use vstd::prelude::*;

verus! {

/// The kinds of light source that a scene may hold.
#[derive(Debug, Clone, Copy, PartialEq, Eq, Structural)]
pub enum LightType {
    /// A light that shines from a single point, with no size and no fall-off.
    Point,
}

} // verus!
