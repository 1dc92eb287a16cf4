use vstd::prelude::*;

verus! {

/// A value laid out on a grid of `width` columns and `height` rows.
pub trait TwoDimensional {
    /// The number of columns.
    spec fn spec_width(&self) -> nat;

    /// The number of rows.
    spec fn spec_height(&self) -> nat;

    fn width(&self) -> (r: usize)
        ensures
            r == self.spec_width(),
    ;

    fn height(&self) -> (r: usize)
        ensures
            r == self.spec_height(),
    ;
}

} // verus!
