use vstd::prelude::*;

verus! {

/// 2D integer coordinates: `Coord(x, y)`, with `y` growing downward.
#[derive(Clone, Copy, Debug, PartialEq, Eq, Structural)]
pub struct Coord(pub i32, pub i32);

/// Whether `x + y` fits in an `i32`.
pub open spec fn fits_i32(v: int) -> bool {
    i32::MIN <= v <= i32::MAX
}

impl Coord {
    /// The coordinates as a pair of mathematical integers.
    pub open spec fn view(self) -> (int, int) {
        (self.0 as int, self.1 as int)
    }
}

impl Default for Coord {
    fn default() -> (r: Coord)
        ensures
            r@ == (0int, 0int),
    {
        Coord(0, 0)
    }
}

impl core::ops::Add for Coord {
    type Output = Coord;

    fn add(self, rhs: Coord) -> (r: Coord) {
        Coord(self.0 + rhs.0, self.1 + rhs.1)
    }
}

impl vstd::std_specs::ops::AddSpecImpl for Coord {
    open spec fn obeys_add_spec() -> bool {
        true
    }

    open spec fn add_req(self, rhs: Coord) -> bool {
        fits_i32(self.0 + rhs.0) && fits_i32(self.1 + rhs.1)
    }

    open spec fn add_spec(self, rhs: Coord) -> Coord {
        Coord((self.0 + rhs.0) as i32, (self.1 + rhs.1) as i32)
    }
}

impl core::ops::Add<(i32, i32)> for Coord {
    type Output = Coord;

    fn add(self, rhs: (i32, i32)) -> (r: Coord) {
        Coord(self.0 + rhs.0, self.1 + rhs.1)
    }
}

impl vstd::std_specs::ops::AddSpecImpl<(i32, i32)> for Coord {
    open spec fn obeys_add_spec() -> bool {
        true
    }

    open spec fn add_req(self, rhs: (i32, i32)) -> bool {
        fits_i32(self.0 + rhs.0) && fits_i32(self.1 + rhs.1)
    }

    open spec fn add_spec(self, rhs: (i32, i32)) -> Coord {
        Coord((self.0 + rhs.0) as i32, (self.1 + rhs.1) as i32)
    }
}

} // verus!
