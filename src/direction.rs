//! The six axis-aligned face directions and their fixed tables.
use vstd::prelude::*;

verus! {

/// One of the six axis-aligned face directions of a voxel.
#[derive(Clone, Copy, PartialEq, Eq, Structural, Debug)]
pub enum FaceDir {
    PosX,
    NegX,
    PosY,
    NegY,
    PosZ,
    NegZ,
}

/// Position of a direction in the table order `+X, -X, +Y, -Y, +Z, -Z`.
pub open spec fn dir_index(d: FaceDir) -> int {
    match d {
        FaceDir::PosX => 0,
        FaceDir::NegX => 1,
        FaceDir::PosY => 2,
        FaceDir::NegY => 3,
        FaceDir::PosZ => 4,
        FaceDir::NegZ => 5,
    }
}

/// The direction at a position of the table order.
pub open spec fn dir_at(i: int) -> FaceDir {
    if i == 0 {
        FaceDir::PosX
    } else if i == 1 {
        FaceDir::NegX
    } else if i == 2 {
        FaceDir::PosY
    } else if i == 3 {
        FaceDir::NegY
    } else if i == 4 {
        FaceDir::PosZ
    } else {
        FaceDir::NegZ
    }
}

/// The unit step from a voxel to its neighbour across the face.
pub open spec fn dir_delta(d: FaceDir) -> (int, int, int) {
    match d {
        FaceDir::PosX => (1, 0, 0),
        FaceDir::NegX => (-1, 0, 0),
        FaceDir::PosY => (0, 1, 0),
        FaceDir::NegY => (0, -1, 0),
        FaceDir::PosZ => (0, 0, 1),
        FaceDir::NegZ => (0, 0, -1),
    }
}

/// The direction pointing the other way.
pub open spec fn dir_opposite(d: FaceDir) -> FaceDir {
    match d {
        FaceDir::PosX => FaceDir::NegX,
        FaceDir::NegX => FaceDir::PosX,
        FaceDir::PosY => FaceDir::NegY,
        FaceDir::NegY => FaceDir::PosY,
        FaceDir::PosZ => FaceDir::NegZ,
        FaceDir::NegZ => FaceDir::PosZ,
    }
}

/// The bit of a voxel type's occlusion flags that stands for its face in
/// direction `d` (west, east, down, up, north, south are bits 0 to 5).
pub open spec fn occlusion_bit(d: FaceDir) -> u32 {
    match d {
        FaceDir::PosX => 1,
        FaceDir::NegX => 0,
        FaceDir::PosY => 3,
        FaceDir::NegY => 2,
        FaceDir::PosZ => 5,
        FaceDir::NegZ => 4,
    }
}

/// The direction whose unit step is `(dx, dy, dz)`, if there is one.
pub open spec fn dir_of_delta(dx: int, dy: int, dz: int) -> Option<FaceDir> {
    if dx == 1 && dy == 0 && dz == 0 {
        Some(FaceDir::PosX)
    } else if dx == -1 && dy == 0 && dz == 0 {
        Some(FaceDir::NegX)
    } else if dx == 0 && dy == 1 && dz == 0 {
        Some(FaceDir::PosY)
    } else if dx == 0 && dy == -1 && dz == 0 {
        Some(FaceDir::NegY)
    } else if dx == 0 && dy == 0 && dz == 1 {
        Some(FaceDir::PosZ)
    } else if dx == 0 && dy == 0 && dz == -1 {
        Some(FaceDir::NegZ)
    } else {
        None
    }
}

/// The quantized outward normal: 127 times the unit step.
pub open spec fn dir_normal(d: FaceDir) -> (int, int, int) {
    match d {
        FaceDir::PosX => (127, 0, 0),
        FaceDir::NegX => (-127, 0, 0),
        FaceDir::PosY => (0, 127, 0),
        FaceDir::NegY => (0, -127, 0),
        FaceDir::PosZ => (0, 0, 127),
        FaceDir::NegZ => (0, 0, -127),
    }
}

impl FaceDir {
    /// The direction at position `i` of the table order.
    pub fn from_index(i: usize) -> (r: FaceDir)
        requires
            i < 6,
        ensures
            r == dir_at(i as int),
            dir_index(r) == i,
    {
        if i == 0 {
            FaceDir::PosX
        } else if i == 1 {
            FaceDir::NegX
        } else if i == 2 {
            FaceDir::PosY
        } else if i == 3 {
            FaceDir::NegY
        } else if i == 4 {
            FaceDir::PosZ
        } else {
            FaceDir::NegZ
        }
    }

    /// The quantized outward normal of faces in this direction.
    pub fn normal(&self) -> (r: (i8, i8, i8))
        ensures
            (r.0 as int, r.1 as int, r.2 as int) == dir_normal(*self),
            r.0 as int == 127 * dir_delta(*self).0,
            r.1 as int == 127 * dir_delta(*self).1,
            r.2 as int == 127 * dir_delta(*self).2,
    {
        match self {
            FaceDir::PosX => (127, 0, 0),
            FaceDir::NegX => (-127, 0, 0),
            FaceDir::PosY => (0, 127, 0),
            FaceDir::NegY => (0, -127, 0),
            FaceDir::PosZ => (0, 0, 127),
            FaceDir::NegZ => (0, 0, -127),
        }
    }

    /// The unit step to the neighbour across this face.
    pub fn delta(&self) -> (r: (i32, i32, i32))
        ensures
            (r.0 as int, r.1 as int, r.2 as int) == dir_delta(*self),
    {
        match self {
            FaceDir::PosX => (1, 0, 0),
            FaceDir::NegX => (-1, 0, 0),
            FaceDir::PosY => (0, 1, 0),
            FaceDir::NegY => (0, -1, 0),
            FaceDir::PosZ => (0, 0, 1),
            FaceDir::NegZ => (0, 0, -1),
        }
    }

    /// The occlusion bit of this face of a voxel.
    pub fn occlusion_face_index(&self) -> (r: u32)
        ensures
            r == occlusion_bit(*self),
            r < 6,
    {
        match self {
            FaceDir::PosX => 1,
            FaceDir::NegX => 0,
            FaceDir::PosY => 3,
            FaceDir::NegY => 2,
            FaceDir::PosZ => 5,
            FaceDir::NegZ => 4,
        }
    }

    /// The occlusion bit of the neighbour's face that touches this face:
    /// the bit of the opposite direction.
    pub fn opposite_occlusion_index(&self) -> (r: u32)
        ensures
            r == occlusion_bit(dir_opposite(*self)),
            r < 6,
    {
        match self {
            FaceDir::PosX => 0,
            FaceDir::NegX => 1,
            FaceDir::PosY => 2,
            FaceDir::NegY => 3,
            FaceDir::PosZ => 4,
            FaceDir::NegZ => 5,
        }
    }

    /// The direction whose unit step is `(dx, dy, dz)`; `None` for any other
    /// vector.
    pub fn from_delta(dx: i64, dy: i64, dz: i64) -> (r: Option<FaceDir>)
        ensures
            r == dir_of_delta(dx as int, dy as int, dz as int),
            r matches Some(d) ==> dir_delta(d) == (dx as int, dy as int, dz as int),
    {
        if dx == 1 && dy == 0 && dz == 0 {
            Some(FaceDir::PosX)
        } else if dx == -1 && dy == 0 && dz == 0 {
            Some(FaceDir::NegX)
        } else if dx == 0 && dy == 1 && dz == 0 {
            Some(FaceDir::PosY)
        } else if dx == 0 && dy == -1 && dz == 0 {
            Some(FaceDir::NegY)
        } else if dx == 0 && dy == 0 && dz == 1 {
            Some(FaceDir::PosZ)
        } else if dx == 0 && dy == 0 && dz == -1 {
            Some(FaceDir::NegZ)
        } else {
            None
        }
    }
}

} // verus!
