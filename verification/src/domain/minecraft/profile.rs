//! Who a player is and what its face looks like.
use vstd::prelude::*;

verus! {

/// The player's UUID (as its 128-bit value), name and skin URL, as far as
/// they are known.
#[derive(Debug, PartialEq, Eq)]
pub struct PlayerIdentity {
    pub uuid: Option<u128>,
    pub name: Option<String>,
    pub skin_url: Option<String>,
}

impl Default for PlayerIdentity {
    fn default() -> (r: PlayerIdentity)
        ensures
            r.uuid is None,
            r.name is None,
            r.skin_url is None,
    {
        PlayerIdentity { uuid: None, name: None, skin_url: None }
    }
}

/// An RGB colour.
#[derive(Debug, Clone, Copy, PartialEq, Eq, Structural)]
pub struct Rgb {
    pub red: u8,
    pub green: u8,
    pub blue: u8,
}

/// One pixel of a face.
#[derive(Debug, Clone, Copy, PartialEq, Eq, Structural)]
pub struct FacePixel {
    pub color: Rgb,
}

/// An 8 by 8 face, row by row.
#[derive(Debug, PartialEq, Eq)]
pub struct Face8x8 {
    pub pixels: Vec<Vec<FacePixel>>,
}

/// Where a face comes from.
#[derive(Debug, PartialEq, Eq)]
pub enum SkinState {
    NotRequested,
    Loading,
    Ready(Face8x8),
    Unavailable(String),
}

impl Default for SkinState {
    fn default() -> (r: SkinState)
        ensures
            r is NotRequested,
    {
        SkinState::NotRequested
    }
}

pub open spec fn rgb(red: u8, green: u8, blue: u8) -> Rgb {
    Rgb { red, green, blue }
}

/// The placeholder face: hair on the top two rows, white eyes on row 3 and
/// dark pupils on row 4 at columns 2 and 5, skin elsewhere with a darker
/// mouth band at columns 3 and 4.
pub open spec fn placeholder_pixel(y: int, x: int) -> Rgb {
    if y < 2 {
        rgb(92, 61, 46)
    } else if y == 3 && (x == 2 || x == 5) {
        rgb(255, 255, 255)
    } else if y == 4 && (x == 2 || x == 5) {
        rgb(50, 50, 50)
    } else if x == 3 || x == 4 {
        rgb(70, 42, 31)
    } else {
        rgb(229, 194, 159)
    }
}

/// Whether a face has 8 rows of 8 pixels.
pub open spec fn face_shape_ok(f: Face8x8) -> bool {
    &&& f.pixels@.len() == 8
    &&& forall|y: int| 0 <= y < 8 ==> (#[trigger] f.pixels@[y])@.len() == 8
}

fn placeholder_pixel_exec(y: usize, x: usize) -> (r: Rgb)
    ensures
        r == placeholder_pixel(y as int, x as int),
{
    if y < 2 {
        Rgb { red: 92, green: 61, blue: 46 }
    } else if y == 3 && (x == 2 || x == 5) {
        Rgb { red: 255, green: 255, blue: 255 }
    } else if y == 4 && (x == 2 || x == 5) {
        Rgb { red: 50, green: 50, blue: 50 }
    } else if x == 3 || x == 4 {
        Rgb { red: 70, green: 42, blue: 31 }
    } else {
        Rgb { red: 229, green: 194, blue: 159 }
    }
}

/// The pixels of a face, row by row.
pub open spec fn face_view(f: Face8x8) -> Seq<Seq<FacePixel>> {
    Seq::new(f.pixels@.len(), |y: int| f.pixels@[y]@)
}

impl Face8x8 {
    /// A copy of the face.
    pub fn copy(&self) -> (r: Face8x8)
        ensures
            face_view(r) == face_view(*self),
    {
        let mut pixels: Vec<Vec<FacePixel>> = Vec::new();
        let mut y: usize = 0;
        while y < self.pixels.len()
            invariant
                y <= self.pixels@.len(),
                pixels@.len() == y,
                forall|j: int| 0 <= j < y ==> (#[trigger] pixels@[j])@ == self.pixels@[j]@,
            decreases self.pixels.len() - y,
        {
            let row = &self.pixels[y];
            let mut copied: Vec<FacePixel> = Vec::new();
            let mut x: usize = 0;
            while x < row.len()
                invariant
                    x <= row@.len(),
                    copied@ == row@.take(x as int),
                decreases row.len() - x,
            {
                copied.push(row[x]);
                x = x + 1;
                assert(copied@ =~= row@.take(x as int));
            }
            assert(row@.take(row@.len() as int) =~= row@);
            pixels.push(copied);
            y = y + 1;
        }
        let r = Face8x8 { pixels };
        assert(face_view(r) =~= face_view(*self));
        r
    }

    /// The face shown before a skin has been fetched.
    pub fn placeholder() -> (r: Face8x8)
        ensures
            face_shape_ok(r),
            forall|y: int, x: int|
                0 <= y < 8 && 0 <= x < 8 ==> (#[trigger] r.pixels@[y]@[x]).color == placeholder_pixel(
                    y,
                    x,
                ),
    {
        let mut pixels: Vec<Vec<FacePixel>> = Vec::new();
        let mut y: usize = 0;
        while y < 8
            invariant
                y <= 8,
                pixels@.len() == y,
                forall|j: int| 0 <= j < y ==> (#[trigger] pixels@[j])@.len() == 8,
                forall|j: int, x: int|
                    0 <= j < y && 0 <= x < 8 ==> (#[trigger] pixels@[j]@[x]).color
                        == placeholder_pixel(j, x),
            decreases 8 - y,
        {
            let mut row: Vec<FacePixel> = Vec::new();
            let mut x: usize = 0;
            while x < 8
                invariant
                    x <= 8,
                    y < 8,
                    row@.len() == x,
                    forall|k: int| 0 <= k < x ==> (#[trigger] row@[k]).color == placeholder_pixel(
                        y as int,
                        k,
                    ),
                decreases 8 - x,
            {
                row.push(FacePixel { color: placeholder_pixel_exec(y, x) });
                x = x + 1;
            }
            pixels.push(row);
            y = y + 1;
        }
        Face8x8 { pixels }
    }
}

} // verus!
