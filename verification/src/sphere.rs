//! The grid of a sphere: bands from pole to pole, each cut into cells
//! around the axis, and every cell made of two triangles.

use vstd::prelude::*;

verus! {

/// A point of the grid: the band boundary it lies on, counted from the
/// first pole, and its place around the axis.
#[derive(Copy, Clone, Debug, PartialEq, Eq, Structural)]
pub struct GridPoint {
    pub long: u32,
    pub lat: u32,
}

/// A sphere cut into `vertical_divs` bands of `horizontal_divs` cells.
pub struct Sphere {
    vertical_divs: u32,
    horizontal_divs: u32,
}

/// Corner `k` of the two triangles of the cell at band `long`, place
/// `lat`: top left, bottom left, bottom right; top left, bottom right, top
/// right.
pub open spec fn cell_corner(long: int, lat: int, k: int) -> GridPoint {
    let down = if k == 1 || k == 2 || k == 4 {
        1int
    } else {
        0int
    };
    let right = if k == 2 || k == 4 || k == 5 {
        1int
    } else {
        0int
    };
    GridPoint { long: (long + down) as u32, lat: (lat + right) as u32 }
}

impl Sphere {
    pub closed spec fn spec_vertical_divs(&self) -> u32 {
        self.vertical_divs
    }

    pub closed spec fn spec_horizontal_divs(&self) -> u32 {
        self.horizontal_divs
    }

    pub fn new(v_divs: u32, h_divs: u32) -> (sphere: Sphere)
        ensures
            sphere.spec_vertical_divs() == v_divs,
            sphere.spec_horizontal_divs() == h_divs,
    {
        Sphere { vertical_divs: v_divs, horizontal_divs: h_divs }
    }

    pub fn vertical_divs(&self) -> (n: u32)
        ensures
            n == self.spec_vertical_divs(),
    {
        self.vertical_divs
    }

    pub fn horizontal_divs(&self) -> (n: u32)
        ensures
            n == self.spec_horizontal_divs(),
    {
        self.horizontal_divs
    }

    /// The corners of the triangles that cover the sphere, six for each
    /// cell, band after band and cell after cell within a band.
    pub fn generate_vertices(&self) -> (vertices: Vec<GridPoint>)
        ensures
            vertices@.len() == 6 * (self.spec_vertical_divs() * self.spec_horizontal_divs()),
            forall|long: int, lat: int, k: int|
                0 <= long < self.spec_vertical_divs() && 0 <= lat < self.spec_horizontal_divs()
                    && 0 <= k < 6 ==> #[trigger] vertices@[6 * (long * self.spec_horizontal_divs()
                    + lat) + k] == cell_corner(long, lat, k),
    {
        let mut vertices: Vec<GridPoint> = Vec::new();
        let v = self.vertical_divs;
        let h = self.horizontal_divs;

        let mut long: u32 = 0;
        while long < v
            invariant
                0 <= long <= v,
                vertices@.len() == 6 * (long * h),
                forall|i: int, j: int, k: int|
                    0 <= i < long && 0 <= j < h && 0 <= k < 6 ==> #[trigger] vertices@[6 * (i * h
                        + j) + k] == cell_corner(i, j, k),
            decreases v - long,
        {
            let mut lat: u32 = 0;
            while lat < h
                invariant
                    0 <= long < v,
                    0 <= lat <= h,
                    vertices@.len() == 6 * (long * h + lat),
                    forall|i: int, j: int, k: int|
                        (0 <= i < long && 0 <= j < h || i == long && 0 <= j < lat) && 0 <= k < 6
                            ==> #[trigger] vertices@[6 * (i * h + j) + k] == cell_corner(i, j, k),
                decreases h - lat,
            {
                let tl = GridPoint { long, lat };
                let bl = GridPoint { long: long + 1, lat };
                let br = GridPoint { long: long + 1, lat: lat + 1 };
                let tr = GridPoint { long, lat: lat + 1 };
                let ghost before = vertices@;
                let ghost base = 6 * (long * h + lat);

                vertices.push(tl);
                vertices.push(bl);
                vertices.push(br);

                vertices.push(tl);
                vertices.push(br);
                vertices.push(tr);

                proof {
                    assert forall|i: int, j: int, k: int|
                        (0 <= i < long && 0 <= j < h || i == long && 0 <= j < lat + 1) && 0 <= k
                            < 6 implies #[trigger] vertices@[6 * (i * h + j) + k] == cell_corner(
                        i,
                        j,
                        k,
                    ) by {
                        if i == long && j == lat {
                            assert(6 * (i * h + j) + k == base + k);
                        } else {
                            lemma_cell_before(i, j, long as int, lat as int, h as int);
                            assert(vertices@[6 * (i * h + j) + k] == before[6 * (i * h + j) + k]);
                        }
                    }
                }
                lat = lat + 1;
            }
            proof {
                assert((long + 1) * h == long * h + h) by (nonlinear_arith);
            }
            long = long + 1;
        }
        vertices
    }
}

/// A cell that comes before another in the order of the bands has a
/// smaller number.
proof fn lemma_cell_before(i: int, j: int, long: int, lat: int, h: int)
    requires
        0 <= j < h,
        0 <= lat <= h,
        0 <= long,
        0 <= i < long || (i == long && j < lat),
    ensures
        0 <= i * h + j < long * h + lat,
{
    assert(0 <= i * h) by (nonlinear_arith)
        requires
            0 <= i,
            0 <= h,
    ;
    if i < long {
        assert((i + 1) * h <= long * h) by (nonlinear_arith)
            requires
                i + 1 <= long,
                0 <= h,
        ;
        assert((i + 1) * h == i * h + h) by (nonlinear_arith);
    }
}

} // verus!
