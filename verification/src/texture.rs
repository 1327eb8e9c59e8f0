//! Textures: a colour for every point of a surface.
use vstd::prelude::*;
use crate::kernels::Shading;
use crate::scalar::{Scalar, ONE, ZERO};

verus! {

/// A colour for every point: constant, a checkerboard in space, a noise field
/// or an image, the last two named by a handle that the caller's arithmetic
/// resolves. An image comes with its width and height in pixels.
#[derive(Debug, Clone, Copy)]
pub enum Texture {
    Solid { color: [Scalar; 3] },
    Checker { even: [Scalar; 3], odd: [Scalar; 3], inverse_scale: Scalar },
    Noise { noise: usize, scale: Scalar },
    Image { image: usize, width: u32, height: u32 },
}

/// Whether the lattice cell `cell` is an even one: the sum of its three
/// coordinates is even.
pub open spec fn is_even_cell(cell: [i32; 3]) -> bool {
    (cell[0] + cell[1] + cell[2]) % 2 == 0
}

/// `value` held between zero and one.
pub open spec fn unit_clamped(value: Scalar) -> Scalar {
    if value < ZERO {
        ZERO
    } else if value > ONE {
        ONE
    } else {
        value
    }
}

/// Whether `color` is a possible colour of `texture` at `uv` and `point`.
pub open spec fn color_of<S: Shading>(
    texture: Texture,
    uv: [Scalar; 2],
    point: [Scalar; 3],
    shading: S,
    color: [Scalar; 3],
) -> bool {
    match texture {
        Texture::Solid { color: constant } => color == constant,
        Texture::Checker { even, odd, inverse_scale } => exists|cell: [i32; 3]| #[trigger]
            call_ensures(S::cell, (&shading, &point, inverse_scale), cell) && color == if is_even_cell(
                cell,
            ) {
                even
            } else {
                odd
            },
        Texture::Noise { noise, scale } => call_ensures(
            S::noise,
            (&shading, noise, scale, &point),
            color,
        ),
        Texture::Image { image, width, height } => exists|held: [Scalar; 2], position: [u32; 2]|
            {
                &&& held[0] == unit_clamped(uv[0])
                &&& held[1] == unit_clamped(uv[1])
                &&& #[trigger] call_ensures(S::texel, (&shading, &held, width, height), position)
                &&& call_ensures(
                    S::pixel,
                    (&shading, image, capped(position[0], width), capped(position[1], height)),
                    color,
                )
            },
    }
}

/// The index `index` kept inside a row or column of `size` pixels: itself
/// where it lies inside, else the last one. (With no pixels at all there is
/// nothing to keep it in, and it comes out as zero.)
pub open spec fn capped(index: u32, size: u32) -> u32 {
    if index < size {
        index
    } else if size > 0 {
        (size - 1) as u32
    } else {
        0
    }
}

/// Keeps an index inside a row or column of `size` pixels.
pub fn cap(index: u32, size: u32) -> (kept: u32)
    ensures
        kept == capped(index, size),
        size > 0 ==> kept < size,
{
    if index < size {
        index
    } else if size > 0 {
        size - 1
    } else {
        0
    }
}

/// Whether the cell is an even one, whatever the size of its coordinates.
pub fn checker_parity(cell: [i32; 3]) -> (even: bool)
    ensures
        even == is_even_cell(cell),
{
    let sum: i64 = cell[0] as i64 + cell[1] as i64 + cell[2] as i64;
    sum % 2 == 0
}

/// Holds `value` between zero and one.
pub fn clamp_unit(value: Scalar) -> (held: Scalar)
    ensures
        held == unit_clamped(value),
{
    if value < ZERO {
        ZERO
    } else if value > ONE {
        ONE
    } else {
        value
    }
}

impl Texture {
    /// One colour everywhere.
    pub fn solid(color: [Scalar; 3]) -> (texture: Self)
        ensures
            texture == (Texture::Solid { color }),
    {
        Texture::Solid { color }
    }

    /// A checkerboard whose cells are `scale` wide.
    pub fn checker<S: Shading>(
        even: [Scalar; 3],
        odd: [Scalar; 3],
        scale: Scalar,
        shading: &S,
    ) -> (texture: Self)
        ensures
            texture matches Texture::Checker { even: e, odd: o, inverse_scale } && e == even && o
                == odd && call_ensures(S::reciprocal, (shading, scale), inverse_scale),
    {
        Texture::Checker { even, odd, inverse_scale: shading.reciprocal(scale) }
    }

    /// The grey of the noise field with handle `noise`, read `scale` times as
    /// densely as space.
    pub fn noise(noise: usize, scale: Scalar) -> (texture: Self)
        ensures
            texture == (Texture::Noise { noise, scale }),
    {
        Texture::Noise { noise, scale }
    }

    /// The image with handle `image`, of `width` by `height` pixels, laid out
    /// over the surface coordinates.
    pub fn image(image: usize, width: u32, height: u32) -> (texture: Self)
        ensures
            texture == (Texture::Image { image, width, height }),
    {
        Texture::Image { image, width, height }
    }

    /// The colour at the surface coordinate `uv` and the point `point`.
    pub fn color_at<S: Shading>(
        &self,
        uv: [Scalar; 2],
        point: [Scalar; 3],
        shading: &S,
    ) -> (color: [Scalar; 3])
        ensures
            color_of(*self, uv, point, *shading, color),
    {
        match self {
            Texture::Solid { color } => *color,
            Texture::Checker { even, odd, inverse_scale } => {
                let cell: [i32; 3] = shading.cell(&point, *inverse_scale);
                if checker_parity(cell) {
                    *even
                } else {
                    *odd
                }
            },
            Texture::Noise { noise, scale } => shading.noise(*noise, *scale, &point),
            Texture::Image { image, width, height } => {
                let held: [Scalar; 2] = [clamp_unit(uv[0]), clamp_unit(uv[1])];
                let position: [u32; 2] = shading.texel(&held, *width, *height);
                // A coordinate of one falls just beyond the last pixel.
                let column: u32 = cap(position[0], *width);
                let row: u32 = cap(position[1], *height);
                shading.pixel(*image, column, row)
            },
        }
    }
}

/// An image texture asks only for pixels of the image: whatever the surface
/// coordinate, the column and the row that it asks for lie inside an image
/// that has any pixels.
pub proof fn lemma_image_pixel_is_inside(index: u32, size: u32)
    requires
        size > 0,
    ensures
        capped(index, size) < size,
        index < size ==> capped(index, size) == index,
        index >= size ==> capped(index, size) == size - 1,
{
}

/// The checkerboard alternates from every cell to the next along each axis.
pub proof fn lemma_checker_alternates(cell: [i32; 3], next: [i32; 3], axis: int)
    requires
        0 <= axis < 3,
        next[axis] == cell[axis] + 1,
        forall|other: int| 0 <= other < 3 && other != axis ==> next[other] == cell[other],
    ensures
        is_even_cell(next) != is_even_cell(cell),
{
    assert(next[0] + next[1] + next[2] == cell[0] + cell[1] + cell[2] + 1);
}

/// The checkerboard is the same in a cell and in the cell whose coordinates
/// along any choice of axes are the opposite numbers.
pub proof fn lemma_checker_mirrors(cell: [i32; 3], mirrored: [i32; 3])
    requires
        forall|axis: int|
            0 <= axis < 3 ==> mirrored[axis] == cell[axis] || mirrored[axis] == -cell[axis],
    ensures
        is_even_cell(mirrored) == is_even_cell(cell),
{
    assert(mirrored[0] == cell[0] || mirrored[0] == -cell[0]);
    assert(mirrored[1] == cell[1] || mirrored[1] == -cell[1]);
    assert(mirrored[2] == cell[2] || mirrored[2] == -cell[2]);
    let d = (cell[0] + cell[1] + cell[2]) - (mirrored[0] + mirrored[1] + mirrored[2]);
    assert(d % 2 == 0) by {
        assert(d == 0 || d == 2 * cell[0] || d == 2 * cell[1] || d == 2 * cell[2] || d == 2 * (
        cell[0] + cell[1]) || d == 2 * (cell[0] + cell[2]) || d == 2 * (cell[1] + cell[2]) || d
            == 2 * (cell[0] + cell[1] + cell[2]));
    }
}

/// One if the cell coordinate `mirrored` is that of the mirror image of a
/// point whose own cell coordinate is `own`, zero if it is `own` itself. A
/// point between two lattice planes and its mirror image lie in the cells
/// `c` and `-c - 1`.
pub open spec fn flipped(own: i32, mirrored: i32) -> int {
    if mirrored == -own - 1 {
        1
    } else {
        0
    }
}

/// Mirroring a point along some of the axes keeps the checkerboard when the
/// number of those axes is even, and exchanges its two colours when it is
/// odd.
pub proof fn lemma_checker_under_mirroring(cell: [i32; 3], mirrored: [i32; 3])
    requires
        forall|axis: int|
            0 <= axis < 3 ==> mirrored[axis] == cell[axis] || mirrored[axis] == -cell[axis] - 1,
    ensures
        is_even_cell(mirrored) == is_even_cell(cell) <==> (flipped(cell[0], mirrored[0]) + flipped(
            cell[1],
            mirrored[1],
        ) + flipped(cell[2], mirrored[2])) % 2 == 0,
{
    assert(mirrored[0] == cell[0] || mirrored[0] == -cell[0] - 1);
    assert(mirrored[1] == cell[1] || mirrored[1] == -cell[1] - 1);
    assert(mirrored[2] == cell[2] || mirrored[2] == -cell[2] - 1);
    let flips = flipped(cell[0], mirrored[0]) + flipped(cell[1], mirrored[1]) + flipped(
        cell[2],
        mirrored[2],
    );
    let change = (cell[0] + cell[1] + cell[2]) - (mirrored[0] + mirrored[1] + mirrored[2]);
    let twice = flipped(cell[0], mirrored[0]) * cell[0] + flipped(cell[1], mirrored[1]) * cell[1]
        + flipped(cell[2], mirrored[2]) * cell[2];
    assert(change == 2 * twice + flips);
    assert((change - flips) % 2 == 0);
}

} // verus!
