//! The layout of an array that is handed to a compressor: how many
//! dimensions it has, and how far apart its rows, planes and volumes lie.

use vstd::prelude::*;

verus! {

/// Why a shape cannot be laid out.
#[derive(Clone, Copy, Debug, PartialEq, Eq, Structural)]
pub enum LayoutError {
    /// The stride of the rows does not fit.
    StrideY,
    /// The stride of the planes is more than a `usize` holds.
    StrideZOverflow,
    /// The stride of the planes does not fit.
    StrideZ,
    /// The stride of the volumes is more than a `usize` holds.
    StrideWOverflow,
    /// The stride of the volumes does not fit.
    StrideW,
    /// The array has no dimension or more than four.
    Dimensions,
}

/// The layout of an array whose innermost dimension is contiguous: the
/// number of its dimensions, and the strides of the second, third and fourth
/// dimension where it has them.
#[derive(Clone, Copy, Debug, PartialEq, Eq, Structural)]
pub struct Layout {
    pub dims: u32,
    pub sy: isize,
    pub sz: isize,
    pub sw: isize,
}

/// The layout that a shape asks for, outermost dimension first.
pub open spec fn layout_of(shape: Seq<usize>) -> Result<Layout, LayoutError> {
    let n = shape.len();
    if n == 0 || n > 4 {
        Err(LayoutError::Dimensions)
    } else if n == 1 {
        Ok(Layout { dims: 1, sy: 0, sz: 0, sw: 0 })
    } else {
        let nx = shape[n - 1] as int;
        let ny = shape[n - 2] as int;
        if nx > isize::MAX {
            Err(LayoutError::StrideY)
        } else if n == 2 {
            Ok(Layout { dims: 2, sy: nx as isize, sz: 0, sw: 0 })
        } else if nx * ny > usize::MAX {
            Err(LayoutError::StrideZOverflow)
        } else if nx * ny > isize::MAX {
            Err(LayoutError::StrideZ)
        } else if n == 3 {
            Ok(Layout { dims: 3, sy: nx as isize, sz: (nx * ny) as isize, sw: 0 })
        } else {
            let nz = shape[n - 3] as int;
            if nx * ny * nz > usize::MAX {
                Err(LayoutError::StrideWOverflow)
            } else if nx * ny * nz > isize::MAX {
                Err(LayoutError::StrideW)
            } else {
                Ok(
                    Layout {
                        dims: 4,
                        sy: nx as isize,
                        sz: (nx * ny) as isize,
                        sw: (nx * ny * nz) as isize,
                    },
                )
            }
        }
    }
}

fn stride(n: usize) -> (r: Option<isize>)
    ensures
        n <= isize::MAX ==> r == Some(n as isize),
        n > isize::MAX ==> r is None,
{
    if n <= isize::MAX as usize {
        Some(n as isize)
    } else {
        None
    }
}

/// Lays out an array of the shape `shape`, outermost dimension first.
pub fn field_layout(shape: &[usize]) -> (r: Result<Layout, LayoutError>)
    ensures
        r == layout_of(shape@),
{
    let n = shape.len();
    if n == 0 || n > 4 {
        return Err(LayoutError::Dimensions);
    }
    if n == 1 {
        return Ok(Layout { dims: 1, sy: 0, sz: 0, sw: 0 });
    }
    let nx = shape[n - 1];
    let ny = shape[n - 2];
    let sy = match stride(nx) {
        Some(s) => s,
        None => {
            return Err(LayoutError::StrideY);
        },
    };
    if n == 2 {
        return Ok(Layout { dims: 2, sy, sz: 0, sw: 0 });
    }
    let plane = match nx.checked_mul(ny) {
        Some(p) => p,
        None => {
            return Err(LayoutError::StrideZOverflow);
        },
    };
    let sz = match stride(plane) {
        Some(s) => s,
        None => {
            return Err(LayoutError::StrideZ);
        },
    };
    if n == 3 {
        return Ok(Layout { dims: 3, sy, sz, sw: 0 });
    }
    let nz = shape[n - 3];
    let volume = match plane.checked_mul(nz) {
        Some(v) => v,
        None => {
            return Err(LayoutError::StrideWOverflow);
        },
    };
    let sw = match stride(volume) {
        Some(s) => s,
        None => {
            return Err(LayoutError::StrideW);
        },
    };
    Ok(Layout { dims: 4, sy, sz, sw })
}

/// The extents among the first `n` of `extents` that are not zero.
pub open spec fn present(extents: Seq<usize>, n: nat) -> Seq<usize>
    decreases n,
{
    if n == 0 || n > extents.len() {
        Seq::empty()
    } else if extents[n - 1] > 0 {
        present(extents, (n - 1) as nat).push(extents[n - 1])
    } else {
        present(extents, (n - 1) as nat)
    }
}

/// The shape of an array that was read back: its extents from the
/// outermost to the innermost, without those that are zero.
pub fn decoded_shape(nw: usize, nz: usize, ny: usize, nx: usize) -> (r: Vec<usize>)
    ensures
        r@ == present(seq![nw, nz, ny, nx], 4),
{
    let mut all: Vec<usize> = Vec::new();
    all.push(nw);
    all.push(nz);
    all.push(ny);
    all.push(nx);
    assert(all@ =~= seq![nw, nz, ny, nx]);
    let mut out: Vec<usize> = Vec::new();
    let mut i: usize = 0;
    while i < 4
        invariant
            i <= 4,
            all.len() == 4,
            out@ == present(all@, i as nat),
        decreases 4 - i,
    {
        if all[i] > 0 {
            out.push(all[i]);
        }
        i = i + 1;
    }
    out
}

/// The product of the first `n` extents.
pub open spec fn product(shape: Seq<usize>, n: nat) -> nat
    decreases n,
{
    if n == 0 || n > shape.len() {
        1
    } else {
        product(shape, (n - 1) as nat) * shape[n - 1] as nat
    }
}

/// The number of elements of an array of the shape `shape`, unless it is
/// more than a `usize` holds.
pub fn element_count(shape: &Vec<usize>) -> (r: Option<usize>)
    ensures
        r is Some ==> r->0 == product(shape@, shape.len() as nat),
        r is None ==> exists|n: nat| n <= shape.len() && product(shape@, n) > usize::MAX,
{
    let mut count: usize = 1;
    let mut i: usize = 0;
    while i < shape.len()
        invariant
            i <= shape.len(),
            count == product(shape@, i as nat),
        decreases shape.len() - i,
    {
        match count.checked_mul(shape[i]) {
            Some(c) => {
                count = c;
            },
            None => {
                assert(product(shape@, (i + 1) as nat) > usize::MAX);
                return None;
            },
        }
        i = i + 1;
    }
    Some(count)
}

} // verus!
