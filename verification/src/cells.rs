//! A bare flat grid of cell states with random two-state initialization,
//! kept alongside the richer grid in `automata` for simple simulations.

use vstd::prelude::*;

verus! {

/// Grid dimensions in cells.
#[derive(Clone, Copy, PartialEq, Eq, Structural, Debug)]
pub struct Size {
    pub height: u32,
    pub width: u32,
}

impl Size {
    /// Dimensions that can address a grid.
    pub open spec fn wf(self) -> bool {
        &&& 0 < self.width
        &&& 0 < self.height
        &&& self.width * self.height <= u32::MAX
    }

    /// Number of cells in a grid of this size.
    pub open spec fn area(self) -> nat {
        (self.width * self.height) as nat
    }
}

/// A grid of cell states, stored as a flat row-major array.
#[derive(Debug)]
pub struct Cells {
    pub data: Vec<u32>,
    pub size: Size,
}

impl Cells {
    /// The flat sequence of cell states.
    pub open spec fn cells(&self) -> Seq<u32> {
        self.data@
    }

    /// The stored data fills the grid exactly.
    pub open spec fn wf(&self) -> bool {
        &&& self.size.wf()
        &&& self.data@.len() == self.size.area()
    }

    /// A zero-filled grid of the given size.
    pub fn new(size: Size) -> (r: Self)
        requires
            size.wf(),
        ensures
            r.wf(),
            r.size == size,
            forall|i: int| 0 <= i < r.cells().len() ==> r.cells()[i] == 0,
    {
        let n = (size.width * size.height) as usize;
        Cells { data: vec![0u32; n], size }
    }
}

/// Relies on rand's `Rng::gen_range` over `0..=1`: a value inside the
/// given non-empty range, picked by the thread-local generator.
#[verifier::external_body]
fn coin() -> (r: u32)
    ensures
        r <= 1,
{
    rand::Rng::gen_range(&mut rand::thread_rng(), 0..=1)
}

/// A grid whose every cell is a random state 0 or 1.
pub fn rand_cells(size: Size) -> (r: Cells)
    requires
        size.wf(),
    ensures
        r.wf(),
        r.size == size,
        forall|i: int| 0 <= i < r.cells().len() ==> r.cells()[i] <= 1,
{
    let n = (size.width * size.height) as usize;
    let mut data: Vec<u32> = Vec::new();
    let mut k: usize = 0;
    while k < n
        invariant
            k <= n,
            data@.len() == k,
            forall|i: int| 0 <= i < k ==> data@[i] <= 1,
        decreases n - k,
    {
        data.push(coin());
        k = k + 1;
    }
    Cells { data, size }
}

} // verus!
