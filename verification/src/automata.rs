//! The grid model: a fixed-size 2D array of small unsigned cell states,
//! addressed row-major as `index = x + y*width`.

use vstd::prelude::*;

verus! {

/// Grid dimensions in cells. Both must be positive, and their product must
/// fit the 32-bit addressing the simulation uses.
#[derive(Clone, Copy, PartialEq, Eq, Structural, Debug)]
pub struct Size {
    pub width: u32,
    pub height: u32,
}

impl Size {
    /// Dimensions that can actually address a grid.
    pub open spec fn wf(self) -> bool {
        &&& 0 < self.width
        &&& 0 < self.height
        &&& self.width * self.height <= u32::MAX
    }

    /// Number of cells in a grid of this size.
    pub open spec fn area(self) -> nat {
        (self.width * self.height) as nat
    }

    /// Row-major position of the cell at `(x, y)`.
    pub open spec fn spec_index(self, x: u32, y: u32) -> int {
        x + y * self.width
    }
}

impl From<(u32, u32)> for Size {
    fn from(data: (u32, u32)) -> (r: Self) {
        Size { width: data.0, height: data.1 }
    }
}

impl vstd::std_specs::convert::FromSpecImpl<(u32, u32)> for Size {
    open spec fn obeys_from_spec() -> bool {
        true
    }

    open spec fn from_spec(v: (u32, u32)) -> Self {
        Size { width: v.0, height: v.1 }
    }
}

impl From<Size> for (u32, u32) {
    fn from(data: Size) -> (r: Self) {
        (data.width, data.height)
    }
}

impl vstd::std_specs::convert::FromSpecImpl<Size> for (u32, u32) {
    open spec fn obeys_from_spec() -> bool {
        true
    }

    open spec fn from_spec(v: Size) -> Self {
        (v.width, v.height)
    }
}

/// Every in-range coordinate maps to a unique index in `[0, width*height)`.
pub proof fn lemma_index_unique(size: Size, x1: u32, y1: u32, x2: u32, y2: u32)
    requires
        size.wf(),
        x1 < size.width,
        y1 < size.height,
        x2 < size.width,
        y2 < size.height,
    ensures
        0 <= size.spec_index(x1, y1) < size.area(),
        size.spec_index(x1, y1) == size.spec_index(x2, y2) ==> x1 == x2 && y1 == y2,
{
    let w = size.width as int;
    let h = size.height as int;
    assert(x1 + y1 * w < w * h) by (nonlinear_arith)
        requires
            0 < w,
            x1 < w,
            y1 < h,
    ;
    assert(x1 + y1 * w == x2 + y2 * w ==> x1 == x2 && y1 == y2) by (nonlinear_arith)
        requires
            0 < w,
            0 <= x1 < w,
            0 <= x2 < w,
            0 <= y1,
            0 <= y2,
    ;
}

/// A grid of cell states, stored as a flat row-major array.
#[derive(Debug)]
pub struct Automata {
    pub data: Vec<u32>,
    pub size: Size,
}

impl Automata {
    /// The flat sequence of cell states.
    pub open spec fn cells(&self) -> Seq<u32> {
        self.data@
    }

    /// The stored data fills the grid exactly.
    pub open spec fn wf(&self) -> bool {
        &&& self.size.wf()
        &&& self.data@.len() == self.size.area()
    }

    /// A zero-filled grid of the given size.
    pub fn new(size: Size) -> (r: Self)
        requires
            size.wf(),
        ensures
            r.wf(),
            r.size == size,
            r.cells() =~= Seq::new(size.area(), |i: int| 0u32),
    {
        let n = (size.width * size.height) as usize;
        Self { data: vec![0u32; n], size }
    }

    /// The grid's dimensions.
    pub fn size(&self) -> (s: Size)
        ensures
            s == self.size,
    {
        self.size
    }

    /// Reads the cell at `(x, y)`.
    pub fn get(&self, x: u32, y: u32) -> (s: u32)
        requires
            self.wf(),
            x < self.size.width,
            y < self.size.height,
        ensures
            s == self.cells()[self.size.spec_index(x, y)],
    {
        proof {
            lemma_index_unique(self.size, x, y, x, y);
        }
        self.data[(x + y * self.size.width) as usize]
    }

    /// Writes the cell at `(x, y)`.
    pub fn set(&mut self, x: u32, y: u32, state: u32)
        requires
            old(self).wf(),
            x < old(self).size.width,
            y < old(self).size.height,
        ensures
            final(self).wf(),
            final(self).size == old(self).size,
            final(self).cells() =~= old(self).cells().update(
                old(self).size.spec_index(x, y),
                state,
            ),
    {
        proof {
            lemma_index_unique(self.size, x, y, x, y);
        }
        let i = (x + y * self.size.width) as usize;
        self.data[i] = state;
    }
}

/// Whether `(x, y)` lies in the sub-rectangle left after removing a border
/// of `padding` cells on every side.
pub open spec fn in_interior(size: Size, padding: u32, x: u32, y: u32) -> bool {
    &&& padding <= x < size.width - padding
    &&& padding <= y < size.height - padding
}

/// Whether `v` is one of the states in `states`.
pub open spec fn drawn_from(states: Seq<u32>, v: u32) -> bool {
    exists|j: int| 0 <= j < states.len() && states[j] == v
}

/// Relies on rand's `SliceRandom::choose`: for a non-empty slice it returns
/// `Some` of one of the slice's elements, picked by the thread-local
/// generator.
#[verifier::external_body]
fn choose_state(states: &[u32]) -> (r: u32)
    requires
        states@.len() > 0,
    ensures
        drawn_from(states@, r),
{
    *rand::seq::SliceRandom::choose(states, &mut rand::thread_rng()).unwrap()
}

/// A grid whose every cell is drawn at random from `states`.
pub fn random_automata(size: Size, states: &[u32]) -> (r: Automata)
    requires
        size.wf(),
        states@.len() > 0,
    ensures
        r.wf(),
        r.size == size,
        forall|x: u32, y: u32|
            #![trigger size.spec_index(x, y)]
            x < size.width && y < size.height ==> drawn_from(
                states@,
                r.cells()[size.spec_index(x, y)],
            ),
{
    let r = random_automata_with_padding(size, states, 0);
    assert forall|x: u32, y: u32|
        #![trigger size.spec_index(x, y)]
        x < size.width && y < size.height implies drawn_from(
        states@,
        r.cells()[size.spec_index(x, y)],
    ) by {
        assert(in_interior(size, 0, x, y));
    }
    r
}

/// A grid random over an interior sub-rectangle, with a border of state 0
/// of the given padding width.
pub fn random_automata_with_padding(size: Size, states: &[u32], padding: u32) -> (r: Automata)
    requires
        size.wf(),
        states@.len() > 0,
        padding <= size.width,
        padding <= size.height,
    ensures
        r.wf(),
        r.size == size,
        forall|x: u32, y: u32|
            #![trigger size.spec_index(x, y)]
            x < size.width && y < size.height ==> if in_interior(size, padding, x, y) {
                drawn_from(states@, r.cells()[size.spec_index(x, y)])
            } else {
                r.cells()[size.spec_index(x, y)] == 0
            },
{
    let mut automata = Automata::new(size);
    proof {
        assert forall|x2: u32, y2: u32|
            #![trigger size.spec_index(x2, y2)]
            x2 < size.width && y2 < size.height implies automata.cells()[size.spec_index(x2, y2)]
            == 0 by {
            lemma_index_unique(size, x2, y2, x2, y2);
        }
    }
    let mut x = padding;
    while x < size.width - padding
        invariant
            size.wf(),
            states@.len() > 0,
            padding <= x <= size.width,
            padding <= size.height,
            automata.wf(),
            automata.size == size,
            forall|x2: u32, y2: u32|
                #![trigger size.spec_index(x2, y2)]
                x2 < size.width && y2 < size.height ==> if in_interior(size, padding, x2, y2)
                    && x2 < x {
                    drawn_from(states@, automata.cells()[size.spec_index(x2, y2)])
                } else {
                    automata.cells()[size.spec_index(x2, y2)] == 0
                },
        decreases size.width - padding - x,
    {
        let mut y = padding;
        while y < size.height - padding
            invariant
                size.wf(),
                states@.len() > 0,
                padding <= x < size.width - padding,
                padding <= y <= size.height,
                automata.wf(),
                automata.size == size,
                forall|x2: u32, y2: u32|
                    #![trigger size.spec_index(x2, y2)]
                    x2 < size.width && y2 < size.height ==> if in_interior(size, padding, x2, y2)
                        && (x2 < x || (x2 == x && y2 < y)) {
                        drawn_from(states@, automata.cells()[size.spec_index(x2, y2)])
                    } else {
                        automata.cells()[size.spec_index(x2, y2)] == 0
                    },
            decreases size.height - padding - y,
        {
            let ghost prev = automata.cells();
            let v = choose_state(states);
            automata.set(x, y, v);
            proof {
                lemma_index_unique(size, x, y, x, y);
                assert(automata.cells()[size.spec_index(x, y)] == v);
                assert forall|x2: u32, y2: u32|
                    #![trigger size.spec_index(x2, y2)]
                    x2 < size.width && y2 < size.height implies if in_interior(
                    size,
                    padding,
                    x2,
                    y2,
                ) && (x2 < x || (x2 == x && y2 < y + 1)) {
                    drawn_from(states@, automata.cells()[size.spec_index(x2, y2)])
                } else {
                    automata.cells()[size.spec_index(x2, y2)] == 0
                } by {
                    lemma_index_unique(size, x2, y2, x2, y2);
                    lemma_index_unique(size, x, y, x2, y2);
                    if !(x2 == x && y2 == y) {
                        assert(automata.cells()[size.spec_index(x2, y2)] == prev[size.spec_index(
                            x2,
                            y2,
                        )]);
                    }
                }
            }
            y = y + 1;
        }
        x = x + 1;
    }
    automata
}

/// The first position at or after `i` where `s` holds `luma`, or the
/// length when there is none.
pub open spec fn first_index_from(s: Seq<u8>, luma: u8, i: int) -> int
    decreases s.len() - i,
{
    if i < 0 || i >= s.len() {
        s.len() as int
    } else if s[i] == luma {
        i
    } else {
        first_index_from(s, luma, i + 1)
    }
}

/// The position of `luma` in the discovery order, or the length when it
/// has not been seen.
pub open spec fn first_index(s: Seq<u8>, luma: u8) -> int {
    first_index_from(s, luma, 0)
}

/// A first-seen position lies between the search start and the length.
proof fn lemma_first_index_bounds(s: Seq<u8>, luma: u8, i: int)
    requires
        0 <= i <= s.len(),
    ensures
        i <= first_index_from(s, luma, i) <= s.len(),
    decreases s.len() - i,
{
    if i < s.len() && s[i] != luma {
        lemma_first_index_bounds(s, luma, i + 1);
    }
}

/// Appending a new value does not move the position of one already seen.
proof fn lemma_first_index_push(s: Seq<u8>, v: u8, luma: u8, i: int)
    requires
        0 <= i,
        first_index_from(s, luma, i) < s.len(),
    ensures
        first_index_from(s.push(v), luma, i) == first_index_from(s, luma, i),
    decreases s.len() - i,
{
    if i < s.len() {
        assert(s.push(v)[i] == s[i]);
        if s[i] != luma {
            lemma_first_index_push(s, v, luma, i + 1);
        }
    }
}

/// Appending an unseen value places it last.
proof fn lemma_first_index_push_new(s: Seq<u8>, v: u8, i: int)
    requires
        0 <= i <= s.len(),
        first_index_from(s, v, i) == s.len(),
    ensures
        first_index_from(s.push(v), v, i) == s.len(),
    decreases s.len() - i,
{
    if i < s.len() {
        lemma_first_index_push_new(s, v, i + 1);
    } else {
        assert(s.push(v)[i] == v);
    }
}

/// The pixel the column-major traversal visits at step `t`: the cell at
/// column `t / height`, row `t % height`.
pub open spec fn traversal_pixel(pixels: Seq<u8>, size: Size, t: int) -> u8 {
    pixels[(t / (size.height as int)) + (t % (size.height as int)) * size.width]
}

/// The distinct pixel values among the first `t` cells of the traversal,
/// in the order each was first encountered.
pub open spec fn spec_discovered(pixels: Seq<u8>, size: Size, t: int) -> Seq<u8>
    decreases t,
{
    if t <= 0 {
        Seq::empty()
    } else {
        let prev = spec_discovered(pixels, size, t - 1);
        let luma = traversal_pixel(pixels, size, t - 1);
        if first_index(prev, luma) < prev.len() {
            prev
        } else {
            prev.push(luma)
        }
    }
}

/// Looks `luma` up in the discovery list.
fn lookup_luma(dict: &Vec<(u8, u32)>, luma: u8) -> (r: Option<u32>)
    ensures
        ({
            let seen = dict@.map_values(|p: (u8, u32)| p.0);
            match r {
                Some(id) => first_index(seen, luma) < seen.len() && id == dict@[first_index(
                    seen,
                    luma,
                )].1,
                None => first_index(seen, luma) == seen.len(),
            }
        }),
{
    let ghost seen = dict@.map_values(|p: (u8, u32)| p.0);
    let mut i: usize = 0;
    while i < dict.len()
        invariant
            i <= dict@.len(),
            seen == dict@.map_values(|p: (u8, u32)| p.0),
            first_index(seen, luma) == first_index_from(seen, luma, i as int),
        decreases dict@.len() - i,
    {
        if dict[i].0 == luma {
            return Some(dict[i].1);
        }
        i = i + 1;
    }
    None
}

/// A grid built from a raster's pixel values: each distinct value gets a
/// sequential state id in the order it is first encountered by a
/// column-major traversal, and each cell takes its value's id. The
/// returned dictionary lists the (pixel value, state id) pairs in that
/// discovery order.
#[verifier::loop_isolation(false)]
pub fn automata_from_luma(size: Size, pixels: &Vec<u8>) -> (r: (Automata, Vec<(u8, u32)>))
    requires
        size.wf(),
        pixels@.len() == size.area(),
    ensures
        r.0.wf(),
        r.0.size == size,
        ({
            let seen = spec_discovered(pixels@, size, size.area() as int);
            &&& r.1@.len() == seen.len()
            &&& forall|i: int| 0 <= i < seen.len() ==> r.1@[i] == (seen[i], i as u32)
            &&& forall|x: u32, y: u32|
                #![trigger size.spec_index(x, y)]
                x < size.width && y < size.height ==> {
                    let luma = pixels@[size.spec_index(x, y)];
                    &&& first_index(seen, luma) < seen.len()
                    &&& r.0.cells()[size.spec_index(x, y)] == first_index(seen, luma)
                }
        }),
{
    let mut automata = Automata::new(size);
    let mut dict: Vec<(u8, u32)> = Vec::new();
    let ghost mut t: int = 0;
    let mut x: u32 = 0;
    while x < size.width
        invariant
            t == x * size.height,
            x <= size.width,
            automata.wf(),
            automata.size == size,
            dict@.len() <= t,
            ({
                let seen = spec_discovered(pixels@, size, t);
                &&& dict@.len() == seen.len()
                &&& forall|i: int| 0 <= i < seen.len() ==> dict@[i] == (seen[i], i as u32)
                &&& forall|x2: u32, y2: u32|
                    #![trigger size.spec_index(x2, y2)]
                    x2 < size.width && y2 < size.height && x2 < x ==> {
                        let luma = pixels@[size.spec_index(x2, y2)];
                        &&& first_index(seen, luma) < seen.len()
                        &&& automata.cells()[size.spec_index(x2, y2)] == first_index(seen, luma)
                    }
            }),
        decreases size.width - x,
    {
        let mut y: u32 = 0;
        while y < size.height
            invariant
                t == x * size.height + y,
                y <= size.height,
                automata.wf(),
                automata.size == size,
                dict@.len() <= t,
                ({
                    let seen = spec_discovered(pixels@, size, t);
                    &&& dict@.len() == seen.len()
                    &&& forall|i: int| 0 <= i < seen.len() ==> dict@[i] == (seen[i], i as u32)
                    &&& forall|x2: u32, y2: u32|
                        #![trigger size.spec_index(x2, y2)]
                        x2 < size.width && y2 < size.height && (x2 < x || (x2 == x && y2 < y))
                            ==> {
                            let luma = pixels@[size.spec_index(x2, y2)];
                            &&& first_index(seen, luma) < seen.len()
                            &&& automata.cells()[size.spec_index(x2, y2)] == first_index(
                                seen,
                                luma,
                            )
                        }
                }),
            decreases size.height - y,
        {
            let ghost seen_prev = spec_discovered(pixels@, size, t);
            let ghost prev_cells = automata.cells();
            proof {
                lemma_index_unique(size, x, y, x, y);
                assert(t / (size.height as int) == x && t % (size.height as int) == y) by (nonlinear_arith)
                    requires
                        0 < size.height,
                        0 <= y < size.height,
                        t == x * size.height + y,
                ;
                assert(traversal_pixel(pixels@, size, t) == pixels@[size.spec_index(x, y)]);
            }
            let luma = pixels[(x + y * size.width) as usize];
            proof {
                assert(dict@.map_values(|p: (u8, u32)| p.0) =~= seen_prev);
                assert(t < size.width * size.height) by (nonlinear_arith)
                    requires
                        x < size.width,
                        y < size.height,
                        t == x * size.height + y,
                ;
            }
            let id = match lookup_luma(&dict, luma) {
                Some(id) => id,
                None => {
                    let id = dict.len() as u32;
                    dict.push((luma, id));
                    proof {
                        lemma_first_index_push_new(seen_prev, luma, 0);
                    }
                    id
                },
            };
            proof {
                let seen = spec_discovered(pixels@, size, t + 1);
                if first_index(seen_prev, luma) < seen_prev.len() {
                    assert(seen == seen_prev);
                } else {
                    assert(seen == seen_prev.push(luma));
                    assert forall|l2: u8| first_index_from(seen_prev, l2, 0) < seen_prev.len()
                        implies first_index_from(seen, l2, 0) == first_index_from(
                        seen_prev,
                        l2,
                        0,
                    ) by {
                        lemma_first_index_push(seen_prev, luma, l2, 0);
                    }
                }
            }
            automata.set(x, y, id);
            proof {
                let seen = spec_discovered(pixels@, size, t + 1);
                assert(automata.cells()[size.spec_index(x, y)] == id);
                let fi = first_index(seen_prev, luma);
                lemma_first_index_bounds(seen_prev, luma, 0);
                if fi < seen_prev.len() {
                    assert(seen == seen_prev);
                    assert(id == dict@[fi].1);
                    assert(dict@[fi] == (seen_prev[fi], fi as u32));
                    assert(0 <= fi <= u32::MAX);
                    assert(id == fi as u32);
                    assert(id == first_index(seen, luma));
                } else {
                    assert(seen == seen_prev.push(luma));
                    assert(first_index(seen, luma) == seen_prev.len());
                    assert(id == seen_prev.len());
                }
                assert(first_index(seen, luma) < seen.len() && id == first_index(seen, luma));
                assert forall|x2: u32, y2: u32|
                    #![trigger size.spec_index(x2, y2)]
                    x2 < size.width && y2 < size.height && !(x2 == x && y2 == y) implies automata.cells()[size.spec_index(
                    x2,
                    y2,
                )] == prev_cells[size.spec_index(x2, y2)] by {
                    lemma_index_unique(size, x2, y2, x2, y2);
                    lemma_index_unique(size, x, y, x2, y2);
                }
                t = t + 1;
            }
            y = y + 1;
        }
        proof {
            assert(t == (x + 1) * size.height) by (nonlinear_arith)
                requires
                    t == x * size.height + size.height,
            ;
        }
        x = x + 1;
    }
    (automata, dict)
}

} // verus!
