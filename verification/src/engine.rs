//! The simulation engine, modelled on the host: the reference application
//! of a compiled kernel to every cell of a grid, the ping-pong roles of the
//! two device buffers, and the byte layout the grid takes in those buffers.

use crate::automata::{lemma_index_unique, Automata, Size};
use crate::rules::{
    compile_rules, eval_guards, identity_guards, lemma_identity, spec_guards, spec_step, Guard,
    Neighborhood, RuleList,
};
use vstd::bytes::{
    lemma_auto_spec_u32_to_from_le_bytes, spec_u32_from_le_bytes, spec_u32_to_le_bytes,
    u32_from_le_bytes, u32_to_le_bytes,
};
use vstd::prelude::*;
use vstd::slice::slice_subrange;

verus! {

/// Whether tiles of side `j` evenly cover a grid of this size.
pub open spec fn divides_both(size: Size, j: u32) -> bool {
    j != 0 && size.width % j == 0 && size.height % j == 0
}

/// The square tile side used to partition the grid for dispatch: the
/// largest value in [1, 16] that evenly divides both dimensions, or 1
/// when none beyond 1 does.
pub fn workgroup_size(size: Size) -> (w: u32)
    ensures
        1 <= w <= 16,
        divides_both(size, w),
        forall|j: u32| w < j <= 16 ==> !divides_both(size, j),
{
    let mut w = 1u32;
    let mut i = 2u32;
    while i <= 16
        invariant
            2 <= i <= 17,
            1 <= w < i,
            divides_both(size, w),
            forall|j: u32| w < j < i ==> !divides_both(size, j),
        decreases 17 - i,
    {
        if size.width % i == 0 && size.height % i == 0 {
            w = i;
        }
        i = i + 1;
    }
    w
}

/// The coordinate one step down from `v`, wrapping from 0 to `n - 1`.
pub open spec fn wrap_dec(v: u32, n: u32) -> u32 {
    if v == 0 {
        (n - 1) as u32
    } else {
        (v - 1) as u32
    }
}

/// The coordinate one step up from `v`, wrapping from `n - 1` to 0.
pub open spec fn wrap_inc(v: u32, n: u32) -> u32 {
    if v + 1 == n {
        0u32
    } else {
        (v + 1) as u32
    }
}

/// The state of the cell at `(x, y)`.
pub open spec fn cell_at(a: Automata, x: u32, y: u32) -> u32 {
    a.cells()[a.size.spec_index(x, y)]
}

/// The neighbor states sampled around `(x, y)`, wrapping at the grid
/// edges: all 8 adjacent cells for Moore, in row-major order; the 4
/// orthogonally adjacent cells for Von Neumann.
pub open spec fn spec_neighbors(a: Automata, x: u32, y: u32, n: Neighborhood) -> Seq<u32> {
    let xm = wrap_dec(x, a.size.width);
    let xp = wrap_inc(x, a.size.width);
    let ym = wrap_dec(y, a.size.height);
    let yp = wrap_inc(y, a.size.height);
    match n {
        Neighborhood::Moore => seq![
            cell_at(a, xm, ym),
            cell_at(a, x, ym),
            cell_at(a, xp, ym),
            cell_at(a, xm, y),
            cell_at(a, xp, y),
            cell_at(a, xm, yp),
            cell_at(a, x, yp),
            cell_at(a, xp, yp),
        ],
        Neighborhood::VonNeumann => seq![
            cell_at(a, x, ym),
            cell_at(a, xm, y),
            cell_at(a, xp, y),
            cell_at(a, x, yp),
        ],
    }
}

/// Collects the neighbor states around `(x, y)`.
pub fn neighbors(a: &Automata, x: u32, y: u32, n: Neighborhood) -> (r: Vec<u32>)
    requires
        a.wf(),
        x < a.size.width,
        y < a.size.height,
    ensures
        r@ == spec_neighbors(*a, x, y, n),
{
    let xm = if x == 0 {
        a.size.width - 1
    } else {
        x - 1
    };
    let xp = if x + 1 == a.size.width {
        0
    } else {
        x + 1
    };
    let ym = if y == 0 {
        a.size.height - 1
    } else {
        y - 1
    };
    let yp = if y + 1 == a.size.height {
        0
    } else {
        y + 1
    };
    let mut r: Vec<u32> = Vec::new();
    match n {
        Neighborhood::Moore => {
            r.push(a.get(xm, ym));
            r.push(a.get(x, ym));
            r.push(a.get(xp, ym));
            r.push(a.get(xm, y));
            r.push(a.get(xp, y));
            r.push(a.get(xm, yp));
            r.push(a.get(x, yp));
            r.push(a.get(xp, yp));
        },
        Neighborhood::VonNeumann => {
            r.push(a.get(x, ym));
            r.push(a.get(xm, y));
            r.push(a.get(xp, y));
            r.push(a.get(x, yp));
        },
    }
    proof {
        assert(r@ =~= spec_neighbors(*a, x, y, n));
    }
    r
}

/// One reference tick: every cell of the result is the kernel applied to
/// the same cell of the source grid and its neighbors there. All reads
/// come from the source ("current") grid; the result is the "next" one.
pub fn step_automata(a: &Automata, guards: &Vec<Guard>, n: Neighborhood) -> (r: Automata)
    requires
        a.wf(),
    ensures
        r.wf(),
        r.size == a.size,
        forall|x: u32, y: u32|
            #![trigger a.size.spec_index(x, y)]
            x < a.size.width && y < a.size.height ==> r.cells()[a.size.spec_index(x, y)]
                == spec_step(guards@, cell_at(*a, x, y), spec_neighbors(*a, x, y, n)),
{
    let size = a.size();
    let mut r = Automata::new(size);
    let mut x: u32 = 0;
    while x < size.width
        invariant
            a.wf(),
            size == a.size,
            x <= size.width,
            r.wf(),
            r.size == size,
            forall|x2: u32, y2: u32|
                #![trigger size.spec_index(x2, y2)]
                x2 < size.width && y2 < size.height && x2 < x ==> r.cells()[size.spec_index(x2, y2)]
                    == spec_step(guards@, cell_at(*a, x2, y2), spec_neighbors(*a, x2, y2, n)),
        decreases size.width - x,
    {
        let mut y: u32 = 0;
        while y < size.height
            invariant
                a.wf(),
                size == a.size,
                x < size.width,
                y <= size.height,
                r.wf(),
                r.size == size,
                forall|x2: u32, y2: u32|
                    #![trigger size.spec_index(x2, y2)]
                    x2 < size.width && y2 < size.height && (x2 < x || (x2 == x && y2 < y))
                        ==> r.cells()[size.spec_index(x2, y2)] == spec_step(
                        guards@,
                        cell_at(*a, x2, y2),
                        spec_neighbors(*a, x2, y2, n),
                    ),
            decreases size.height - y,
        {
            let ghost prev = r.cells();
            let adj = neighbors(a, x, y, n);
            let v = eval_guards(guards, a.get(x, y), adj.as_slice());
            r.set(x, y, v);
            proof {
                lemma_index_unique(size, x, y, x, y);
                assert forall|x2: u32, y2: u32|
                    #![trigger size.spec_index(x2, y2)]
                    x2 < size.width && y2 < size.height && (x2 < x || (x2 == x && y2 < y + 1))
                        implies r.cells()[size.spec_index(x2, y2)] == spec_step(
                    guards@,
                    cell_at(*a, x2, y2),
                    spec_neighbors(*a, x2, y2, n),
                ) by {
                    lemma_index_unique(size, x2, y2, x2, y2);
                    lemma_index_unique(size, x, y, x2, y2);
                    if !(x2 == x && y2 == y) {
                        assert(r.cells()[size.spec_index(x2, y2)] == prev[size.spec_index(x2, y2)]);
                    }
                }
            }
            y = y + 1;
        }
        x = x + 1;
    }
    r
}

/// The byte layout a grid takes in a device buffer: the row-major cells
/// packed 4 bytes each, little endian, with no padding between elements.
pub open spec fn spec_cell_bytes(cells: Seq<u32>) -> Seq<u8>
    decreases cells.len(),
{
    if cells.len() == 0 {
        Seq::empty()
    } else {
        spec_cell_bytes(cells.drop_last()) + spec_u32_to_le_bytes(cells.last())
    }
}

/// Packs cell states into the device buffer layout.
pub fn encode_cells(cells: &Vec<u32>) -> (r: Vec<u8>)
    ensures
        r@ == spec_cell_bytes(cells@),
        r@.len() == 4 * cells@.len(),
{
    let mut r: Vec<u8> = Vec::new();
    let mut i: usize = 0;
    while i < cells.len()
        invariant
            i <= cells@.len(),
            r@ == spec_cell_bytes(cells@.take(i as int)),
            r@.len() == 4 * i,
        decreases cells@.len() - i,
    {
        let mut quad = u32_to_le_bytes(cells[i]);
        r.append(&mut quad);
        proof {
            assert(cells@.take(i + 1 as int).drop_last() =~= cells@.take(i as int));
        }
        i = i + 1;
    }
    proof {
        assert(cells@.take(cells@.len() as int) =~= cells@);
    }
    r
}

/// Unpacks a device buffer read-back into cell states: `Some` exactly when
/// the byte length is a whole number of 4-byte cells.
pub fn decode_cells(bytes: &Vec<u8>) -> (r: Option<Vec<u32>>)
    ensures
        r is Some <==> bytes@.len() % 4 == 0,
        match r {
            Some(cells) => {
                &&& cells@.len() == bytes@.len() / 4
                &&& forall|j: int|
                    0 <= j < cells@.len() ==> cells@[j] == spec_u32_from_le_bytes(
                        #[trigger] bytes@.subrange(4 * j, 4 * j + 4),
                    )
            },
            None => true,
        },
{
    if bytes.len() % 4 != 0 {
        return None;
    }
    let len = bytes.len();
    let n = len / 4;
    let mut cells: Vec<u32> = Vec::new();
    let mut i: usize = 0;
    while i < n
        invariant
            i <= n,
            len == bytes@.len(),
            n == bytes@.len() / 4,
            bytes@.len() % 4 == 0,
            cells@.len() == i,
            forall|j: int|
                0 <= j < i ==> cells@[j] == spec_u32_from_le_bytes(
                    #[trigger] bytes@.subrange(4 * j, 4 * j + 4),
                ),
        decreases n - i,
    {
        proof {
            vstd::arithmetic::div_mod::lemma_fundamental_div_mod(bytes@.len() as int, 4);
            assert(4 * (i as int) + 4 <= len);
        }
        let quad = slice_subrange(bytes.as_slice(), 4 * i, 4 * i + 4);
        cells.push(u32_from_le_bytes(quad));
        i = i + 1;
    }
    Some(cells)
}

/// Packing then unpacking a grid gives back exactly the cells that were
/// written: the layout loses nothing and decode inverts encode.
pub proof fn lemma_cell_bytes_roundtrip(cells: Seq<u32>)
    ensures
        spec_cell_bytes(cells).len() == 4 * cells.len(),
        forall|j: int|
            0 <= j < cells.len() ==> spec_u32_from_le_bytes(
                #[trigger] spec_cell_bytes(cells).subrange(4 * j, 4 * j + 4),
            ) == cells[j],
    decreases cells.len(),
{
    lemma_auto_spec_u32_to_from_le_bytes();
    if cells.len() == 0 {
    } else {
        lemma_cell_bytes_roundtrip(cells.drop_last());
        let prefix = spec_cell_bytes(cells.drop_last());
        assert forall|j: int| 0 <= j < cells.len() implies spec_u32_from_le_bytes(
            #[trigger] spec_cell_bytes(cells).subrange(4 * j, 4 * j + 4),
        ) == cells[j] by {
            if j < cells.len() - 1 {
                assert(spec_cell_bytes(cells).subrange(4 * j, 4 * j + 4) =~= prefix.subrange(
                    4 * j,
                    4 * j + 4,
                ));
                assert(cells.drop_last()[j] == cells[j]);
            } else {
                assert(spec_cell_bytes(cells).subrange(4 * j, 4 * j + 4) =~= spec_u32_to_le_bytes(
                    cells.last(),
                ));
            }
        }
    }
}

/// The ping-pong buffer roles: of the two physical device buffers, the one
/// tagged "current" holds the latest generation and is only read; the one
/// tagged "next" is the tick's write target. Swapping flips the tag.
pub struct BufferRoles {
    pub current: u8,
}

impl BufferRoles {
    /// The tag names one of the two physical buffers.
    pub open spec fn wf(self) -> bool {
        self.current <= 1
    }

    /// The buffer that a tick writes: always the other one.
    pub open spec fn spec_next(self) -> u8 {
        (1 - self.current) as u8
    }

    /// Initially buffer 0 holds the host grid and is current.
    pub fn new() -> (r: Self)
        ensures
            r.wf(),
            r.current == 0,
    {
        BufferRoles { current: 0 }
    }

    /// The tag of the buffer a tick writes into.
    pub fn next(&self) -> (b: u8)
        requires
            self.wf(),
        ensures
            b == self.spec_next(),
    {
        1 - self.current
    }

    /// After a tick the written buffer becomes current and the old current
    /// buffer becomes the next write target.
    pub fn swap(&mut self)
        requires
            old(self).wf(),
        ensures
            final(self).wf(),
            final(self).current == old(self).spec_next(),
            final(self).spec_next() == old(self).current,
    {
        self.current = 1 - self.current;
    }
}

/// The "current" and "next" tags never name the same physical buffer, and
/// swapping alternates them deterministically between the two.
pub proof fn lemma_roles_distinct(r: BufferRoles)
    requires
        r.wf(),
    ensures
        r.spec_next() != r.current,
        r.spec_next() <= 1,
{
}

/// In a valid engine the tag assignment is a function of the generation
/// count alone: the buffer tagged current alternates deterministically
/// between the two physical buffers, and never names the tick's write
/// target.
pub proof fn lemma_engine_roles(e: Engine)
    requires
        e.wf(),
    ensures
        e.roles.current == e.generation % 2,
        e.roles.current != e.roles.spec_next(),
{
}

/// The double-buffered simulation engine, as visible on the host: the grid
/// mirror, the compiled kernel, the neighborhood, the buffer roles, and
/// the generation count.
pub struct Engine {
    pub automata: Automata,
    pub guards: Vec<Guard>,
    pub neighborhood: Neighborhood,
    pub roles: BufferRoles,
    pub generation: u64,
}

impl Engine {
    /// A valid engine: a well-formed grid, and the buffer tagged current
    /// is determined by the generation count alone: buffer 0 for even
    /// generations, buffer 1 for odd ones.
    pub open spec fn wf(self) -> bool {
        &&& self.automata.wf()
        &&& self.roles.wf()
        &&& self.roles.current == self.generation % 2
    }

    /// An engine over the initial grid, with the rule list compiled; the
    /// host grid is written to buffer 0, which starts as current.
    pub fn new(automata: Automata, rules: &RuleList) -> (r: Self)
        requires
            automata.wf(),
        ensures
            r.wf(),
            r.automata == automata,
            r.guards@ == spec_guards(rules.rules@),
            r.neighborhood == rules.neighborhood,
            r.generation == 0,
            r.roles.current == 0,
    {
        let guards = compile_rules(rules);
        Engine {
            automata,
            guards,
            neighborhood: rules.neighborhood,
            roles: BufferRoles::new(),
            generation: 0,
        }
    }

    /// One tick: the kernel reads every cell of the current generation and
    /// writes the next one; the host mirror is overwritten with the full
    /// result; then the buffer roles swap.
    pub fn tick(&mut self)
        requires
            old(self).wf(),
            old(self).generation < u64::MAX,
        ensures
            final(self).wf(),
            final(self).guards == old(self).guards,
            final(self).neighborhood == old(self).neighborhood,
            final(self).generation == old(self).generation + 1,
            final(self).roles.current == old(self).roles.spec_next(),
            final(self).automata.size == old(self).automata.size,
            forall|x: u32, y: u32|
                #![trigger old(self).automata.size.spec_index(x, y)]
                x < old(self).automata.size.width && y < old(self).automata.size.height
                    ==> final(self).automata.cells()[old(self).automata.size.spec_index(x, y)]
                    == spec_step(
                    old(self).guards@,
                    cell_at(old(self).automata, x, y),
                    spec_neighbors(old(self).automata, x, y, old(self).neighborhood),
                ),
    {
        let next = step_automata(&self.automata, &self.guards, self.neighborhood);
        self.automata = next;
        self.roles.swap();
        self.generation = self.generation + 1;
    }
}

/// A tick through the identity kernel (a decay-to-self rule for every live
/// state) reproduces the grid exactly, provided every live cell state is
/// among the covered states.
pub proof fn lemma_identity_tick(a: Automata, r: Automata, states: Seq<u32>, n: Neighborhood)
    requires
        a.wf(),
        r.wf(),
        r.size == a.size,
        forall|x: u32, y: u32|
            #![trigger a.size.spec_index(x, y)]
            x < a.size.width && y < a.size.height ==> r.cells()[a.size.spec_index(x, y)]
                == spec_step(
                identity_guards(states),
                cell_at(a, x, y),
                spec_neighbors(a, x, y, n),
            ),
        forall|i: int|
            0 <= i < a.cells().len() ==> (#[trigger] a.cells()[i] == 0 || states.contains(
                a.cells()[i],
            )),
    ensures
        r.cells() =~= a.cells(),
{
    assert forall|i: int| 0 <= i < a.cells().len() implies r.cells()[i] == a.cells()[i] by {
        let w = a.size.width as int;
        let x = (i % w) as u32;
        let y = (i / w) as u32;
        vstd::arithmetic::div_mod::lemma_fundamental_div_mod(i, w);
        assert(y < a.size.height) by (nonlinear_arith)
            requires
                0 < w,
                0 <= i < a.size.width * a.size.height,
                i == w * (i / w) + (i % w),
                y == i / w,
                w == a.size.width,
        ;
        assert(a.size.spec_index(x, y) == i) by (nonlinear_arith)
            requires
                0 < w,
                0 <= i,
                i == w * (i / w) + (i % w),
                x == i % w,
                y == i / w,
                w == a.size.width,
                a.size.spec_index(x, y) == x + y * w,
        ;
        lemma_identity(states, a.cells()[i], spec_neighbors(a, x, y, n));
    }
}

} // verus!
