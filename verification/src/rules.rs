//! Declarative transition rules and the rule compiler.
//!
//! A `RuleList` is an ordered list of (state change, rule) pairs plus a
//! neighborhood choice. The compiler flattens it into an ordered sequence of
//! guarded transitions, evaluated top to bottom with the first match winning
//! and a fallback of state 0; the same sequence is also rendered as the
//! source text of the per-cell update kernel.

use crate::text::{dec_rep, u32_dec};
use core::ops::Range;
use vstd::prelude::*;

verus! {

/// No symmetry expansion.
pub const ASYMMETRIC: u8 = 0;

/// Rotational symmetry.
pub const ROTATIONAL: u8 = 1;

/// Mirror symmetry across the width.
pub const FLIP_WIDTH: u8 = 2;

/// Mirror symmetry across the height.
pub const FLIP_HEIGHT: u8 = 4;

/// Mirror symmetry across both axes.
pub const REFLECT: u8 = FLIP_WIDTH | FLIP_HEIGHT;

/// Symmetry flags carried by a rule list. They are accepted and stored but
/// not yet consulted by the compiler.
pub struct Symmetry(pub u8);

impl From<u8> for Symmetry {
    fn from(byte: u8) -> (r: Self) {
        Symmetry(byte)
    }
}

impl vstd::std_specs::convert::FromSpecImpl<u8> for Symmetry {
    open spec fn obeys_from_spec() -> bool {
        true
    }

    open spec fn from_spec(v: u8) -> Self {
        Symmetry(v)
    }
}

/// Which cells around a coordinate are sampled by counting rules.
#[derive(Clone, Copy, PartialEq, Eq, Structural, Debug)]
pub enum Neighborhood {
    /// The 8 adjacent cells.
    Moore,
    /// The 4 orthogonally adjacent cells.
    VonNeumann,
}

/// One declarative transition rule.
pub enum Rule {
    /// Transition unconditionally once the from-state matches.
    Decay,
    /// Transition when the neighbor count matches: with a specific state,
    /// neighbors exactly equal to it are counted; without one, all nonzero
    /// neighbors are.
    Counting { state: Option<u32>, count: u32 },
}

/// An ordered set of (from-state, to-state) pairs.
pub struct StateChange(pub Vec<(u32, u32)>);

/// The number of states a range covers.
pub open spec fn range_len(r: Range<u32>) -> int {
    if r.start <= r.end {
        r.end - r.start
    } else {
        0
    }
}

impl StateChange {
    /// A single (from, to) pair.
    pub fn pair(from: u32, to: u32) -> (r: Self)
        ensures
            r.0@ =~= seq![(from, to)],
    {
        StateChange(vec![(from, to)])
    }

    /// Pairs two ranges elementwise: from[i] maps to to[i]. When the ranges
    /// have unequal lengths, the excess of the longer one is dropped.
    pub fn zip_ranges(from: Range<u32>, to: Range<u32>) -> (r: Self)
        ensures
            r.0@.len() == if range_len(from) <= range_len(to) {
                range_len(from)
            } else {
                range_len(to)
            },
            forall|i: int|
                0 <= i < r.0@.len() ==> r.0@[i] == ((from.start + i) as u32, (to.start + i) as u32),
    {
        let n_from = if from.start <= from.end {
            from.end - from.start
        } else {
            0
        };
        let n_to = if to.start <= to.end {
            to.end - to.start
        } else {
            0
        };
        let n = if n_from <= n_to {
            n_from
        } else {
            n_to
        };
        let mut pairs: Vec<(u32, u32)> = Vec::new();
        let mut i: u32 = 0;
        while i < n
            invariant
                i <= n,
                n <= range_len(from),
                n <= range_len(to),
                pairs@.len() == i,
                forall|k: int|
                    0 <= k < i ==> pairs@[k] == ((from.start + k) as u32, (to.start + k) as u32),
            decreases n - i,
        {
            pairs.push((from.start + i, to.start + i));
            i = i + 1;
        }
        StateChange(pairs)
    }

    /// Maps every state in the range to the one constant target.
    pub fn range_to(from: Range<u32>, to: u32) -> (r: Self)
        ensures
            r.0@.len() == range_len(from),
            forall|i: int| 0 <= i < r.0@.len() ==> r.0@[i] == ((from.start + i) as u32, to),
    {
        let n = if from.start <= from.end {
            from.end - from.start
        } else {
            0
        };
        let mut pairs: Vec<(u32, u32)> = Vec::new();
        let mut i: u32 = 0;
        while i < n
            invariant
                i <= n,
                n == range_len(from),
                pairs@.len() == i,
                forall|k: int| 0 <= k < i ==> pairs@[k] == ((from.start + k) as u32, to),
            decreases n - i,
        {
            pairs.push((from.start + i, to));
            i = i + 1;
        }
        StateChange(pairs)
    }
}

/// An ordered list of transition rules; order is significant, the first
/// matching rule wins.
pub struct RuleList {
    pub rules: Vec<(StateChange, Rule)>,
    pub symmetry: Symmetry,
    pub neighborhood: Neighborhood,
}

impl RuleList {
    /// An empty rule list.
    pub fn new(symmetry: Symmetry, neighborhood: Neighborhood) -> (r: Self)
        ensures
            r.rules@.len() == 0,
            r.symmetry == symmetry,
            r.neighborhood == neighborhood,
    {
        RuleList { rules: Vec::new(), symmetry, neighborhood }
    }

    /// A rule list over the given rules, in their given order.
    pub fn from_rules(
        symmetry: Symmetry,
        neighborhood: Neighborhood,
        rules: Vec<(StateChange, Rule)>,
    ) -> (r: Self)
        ensures
            r.rules == rules,
            r.symmetry == symmetry,
            r.neighborhood == neighborhood,
    {
        RuleList { rules, symmetry, neighborhood }
    }

    /// Appends one rule at the end of the list.
    pub fn add_rule(&mut self, state_change: StateChange, rule: Rule)
        ensures
            final(self).rules@ =~= old(self).rules@.push((state_change, rule)),
            final(self).symmetry == old(self).symmetry,
            final(self).neighborhood == old(self).neighborhood,
    {
        self.rules.push((state_change, rule));
    }
}

/// One compiled guarded transition.
#[derive(Clone, Copy, PartialEq, Eq, Structural, Debug)]
pub struct Guard {
    pub from: u32,
    pub to: u32,
    pub check: Check,
}

/// The neighbor condition of a compiled guard.
#[derive(Clone, Copy, PartialEq, Eq, Structural, Debug)]
pub enum Check {
    /// No condition on the neighbors.
    Always,
    /// Exactly `count` neighbors at state `state`.
    Matching { state: u32, count: u32 },
    /// Exactly `count` nonzero neighbors.
    Living { count: u32 },
}

/// The guard one (from, to) pair of a rule compiles to.
pub open spec fn spec_guard(pair: (u32, u32), rule: Rule) -> Guard {
    Guard {
        from: pair.0,
        to: pair.1,
        check: match rule {
            Rule::Decay => Check::Always,
            Rule::Counting { state: Some(s), count } => Check::Matching { state: s, count },
            Rule::Counting { state: None, count } => Check::Living { count },
        },
    }
}

/// The guards one rule expands to, one per (from, to) pair, in pair order.
pub open spec fn spec_expand(pairs: Seq<(u32, u32)>, rule: Rule) -> Seq<Guard> {
    pairs.map(|i: int, p: (u32, u32)| spec_guard(p, rule))
}

/// The flat, ordered guard sequence a rule list compiles to.
pub open spec fn spec_guards(rules: Seq<(StateChange, Rule)>) -> Seq<Guard>
    decreases rules.len(),
{
    if rules.len() == 0 {
        Seq::empty()
    } else {
        spec_guards(rules.drop_last()) + spec_expand(rules.last().0.0@, rules.last().1)
    }
}

/// Compiles the rule list into its flat guard sequence, in rule order,
/// each state change expanded in pair order.
pub fn compile_rules(rules: &RuleList) -> (r: Vec<Guard>)
    ensures
        r@ == spec_guards(rules.rules@),
{
    let mut out: Vec<Guard> = Vec::new();
    let mut i: usize = 0;
    while i < rules.rules.len()
        invariant
            i <= rules.rules@.len(),
            out@ == spec_guards(rules.rules@.take(i as int)),
        decreases rules.rules@.len() - i,
    {
        let pair = &rules.rules[i];
        let sc = &pair.0;
        let rule = &pair.1;
        let mut j: usize = 0;
        while j < sc.0.len()
            invariant
                j <= sc.0@.len(),
                *sc == rules.rules@[i as int].0,
                *rule == rules.rules@[i as int].1,
                i < rules.rules@.len(),
                out@ == spec_guards(rules.rules@.take(i as int)) + spec_expand(
                    sc.0@.take(j as int),
                    *rule,
                ),
            decreases sc.0@.len() - j,
        {
            let p = sc.0[j];
            let check = match rule {
                Rule::Decay => Check::Always,
                Rule::Counting { state: Some(s), count } => Check::Matching {
                    state: *s,
                    count: *count,
                },
                Rule::Counting { state: None, count } => Check::Living { count: *count },
            };
            out.push(Guard { from: p.0, to: p.1, check });
            proof {
                assert(spec_expand(sc.0@.take(j + 1 as int), *rule) =~= spec_expand(
                    sc.0@.take(j as int),
                    *rule,
                ).push(spec_guard(sc.0@[j as int], *rule)));
            }
            j = j + 1;
        }
        proof {
            assert(sc.0@.take(sc.0@.len() as int) =~= sc.0@);
            assert(rules.rules@.take(i + 1 as int).drop_last() =~= rules.rules@.take(i as int));
            assert(rules.rules@.take(i + 1 as int).last() == rules.rules@[i as int]);
        }
        i = i + 1;
    }
    proof {
        assert(rules.rules@.take(rules.rules@.len() as int) =~= rules.rules@);
    }
    out
}

/// How many of the neighbor states equal `s`.
pub open spec fn spec_count_matching(adj: Seq<u32>, s: u32) -> nat
    decreases adj.len(),
{
    if adj.len() == 0 {
        0
    } else {
        spec_count_matching(adj.drop_last(), s) + if adj.last() == s {
            1nat
        } else {
            0nat
        }
    }
}

/// How many of the neighbor states are nonzero.
pub open spec fn spec_count_living(adj: Seq<u32>) -> nat
    decreases adj.len(),
{
    if adj.len() == 0 {
        0
    } else {
        spec_count_living(adj.drop_last()) + if adj.last() != 0 {
            1nat
        } else {
            0nat
        }
    }
}

/// Counts the neighbor states exactly equal to `s`.
pub fn count_matching(adj: &[u32], s: u32) -> (n: usize)
    ensures
        n == spec_count_matching(adj@, s),
{
    let mut n: usize = 0;
    let mut i: usize = 0;
    while i < adj.len()
        invariant
            i <= adj@.len(),
            n == spec_count_matching(adj@.take(i as int), s),
            n <= i,
        decreases adj@.len() - i,
    {
        if adj[i] == s {
            n = n + 1;
        }
        proof {
            assert(adj@.take(i + 1 as int).drop_last() =~= adj@.take(i as int));
        }
        i = i + 1;
    }
    proof {
        assert(adj@.take(adj@.len() as int) =~= adj@);
    }
    n
}

/// Counts the nonzero ("living") neighbor states.
pub fn count_living(adj: &[u32]) -> (n: usize)
    ensures
        n == spec_count_living(adj@),
{
    let mut n: usize = 0;
    let mut i: usize = 0;
    while i < adj.len()
        invariant
            i <= adj@.len(),
            n == spec_count_living(adj@.take(i as int)),
            n <= i,
        decreases adj@.len() - i,
    {
        if adj[i] != 0 {
            n = n + 1;
        }
        proof {
            assert(adj@.take(i + 1 as int).drop_last() =~= adj@.take(i as int));
        }
        i = i + 1;
    }
    proof {
        assert(adj@.take(adj@.len() as int) =~= adj@);
    }
    n
}

/// Whether this guard's neighbor condition holds.
pub open spec fn check_holds(c: Check, adj: Seq<u32>) -> bool {
    match c {
        Check::Always => true,
        Check::Matching { state, count } => spec_count_matching(adj, state) == count,
        Check::Living { count } => spec_count_living(adj) == count,
    }
}

/// Whether this guard fires for a cell at `state` with neighbors `adj`.
pub open spec fn guard_fires(g: Guard, state: u32, adj: Seq<u32>) -> bool {
    g.from == state && check_holds(g.check, adj)
}

/// The state the kernel produces: the target of the first guard that
/// fires, or the default 0 when none does.
pub open spec fn spec_step(guards: Seq<Guard>, state: u32, adj: Seq<u32>) -> u32
    decreases guards.len(),
{
    if guards.len() == 0 {
        0
    } else if guard_fires(guards[0], state, adj) {
        guards[0].to
    } else {
        spec_step(guards.drop_first(), state, adj)
    }
}

/// Evaluates the compiled guards on one cell, first match wins.
pub fn eval_guards(guards: &Vec<Guard>, state: u32, adj: &[u32]) -> (r: u32)
    ensures
        r == spec_step(guards@, state, adj@),
{
    let mut i: usize = 0;
    proof {
        assert(guards@.skip(0) =~= guards@);
    }
    while i < guards.len()
        invariant
            i <= guards@.len(),
            spec_step(guards@, state, adj@) == spec_step(guards@.skip(i as int), state, adj@),
        decreases guards@.len() - i,
    {
        let g = guards[i];
        proof {
            assert(guards@.skip(i as int)[0] == g);
        }
        let fires = if g.from == state {
            match g.check {
                Check::Always => true,
                Check::Matching { state: s, count } => count_matching(adj, s) == count as usize,
                Check::Living { count } => count_living(adj) == count as usize,
            }
        } else {
            false
        };
        if fires {
            return g.to;
        }
        proof {
            assert(guards@.skip(i + 1 as int) =~= guards@.skip(i as int).drop_first());
        }
        i = i + 1;
    }
    proof {
        assert(guards@.skip(guards@.len() as int) =~= Seq::<Guard>::empty());
    }
    0
}

/// Whether some guard fires for this state and neighbor configuration.
pub open spec fn some_guard_fires(guards: Seq<Guard>, state: u32, adj: Seq<u32>) -> bool {
    exists|i: int| 0 <= i < guards.len() && guard_fires(guards[i], state, adj)
}

/// First-match-wins: once some guard among the earlier rules fires for a
/// (state, neighbor-configuration) pair, appending later rules cannot
/// change the result.
pub proof fn lemma_first_match_wins(gs1: Seq<Guard>, gs2: Seq<Guard>, state: u32, adj: Seq<u32>)
    requires
        some_guard_fires(gs1, state, adj),
    ensures
        spec_step(gs1 + gs2, state, adj) == spec_step(gs1, state, adj),
    decreases gs1.len(),
{
    let i = choose|i: int| 0 <= i < gs1.len() && guard_fires(gs1[i], state, adj);
    assert((gs1 + gs2)[0] == gs1[0]);
    if guard_fires(gs1[0], state, adj) {
    } else {
        assert(i >= 1);
        assert(guard_fires(gs1.drop_first()[i - 1], state, adj));
        assert(some_guard_fires(gs1.drop_first(), state, adj));
        lemma_first_match_wins(gs1.drop_first(), gs2, state, adj);
        assert((gs1 + gs2).drop_first() =~= gs1.drop_first() + gs2);
    }
}

/// Compilation distributes over appending rules: the guards of a longer
/// list are the guards of its earlier rules followed by those of the
/// later ones, so `lemma_first_match_wins` applies to whole rule lists.
pub proof fn lemma_spec_guards_append(rs1: Seq<(StateChange, Rule)>, rs2: Seq<(StateChange, Rule)>)
    ensures
        spec_guards(rs1 + rs2) == spec_guards(rs1) + spec_guards(rs2),
    decreases rs2.len(),
{
    if rs2.len() == 0 {
        assert(rs1 + rs2 =~= rs1);
        assert(spec_guards(rs1) + spec_guards(rs2) =~= spec_guards(rs1));
    } else {
        lemma_spec_guards_append(rs1, rs2.drop_last());
        assert((rs1 + rs2).drop_last() =~= rs1 + rs2.drop_last());
        assert((rs1 + rs2).last() == rs2.last());
        assert(spec_guards(rs1) + spec_guards(rs2) =~= spec_guards(rs1) + spec_guards(
            rs2.drop_last(),
        ) + spec_expand(rs2.last().0.0@, rs2.last().1));
    }
}

/// A single decay rule: a cell at the from-state transitions
/// unconditionally; every other state falls to the default 0.
pub proof fn lemma_decay(from: u32, to: u32, state: u32, adj: Seq<u32>)
    ensures
        spec_step(seq![Guard { from, to, check: Check::Always }], state, adj) == if state == from {
            to
        } else {
            0u32
        },
{
    let gs = seq![Guard { from, to, check: Check::Always }];
    if state != from {
        assert(gs.drop_first() =~= Seq::<Guard>::empty());
        assert(spec_step(Seq::<Guard>::empty(), state, adj) == 0);
    }
}

/// A single counting rule: a cell at the from-state transitions exactly
/// when the count of neighbors at the given state equals the required
/// count; otherwise it falls to the default 0.
pub proof fn lemma_counting(from: u32, to: u32, s: u32, n: u32, state: u32, adj: Seq<u32>)
    ensures
        spec_step(seq![Guard { from, to, check: Check::Matching { state: s, count: n } }], state, adj)
            == if state == from && spec_count_matching(adj, s) == n {
            to
        } else {
            0u32
        },
{
    let gs = seq![Guard { from, to, check: Check::Matching { state: s, count: n } }];
    if !(state == from && spec_count_matching(adj, s) == n) {
        assert(gs.drop_first() =~= Seq::<Guard>::empty());
        assert(spec_step(Seq::<Guard>::empty(), state, adj) == 0);
    }
}

/// The guards of the identity kernel: one decay-to-self rule per state.
pub open spec fn identity_guards(states: Seq<u32>) -> Seq<Guard> {
    states.map(|i: int, s: u32| Guard { from: s, to: s, check: Check::Always })
}

/// The identity kernel leaves every covered state (and the background
/// state 0) unchanged; every state not covered falls to 0.
pub proof fn lemma_identity(states: Seq<u32>, state: u32, adj: Seq<u32>)
    ensures
        spec_step(identity_guards(states), state, adj) == if state == 0 || states.contains(state) {
            state
        } else {
            0u32
        },
    decreases states.len(),
{
    let gs = identity_guards(states);
    if states.len() == 0 {
    } else if gs[0].from == state {
        assert(states.contains(state) || state == 0) by {
            assert(states[0] == state);
        }
    } else {
        assert(gs.drop_first() =~= identity_guards(states.drop_first()));
        lemma_identity(states.drop_first(), state, adj);
        if states.contains(state) {
            let k = choose|k: int| 0 <= k < states.len() && states[k] == state;
            assert(k >= 1);
            assert(states.drop_first()[k - 1] == state);
            assert(states.drop_first().contains(state));
        } else {
            assert(!states.drop_first().contains(state)) by {
                if states.drop_first().contains(state) {
                    let k = choose|k: int|
                        0 <= k < states.drop_first().len() && states.drop_first()[k] == state;
                    assert(states[k + 1] == state);
                }
            }
        }
    }
}

/// The source line one guard compiles to.
pub open spec fn spec_guard_line(g: Guard) -> Seq<char> {
    match g.check {
        Check::Always => "    if state == "@ + dec_rep(g.from as nat) + "u { return "@ + dec_rep(
            g.to as nat,
        ) + "u; }\n"@,
        Check::Matching { state, count } => "    if state == "@ + dec_rep(g.from as nat)
            + "u && count_matching(adj, "@ + dec_rep(state as nat) + "u) == "@ + dec_rep(
            count as nat,
        ) + "u { return "@ + dec_rep(g.to as nat) + "u; }\n"@,
        Check::Living { count } => "    if state == "@ + dec_rep(g.from as nat)
            + "u && count_living(adj) == "@ + dec_rep(count as nat) + "u { return "@ + dec_rep(
            g.to as nat,
        ) + "u; }\n"@,
    }
}

/// The source lines of a guard sequence, in order.
pub open spec fn spec_guard_lines(gs: Seq<Guard>) -> Seq<char>
    decreases gs.len(),
{
    if gs.len() == 0 {
        Seq::empty()
    } else {
        spec_guard_lines(gs.drop_last()) + spec_guard_line(gs.last())
    }
}

/// The line that samples the chosen neighborhood.
pub open spec fn spec_neighborhood_line(n: Neighborhood) -> Seq<char> {
    match n {
        Neighborhood::Moore => "    let adj = moore_neighborhood(coord);\n"@,
        Neighborhood::VonNeumann => "    let adj = von_neumann_neighborhood(coord);\n"@,
    }
}

/// The full kernel source a rule list compiles to.
pub open spec fn spec_compute_shader(
    rules: Seq<(StateChange, Rule)>,
    neighborhood: Neighborhood,
) -> Seq<char> {
    "fn main(coord: vec2<i32>, state: u32) -> u32 {\n"@ + spec_neighborhood_line(neighborhood)
        + spec_guard_lines(spec_guards(rules)) + "    return 0u;\n}"@
}

/// Appends the guarded return for one compiled guard.
fn emit_guard(out: &mut String, g: Guard)
    ensures
        final(out)@ == old(out)@ + spec_guard_line(g),
{
    out.append("    if state == ");
    let from_s = u32_dec(g.from);
    out.append(from_s.as_str());
    match g.check {
        Check::Always => {
            out.append("u { return ");
        },
        Check::Matching { state, count } => {
            out.append("u && count_matching(adj, ");
            let state_s = u32_dec(state);
            out.append(state_s.as_str());
            out.append("u) == ");
            let count_s = u32_dec(count);
            out.append(count_s.as_str());
            out.append("u { return ");
        },
        Check::Living { count } => {
            out.append("u && count_living(adj) == ");
            let count_s = u32_dec(count);
            out.append(count_s.as_str());
            out.append("u { return ");
        },
    }
    let to_s = u32_dec(g.to);
    out.append(to_s.as_str());
    out.append("u; }\n");
    proof {
        assert(out@ =~= old(out)@ + spec_guard_line(g));
    }
}

/// Compiles the rule list into the kernel source text: the neighborhood
/// sample, one guarded return per expanded (from, to) pair in rule order,
/// and the default return of state 0.
pub fn compile_compute_shader(rules: RuleList) -> (r: String)
    ensures
        r@ == spec_compute_shader(rules.rules@, rules.neighborhood),
{
    let guards = compile_rules(&rules);
    let mut out = String::new();
    out.append("fn main(coord: vec2<i32>, state: u32) -> u32 {\n");
    match rules.neighborhood {
        Neighborhood::Moore => out.append("    let adj = moore_neighborhood(coord);\n"),
        Neighborhood::VonNeumann => out.append("    let adj = von_neumann_neighborhood(coord);\n"),
    }
    let ghost prefix = out@;
    proof {
        assert(out@ =~= prefix + spec_guard_lines(guards@.take(0)));
    }
    let mut i: usize = 0;
    while i < guards.len()
        invariant
            i <= guards@.len(),
            guards@ == spec_guards(rules.rules@),
            prefix == "fn main(coord: vec2<i32>, state: u32) -> u32 {\n"@
                + spec_neighborhood_line(rules.neighborhood),
            out@ == prefix + spec_guard_lines(guards@.take(i as int)),
        decreases guards@.len() - i,
    {
        emit_guard(&mut out, guards[i]);
        proof {
            assert(guards@.take(i + 1 as int).drop_last() =~= guards@.take(i as int));
            assert(out@ =~= prefix + spec_guard_lines(guards@.take(i + 1 as int)));
        }
        i = i + 1;
    }
    out.append("    return 0u;\n}");
    proof {
        assert(guards@.take(guards@.len() as int) =~= guards@);
        assert(out@ =~= spec_compute_shader(rules.rules@, rules.neighborhood));
    }
    out
}

} // verus!
