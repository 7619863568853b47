use gridded_automata::automata::{Automata, Size};
use gridded_automata::engine::{
    decode_cells, encode_cells, neighbors, step_automata, workgroup_size, BufferRoles, Engine,
};
use gridded_automata::rules::{
    compile_rules, Neighborhood, Rule, RuleList, StateChange, Symmetry, ASYMMETRIC,
};
use gridded_automata::scheduler::Scheduler;
use gridded_automata::{
    neighborhood_shader, surface_policy, workgroup_directive, SurfaceAction, SurfaceIssue,
};

fn grid_from(size: Size, data: Vec<u32>) -> Automata {
    assert_eq!(data.len() as u32, size.width * size.height);
    Automata { data, size }
}

/// A rule list that keeps every listed state alive and lets the rest fall
/// to the background.
fn identity_rules(states: &[u32]) -> RuleList {
    let mut rules = RuleList::new(Symmetry::from(ASYMMETRIC), Neighborhood::Moore);
    for s in states {
        rules.add_rule(StateChange::pair(*s, *s), Rule::Decay);
    }
    rules
}

#[test]
fn workgroup_size_picks_largest_common_divisor_up_to_16() {
    assert_eq!(workgroup_size(Size { width: 512, height: 512 }), 16);
    assert_eq!(workgroup_size(Size { width: 6, height: 4 }), 2);
    assert_eq!(workgroup_size(Size { width: 48, height: 36 }), 12);
    assert_eq!(workgroup_size(Size { width: 7, height: 5 }), 1);
    assert_eq!(workgroup_size(Size { width: 34, height: 34 }), 2);
}

#[test]
fn moore_neighbors_wrap_around() {
    let size = Size { width: 3, height: 3 };
    let a = grid_from(size, vec![1, 2, 3, 4, 5, 6, 7, 8, 9]);
    // Around the center: the 8 surrounding cells in row-major order.
    assert_eq!(neighbors(&a, 1, 1, Neighborhood::Moore), vec![1, 2, 3, 4, 6, 7, 8, 9]);
    // Around the corner, wrapping: row above is the bottom row.
    assert_eq!(neighbors(&a, 0, 0, Neighborhood::Moore), vec![9, 7, 8, 3, 2, 6, 4, 5]);
}

#[test]
fn von_neumann_neighbors() {
    let size = Size { width: 3, height: 3 };
    let a = grid_from(size, vec![1, 2, 3, 4, 5, 6, 7, 8, 9]);
    assert_eq!(neighbors(&a, 1, 1, Neighborhood::VonNeumann), vec![2, 4, 6, 8]);
}

#[test]
fn step_applies_kernel_per_cell() {
    // A decay rule turns every 1 into 2 and everything else to 0.
    let rules = RuleList::from_rules(
        Symmetry::from(ASYMMETRIC),
        Neighborhood::Moore,
        vec![(StateChange::pair(1, 2), Rule::Decay)],
    );
    let guards = compile_rules(&rules);
    let size = Size { width: 2, height: 2 };
    let a = grid_from(size, vec![1, 0, 3, 1]);
    let next = step_automata(&a, &guards, Neighborhood::Moore);
    assert_eq!(next.data, vec![2, 0, 0, 2]);
}

#[test]
fn conway_birth_rule_on_blinker() {
    // Birth on 3 live neighbors, survival on 2 or 3, over a 5x5 torus.
    let mut rules = RuleList::new(Symmetry::from(ASYMMETRIC), Neighborhood::Moore);
    rules.add_rule(StateChange::pair(0, 1), Rule::Counting { state: None, count: 3 });
    rules.add_rule(StateChange::pair(1, 1), Rule::Counting { state: None, count: 2 });
    rules.add_rule(StateChange::pair(1, 1), Rule::Counting { state: None, count: 3 });
    let guards = compile_rules(&rules);
    let size = Size { width: 5, height: 5 };
    let mut a = Automata::new(size);
    // A horizontal blinker in the middle row.
    a.set(1, 2, 1);
    a.set(2, 2, 1);
    a.set(3, 2, 1);
    let next = step_automata(&a, &guards, Neighborhood::Moore);
    // It flips to a vertical blinker in the middle column.
    for x in 0..5u32 {
        for y in 0..5u32 {
            let expected = if x == 2 && (1..=3).contains(&y) { 1 } else { 0 };
            assert_eq!(next.get(x, y), expected);
        }
    }
}

#[test]
fn buffer_roles_alternate_and_differ() {
    let mut roles = BufferRoles::new();
    assert_eq!(roles.current, 0);
    assert_eq!(roles.next(), 1);
    roles.swap();
    assert_eq!(roles.current, 1);
    assert_eq!(roles.next(), 0);
    roles.swap();
    assert_eq!(roles.current, 0);
    assert_ne!(roles.current, roles.next());
}

#[test]
fn engine_ticks_swap_roles_deterministically() {
    let rules = identity_rules(&[1]);
    let size = Size { width: 2, height: 2 };
    let mut engine = Engine::new(grid_from(size, vec![1, 0, 0, 1]), &rules);
    assert_eq!(engine.roles.current, 0);
    for n in 1..=4u64 {
        engine.tick();
        assert_eq!(engine.generation, n);
        // The tag alternates between the two physical buffers each tick...
        assert_eq!(engine.roles.current as u64, n % 2);
        // ...and never names the buffer a tick writes next.
        assert_ne!(engine.roles.current, engine.roles.next());
    }
}

#[test]
fn cell_bytes_layout_is_packed_little_endian() {
    let bytes = encode_cells(&vec![1u32, 2, 0x01020304]);
    assert_eq!(
        bytes,
        vec![1, 0, 0, 0, 2, 0, 0, 0, 0x04, 0x03, 0x02, 0x01]
    );
}

#[test]
fn cell_bytes_roundtrip() {
    let cells = vec![0u32, 1, 77, u32::MAX, 1 << 31];
    let decoded = decode_cells(&encode_cells(&cells)).unwrap();
    assert_eq!(decoded, cells);
}

#[test]
fn decode_rejects_partial_cells() {
    assert!(decode_cells(&vec![1u8, 2, 3]).is_none());
    assert!(decode_cells(&vec![1u8, 2, 3, 4, 5]).is_none());
    assert_eq!(decode_cells(&Vec::new()).unwrap(), Vec::<u32>::new());
}

#[test]
fn identity_kernel_roundtrip_matches_host_reference() {
    // A grid written to the device, ticked through the identity kernel,
    // and read back equals the host-computed reference application.
    let size = Size { width: 4, height: 3 };
    let a = grid_from(size, vec![0, 1, 2, 1, 0, 0, 2, 2, 1, 0, 1, 2]);
    let rules = identity_rules(&[1, 2]);

    // Host mirror through the device buffer layout and back.
    let readback = decode_cells(&encode_cells(&a.data)).unwrap();
    assert_eq!(readback, a.data);

    // One engine tick through the identity kernel.
    let mut engine = Engine::new(grid_from(size, readback), &rules);
    engine.tick();

    // The reference application of the same rule semantics.
    let guards = compile_rules(&rules);
    let reference = step_automata(&a, &guards, Neighborhood::Moore);

    assert_eq!(engine.automata.data, reference.data);
    assert_eq!(engine.automata.data, a.data);
}

#[test]
fn uncovered_state_falls_to_background_under_identity_kernel() {
    let size = Size { width: 2, height: 1 };
    let a = grid_from(size, vec![3, 1]);
    let mut engine = Engine::new(a, &identity_rules(&[1, 2]));
    engine.tick();
    // State 3 has no decay-to-self rule, so it falls to 0; state 1 stays.
    assert_eq!(engine.automata.data, vec![0, 1]);
}

#[test]
fn scheduler_pays_out_whole_ticks_and_keeps_remainder() {
    // At 60 fps, 0.05 s added to an empty accumulator yields exactly 3
    // ticks and leaves a remainder below one tick quantum.
    let mut s = Scheduler::new(60);
    let ticks = s.advance(50_000_000);
    assert_eq!(ticks, 3);
    assert!(s.accumulator < 1_000_000_000);
    assert_eq!(s.accumulator, 0);
}

#[test]
fn scheduler_accumulates_fractional_time() {
    let mut s = Scheduler::new(60);
    // 10 ms is less than one 60th of a second: no tick yet.
    assert_eq!(s.advance(10_000_000), 0);
    assert_eq!(s.accumulator, 600_000_000);
    // Another 10 ms pushes it over one quantum; the leftover is kept, not
    // reset.
    assert_eq!(s.advance(10_000_000), 1);
    assert_eq!(s.accumulator, 200_000_000);
}

#[test]
fn scheduler_at_30_fps() {
    let mut s = Scheduler::new(30);
    assert_eq!(s.advance(100_000_000), 3);
    assert_eq!(s.accumulator, 0);
}

#[test]
fn surface_policy_matches_error_taxonomy() {
    assert_eq!(surface_policy(&SurfaceIssue::Lost), SurfaceAction::Reconfigure);
    assert_eq!(surface_policy(&SurfaceIssue::Outdated), SurfaceAction::Reconfigure);
    assert_eq!(surface_policy(&SurfaceIssue::OutOfMemory), SurfaceAction::Exit);
    assert_eq!(surface_policy(&SurfaceIssue::Timeout), SurfaceAction::SkipFrame);
}

#[test]
fn shader_glue_lines() {
    assert_eq!(
        neighborhood_shader(&gridded_automata::Neighborhood::Moore),
        "fn neighborhood(coord: vec2<i32>) -> Neighborhood { return moore(coord); }\n"
    );
    assert_eq!(
        neighborhood_shader(&gridded_automata::Neighborhood::VonNeumann),
        "fn neighborhood(coord: vec2<i32>) -> Neighborhood { return von_neumann(coord); }\n"
    );
    assert_eq!(workgroup_directive(16), "@compute @workgroup_size(16, 16, 1)");
    assert_eq!(workgroup_directive(1), "@compute @workgroup_size(1, 1, 1)");
}
