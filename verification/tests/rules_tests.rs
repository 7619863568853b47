use gridded_automata::rules::{
    compile_compute_shader, compile_rules, count_living, count_matching, eval_guards, Check, Guard,
    Neighborhood, Rule, RuleList, StateChange, Symmetry, ASYMMETRIC,
};

fn decay_list(from: u32, to: u32) -> RuleList {
    RuleList::from_rules(
        Symmetry::from(ASYMMETRIC),
        Neighborhood::Moore,
        vec![(StateChange::pair(from, to), Rule::Decay)],
    )
}

#[test]
fn decay_rule_transitions_matching_state() {
    let guards = compile_rules(&decay_list(1, 2));
    // Any neighbor configuration: the decay fires on state 1.
    assert_eq!(eval_guards(&guards, 1, &[0, 0, 0, 0, 0, 0, 0, 0]), 2);
    assert_eq!(eval_guards(&guards, 1, &[7, 7, 7, 7, 7, 7, 7, 7]), 2);
    assert_eq!(eval_guards(&guards, 1, &[1, 2, 3, 4]), 2);
}

#[test]
fn decay_rule_defaults_unmatched_state_to_zero() {
    let guards = compile_rules(&decay_list(1, 2));
    assert_eq!(eval_guards(&guards, 0, &[1, 1, 1, 1, 1, 1, 1, 1]), 0);
    assert_eq!(eval_guards(&guards, 3, &[0, 0, 0, 0]), 0);
}

#[test]
fn counting_rule_fires_on_exact_count_only() {
    let mut rules = RuleList::new(Symmetry::from(ASYMMETRIC), Neighborhood::Moore);
    rules.add_rule(
        StateChange::pair(1, 5),
        Rule::Counting { state: Some(2), count: 3 },
    );
    let guards = compile_rules(&rules);
    // Exactly 3 neighbors at state 2: fires.
    assert_eq!(eval_guards(&guards, 1, &[2, 2, 2, 0, 0, 0, 0, 0]), 5);
    // 2 such neighbors: falls through to the default.
    assert_eq!(eval_guards(&guards, 1, &[2, 2, 0, 0, 0, 0, 0, 0]), 0);
    // 4 such neighbors: falls through to the default.
    assert_eq!(eval_guards(&guards, 1, &[2, 2, 2, 2, 0, 0, 0, 0]), 0);
    // Right count, wrong cell state.
    assert_eq!(eval_guards(&guards, 3, &[2, 2, 2, 0, 0, 0, 0, 0]), 0);
}

#[test]
fn counting_rule_without_state_counts_living() {
    let mut rules = RuleList::new(Symmetry::from(ASYMMETRIC), Neighborhood::Moore);
    rules.add_rule(StateChange::pair(0, 1), Rule::Counting { state: None, count: 2 });
    let guards = compile_rules(&rules);
    assert_eq!(eval_guards(&guards, 0, &[4, 9, 0, 0, 0, 0, 0, 0]), 1);
    assert_eq!(eval_guards(&guards, 0, &[4, 0, 0, 0, 0, 0, 0, 0]), 0);
}

#[test]
fn first_match_wins_between_overlapping_rules() {
    let mut rules = RuleList::new(Symmetry::from(ASYMMETRIC), Neighborhood::Moore);
    rules.add_rule(StateChange::pair(1, 2), Rule::Decay);
    rules.add_rule(StateChange::pair(1, 7), Rule::Decay);
    let guards = compile_rules(&rules);
    // Both rules match state 1; only the earlier one is observed.
    assert_eq!(eval_guards(&guards, 1, &[0, 0, 0, 0, 0, 0, 0, 0]), 2);
}

#[test]
fn first_match_wins_with_counting_before_decay() {
    let mut rules = RuleList::new(Symmetry::from(ASYMMETRIC), Neighborhood::Moore);
    rules.add_rule(
        StateChange::pair(1, 9),
        Rule::Counting { state: None, count: 1 },
    );
    rules.add_rule(StateChange::pair(1, 4), Rule::Decay);
    let guards = compile_rules(&rules);
    // The counting rule matches first when its count is met.
    assert_eq!(eval_guards(&guards, 1, &[3, 0, 0, 0, 0, 0, 0, 0]), 9);
    // Otherwise the later decay still catches state 1.
    assert_eq!(eval_guards(&guards, 1, &[3, 3, 0, 0, 0, 0, 0, 0]), 4);
}

#[test]
fn zipped_ranges_pair_elementwise() {
    let sc = StateChange::zip_ranges(1..4, 11..14);
    assert_eq!(sc.0, vec![(1, 11), (2, 12), (3, 13)]);
}

#[test]
fn zipped_ranges_drop_excess_of_longer_range() {
    // The longer "from" range is truncated to the shorter "to" range.
    let sc = StateChange::zip_ranges(0..5, 10..12);
    assert_eq!(sc.0, vec![(0, 10), (1, 11)]);
    // And the other way around.
    let sc = StateChange::zip_ranges(3..4, 20..29);
    assert_eq!(sc.0, vec![(3, 20)]);
}

#[test]
fn range_to_single_target() {
    let sc = StateChange::range_to(2..5, 9);
    assert_eq!(sc.0, vec![(2, 9), (3, 9), (4, 9)]);
}

#[test]
fn state_change_expansion_keeps_pair_order() {
    let mut rules = RuleList::new(Symmetry::from(ASYMMETRIC), Neighborhood::VonNeumann);
    rules.add_rule(StateChange::zip_ranges(1..3, 5..7), Rule::Decay);
    let guards = compile_rules(&rules);
    assert_eq!(guards.len(), 2);
    assert_eq!(guards[0], Guard { from: 1, to: 5, check: Check::Always });
    assert_eq!(guards[1], Guard { from: 2, to: 6, check: Check::Always });
}

#[test]
fn count_helpers() {
    assert_eq!(count_matching(&[2, 0, 2, 1], 2), 2);
    assert_eq!(count_matching(&[], 2), 0);
    assert_eq!(count_living(&[2, 0, 2, 1]), 3);
    assert_eq!(count_living(&[0, 0]), 0);
}

#[test]
fn compute_shader_text_for_decay_rule() {
    let text = compile_compute_shader(decay_list(1, 2));
    let expected = "fn main(coord: vec2<i32>, state: u32) -> u32 {\n\
                    \x20   let adj = moore_neighborhood(coord);\n\
                    \x20   if state == 1u { return 2u; }\n\
                    \x20   return 0u;\n\
                    }";
    assert_eq!(text, expected);
}

#[test]
fn compute_shader_text_for_counting_rules() {
    let mut rules = RuleList::new(Symmetry::from(ASYMMETRIC), Neighborhood::VonNeumann);
    rules.add_rule(
        StateChange::pair(1, 2),
        Rule::Counting { state: Some(3), count: 12 },
    );
    rules.add_rule(StateChange::pair(4, 0), Rule::Counting { state: None, count: 8 });
    let text = compile_compute_shader(rules);
    let expected = "fn main(coord: vec2<i32>, state: u32) -> u32 {\n\
                    \x20   let adj = von_neumann_neighborhood(coord);\n\
                    \x20   if state == 1u && count_matching(adj, 3u) == 12u { return 2u; }\n\
                    \x20   if state == 4u && count_living(adj) == 8u { return 0u; }\n\
                    \x20   return 0u;\n\
                    }";
    assert_eq!(text, expected);
}

#[test]
fn empty_rule_list_compiles_to_default_only() {
    let rules = RuleList::new(Symmetry::from(ASYMMETRIC), Neighborhood::Moore);
    let guards = compile_rules(&rules);
    assert!(guards.is_empty());
    // Everything falls to the background state.
    assert_eq!(eval_guards(&guards, 0, &[1, 1, 1, 1]), 0);
    assert_eq!(eval_guards(&guards, 9, &[1, 1, 1, 1]), 0);
}
