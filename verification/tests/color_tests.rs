use gridded_automata::color::{
    alive, color_shader, eval_colorings, lerp, map_range, scheme_colorings, Color, ColorScheme,
};

fn black() -> Color {
    Color { r: 0, g: 0, b: 0 }
}

#[test]
fn lerp_scheme_endpoints_and_midpoint() {
    // A blend from red to blue over six states, with state 0 implicitly black.
    let scheme = ColorScheme::Lerp {
        start: Color { r: 1000, g: 0, b: 0 },
        end: Color { r: 0, g: 0, b: 1000 },
        states: 6,
    };
    let colorings = scheme_colorings(&scheme);
    assert_eq!(eval_colorings(&colorings, 0), black());
    assert_eq!(eval_colorings(&colorings, 6), Color { r: 0, g: 0, b: 1000 });
    assert_eq!(eval_colorings(&colorings, 3), Color { r: 500, g: 0, b: 500 });
}

#[test]
fn lerp_midpoint_within_floating_tolerance() {
    let scheme = ColorScheme::Lerp {
        start: Color { r: 1000, g: 0, b: 0 },
        end: Color { r: 0, g: 0, b: 1000 },
        states: 6,
    };
    let colorings = scheme_colorings(&scheme);
    let mid = eval_colorings(&colorings, 3);
    let (r, g, b) = (
        mid.r as f32 / 1000.0,
        mid.g as f32 / 1000.0,
        mid.b as f32 / 1000.0,
    );
    assert!((r - 0.5).abs() < 1e-6);
    assert!(g.abs() < 1e-6);
    assert!((b - 0.5).abs() < 1e-6);
}

#[test]
fn living_scheme_colors_any_nonzero_state() {
    let scheme = ColorScheme::Living { color: Color { r: 1000, g: 1000, b: 1000 } };
    let colorings = scheme_colorings(&scheme);
    assert_eq!(eval_colorings(&colorings, 0), black());
    assert_eq!(eval_colorings(&colorings, 1), Color { r: 1000, g: 1000, b: 1000 });
    assert_eq!(eval_colorings(&colorings, 250), Color { r: 1000, g: 1000, b: 1000 });
}

#[test]
fn dictionary_scheme_first_match_wins_and_defaults_black() {
    let scheme = ColorScheme::Dictionary(vec![
        (2, Color { r: 0, g: 400, b: 800 }),
        (2, Color { r: 999, g: 999, b: 999 }),
        (1, Color { r: 0, g: 800, b: 400 }),
    ]);
    let colorings = scheme_colorings(&scheme);
    // The earlier entry for state 2 wins.
    assert_eq!(eval_colorings(&colorings, 2), Color { r: 0, g: 400, b: 800 });
    assert_eq!(eval_colorings(&colorings, 1), Color { r: 0, g: 800, b: 400 });
    // No entry: black.
    assert_eq!(eval_colorings(&colorings, 7), black());
    // State 0 is black even though no entry maps it.
    assert_eq!(eval_colorings(&colorings, 0), black());
}

#[test]
fn coloring_list_first_match_discipline() {
    let colorings = vec![
        gridded_automata::color::map(5, Color { r: 1000, g: 1000, b: 1000 }),
        map_range(1, 9, Color { r: 1000, g: 0, b: 0 }),
        alive(Color { r: 0, g: 1000, b: 0 }),
    ];
    // Exact map beats the later range.
    assert_eq!(eval_colorings(&colorings, 5), Color { r: 1000, g: 1000, b: 1000 });
    // Range catches other states within it.
    assert_eq!(eval_colorings(&colorings, 2), Color { r: 1000, g: 0, b: 0 });
    // The living rule catches the rest of the nonzero states.
    assert_eq!(eval_colorings(&colorings, 42), Color { r: 0, g: 1000, b: 0 });
    // And nothing matches state 0.
    assert_eq!(eval_colorings(&colorings, 0), black());
}

#[test]
fn lerp_rounds_toward_start() {
    // From 0 to 1000 over three steps: state 1 gives 333.
    let colorings = vec![lerp(0, 3, black(), Color { r: 1000, g: 0, b: 0 })];
    assert_eq!(eval_colorings(&colorings, 1), Color { r: 333, g: 0, b: 0 });
    // Downward blends mirror the rounding.
    let colorings = vec![lerp(0, 3, Color { r: 1000, g: 0, b: 0 }, black())];
    assert_eq!(eval_colorings(&colorings, 1), Color { r: 667, g: 0, b: 0 });
}

#[test]
fn color_shader_text_for_exact_map() {
    let text = color_shader(vec![gridded_automata::color::map(1, Color { r: 0, g: 400, b: 800 })]);
    let expected = "fn get_color(state: u32) -> vec3<f32> {\n\
                    \x20   if state == 1u { return vec3<f32>(0.000, 0.400, 0.800); }\n\
                    \x20   return vec3<f32>(0.0, 0.0, 0.0);\n\
                    }";
    assert_eq!(text, expected);
}

#[test]
fn color_shader_text_for_blend_and_living() {
    let text = color_shader(vec![
        lerp(
            1,
            6,
            Color { r: 1000, g: 200, b: 0 },
            Color { r: 100, g: 200, b: 1000 },
        ),
        alive(Color { r: 1000, g: 1000, b: 1000 }),
    ]);
    let expected = "fn get_color(state: u32) -> vec3<f32> {\n\
                    \x20   if state >= 1u && state <= 6u { let s = f32(state - 1u) / f32(5u); \
                    return mix(vec3<f32>(1.0, 0.200, 0.000), vec3<f32>(0.100, 0.200, 1.0), \
                    vec3<f32>(s, s, s)); }\n\
                    \x20   if state != 0u { return vec3<f32>(1.0, 1.0, 1.0); }\n\
                    \x20   return vec3<f32>(0.0, 0.0, 0.0);\n\
                    }";
    assert_eq!(text, expected);
}

#[test]
fn color_shader_text_for_range_map() {
    let text = color_shader(vec![map_range(2, 4, Color { r: 50, g: 0, b: 0 })]);
    let expected = "fn get_color(state: u32) -> vec3<f32> {\n\
                    \x20   if state >= 2u && state <= 4u { return vec3<f32>(0.050, 0.000, 0.000); }\n\
                    \x20   return vec3<f32>(0.0, 0.0, 0.0);\n\
                    }";
    assert_eq!(text, expected);
}

#[test]
fn empty_coloring_list_is_all_black() {
    let colorings: Vec<gridded_automata::color::Coloring> = Vec::new();
    assert_eq!(eval_colorings(&colorings, 0), black());
    assert_eq!(eval_colorings(&colorings, 3), black());
    let text = color_shader(colorings);
    let expected = "fn get_color(state: u32) -> vec3<f32> {\n\
                    \x20   return vec3<f32>(0.0, 0.0, 0.0);\n\
                    }";
    assert_eq!(text, expected);
}
