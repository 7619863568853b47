//! The color-scheme compiler: an ordered list of coloring rules compiled
//! into a pure state-to-RGB function, both as a reference evaluation and
//! as the color function's source text. Rules are tried in list order,
//! the first match wins, and the default is black.
//!
//! Channels are held as integers in thousandths of full intensity, so the
//! blend arithmetic is exact and the emitted constants are plain decimals.

use crate::text::{dec_rep, digit_char, digit_str, u32_dec};
use vstd::arithmetic::div_mod::{lemma_div_is_ordered, lemma_div_multiples_vanish};
use vstd::arithmetic::mul::lemma_mul_inequality;
use vstd::prelude::*;

verus! {

/// Full intensity of one color channel, in thousandths.
pub const CHANNEL_SCALE: u32 = 1000;

/// An RGB color; each channel is an intensity in thousandths of full
/// scale, from 0 up to `CHANNEL_SCALE`.
#[derive(Clone, Copy, PartialEq, Eq, Structural, Debug)]
pub struct Color {
    pub r: u32,
    pub g: u32,
    pub b: u32,
}

/// Pure black: every channel at zero.
pub open spec fn spec_black() -> Color {
    Color { r: 0, g: 0, b: 0 }
}

impl Color {
    /// Every channel within scale.
    pub open spec fn wf(self) -> bool {
        &&& self.r <= CHANNEL_SCALE
        &&& self.g <= CHANNEL_SCALE
        &&& self.b <= CHANNEL_SCALE
    }

    /// Pure black.
    pub fn black() -> (c: Color)
        ensures
            c == spec_black(),
    {
        Color { r: 0, g: 0, b: 0 }
    }
}

/// One coloring rule, matched against a cell state in list order.
#[derive(Clone, Copy, PartialEq, Eq, Structural, Debug)]
pub enum ColorRule {
    /// One exact state.
    Exact { state: u32, color: Color },
    /// Every state in an inclusive range.
    Span { lo: u32, hi: u32, color: Color },
    /// A linear blend across an inclusive range.
    Blend { lo: u32, hi: u32, start: Color, end: Color },
    /// Any nonzero state.
    Living { color: Color },
}

/// Whether every color a rule carries is within scale.
pub open spec fn rule_wf(r: ColorRule) -> bool {
    match r {
        ColorRule::Exact { color, .. } => color.wf(),
        ColorRule::Span { color, .. } => color.wf(),
        ColorRule::Blend { lo, hi, start, end } => start.wf() && end.wf() && lo < hi,
        ColorRule::Living { color } => color.wf(),
    }
}

/// One compiled coloring rule, as an element of the rule list handed to
/// the color-function compiler.
#[derive(Clone, Copy, PartialEq, Eq, Structural, Debug)]
pub struct Coloring {
    pub rule: ColorRule,
}

/// The rules carried by a coloring list, in order.
pub open spec fn rules_of(cs: Seq<Coloring>) -> Seq<ColorRule> {
    cs.map_values(|c: Coloring| c.rule)
}

/// A blend from `start` to `end` across the inclusive state range
/// `lo..=hi`.
pub fn lerp(lo: u32, hi: u32, start: Color, end: Color) -> (c: Coloring)
    requires
        start.wf(),
        end.wf(),
        lo < hi,
    ensures
        c.rule == (ColorRule::Blend { lo, hi, start, end }),
        rule_wf(c.rule),
{
    Coloring { rule: ColorRule::Blend { lo, hi, start, end } }
}

/// The one fixed color for any nonzero ("living") state.
pub fn alive(color: Color) -> (c: Coloring)
    requires
        color.wf(),
    ensures
        c.rule == (ColorRule::Living { color }),
        rule_wf(c.rule),
{
    Coloring { rule: ColorRule::Living { color } }
}

/// One exact state mapped to one color.
pub fn map(state: u32, color: Color) -> (c: Coloring)
    requires
        color.wf(),
    ensures
        c.rule == (ColorRule::Exact { state, color }),
        rule_wf(c.rule),
{
    Coloring { rule: ColorRule::Exact { state, color } }
}

/// Every state in the inclusive range mapped to one color.
pub fn map_range(lo: u32, hi: u32, color: Color) -> (c: Coloring)
    requires
        color.wf(),
    ensures
        c.rule == (ColorRule::Span { lo, hi, color }),
        rule_wf(c.rule),
{
    Coloring { rule: ColorRule::Span { lo, hi, color } }
}

/// Whether the rule matches a cell at `state`.
pub open spec fn rule_matches(r: ColorRule, state: u32) -> bool {
    match r {
        ColorRule::Exact { state: s, .. } => state == s,
        ColorRule::Span { lo, hi, .. } => lo <= state <= hi,
        ColorRule::Blend { lo, hi, .. } => lo <= state <= hi,
        ColorRule::Living { .. } => state != 0,
    }
}

/// One channel of a linear blend, `t` of `d` steps from `a` toward `b`,
/// rounded toward `a`.
pub open spec fn spec_blend(a: u32, b: u32, t: u32, d: u32) -> u32 {
    if d == 0 {
        a
    } else if a <= b {
        (a + t * (b - a) / (d as int)) as u32
    } else {
        (a - t * (a - b) / (d as int)) as u32
    }
}

/// The color a matching rule gives a cell at `state`.
pub open spec fn rule_color(r: ColorRule, state: u32) -> Color {
    match r {
        ColorRule::Exact { color, .. } => color,
        ColorRule::Span { color, .. } => color,
        ColorRule::Living { color } => color,
        ColorRule::Blend { lo, hi, start, end } => Color {
            r: spec_blend(start.r, end.r, (state - lo) as u32, (hi - lo) as u32),
            g: spec_blend(start.g, end.g, (state - lo) as u32, (hi - lo) as u32),
            b: spec_blend(start.b, end.b, (state - lo) as u32, (hi - lo) as u32),
        },
    }
}

/// The color the rule list gives `state`: the first matching rule's
/// color, or black when none matches.
pub open spec fn spec_color(rules: Seq<ColorRule>, state: u32) -> Color
    decreases rules.len(),
{
    if rules.len() == 0 {
        spec_black()
    } else if rule_matches(rules[0], state) {
        rule_color(rules[0], state)
    } else {
        spec_color(rules.drop_first(), state)
    }
}

/// One channel of the blend, computed exactly.
fn blend(a: u32, b: u32, t: u32, d: u32) -> (r: u32)
    requires
        a <= CHANNEL_SCALE,
        b <= CHANNEL_SCALE,
        t <= d,
    ensures
        r == spec_blend(a, b, t, d),
        r <= CHANNEL_SCALE,
{
    if d == 0 {
        a
    } else if a <= b {
        proof {
            assert((t as int) * ((b - a) as int) <= u64::MAX) by (nonlinear_arith)
                requires
                    t <= u32::MAX,
                    0 <= b - a <= 1000,
            ;
        }
        let num = (t as u64) * ((b - a) as u64);
        let q = num / (d as u64);
        proof {
            lemma_mul_inequality(t as int, d as int, (b - a) as int);
            lemma_div_is_ordered((t * (b - a)) as int, (d * (b - a)) as int, d as int);
            lemma_div_multiples_vanish((b - a) as int, d as int);
            assert(q <= b - a);
        }
        a + (q as u32)
    } else {
        proof {
            assert((t as int) * ((a - b) as int) <= u64::MAX) by (nonlinear_arith)
                requires
                    t <= u32::MAX,
                    0 <= a - b <= 1000,
            ;
        }
        let num = (t as u64) * ((a - b) as u64);
        let q = num / (d as u64);
        proof {
            lemma_mul_inequality(t as int, d as int, (a - b) as int);
            lemma_div_is_ordered((t * (a - b)) as int, (d * (a - b)) as int, d as int);
            lemma_div_multiples_vanish((a - b) as int, d as int);
            assert(q <= a - b);
        }
        a - (q as u32)
    }
}

/// Evaluates the coloring list on one cell state: rules are tried in list
/// order, the first match gives the color, and no match gives black.
pub fn eval_colorings(colorings: &Vec<Coloring>, state: u32) -> (c: Color)
    requires
        forall|i: int| 0 <= i < colorings@.len() ==> rule_wf(#[trigger] colorings@[i].rule),
    ensures
        c == spec_color(rules_of(colorings@), state),
{
    let ghost rules = rules_of(colorings@);
    let mut i: usize = 0;
    proof {
        assert(rules.skip(0) =~= rules);
    }
    while i < colorings.len()
        invariant
            i <= colorings@.len(),
            rules == rules_of(colorings@),
            forall|k: int| 0 <= k < colorings@.len() ==> rule_wf(#[trigger] colorings@[k].rule),
            spec_color(rules, state) == spec_color(rules.skip(i as int), state),
        decreases colorings@.len() - i,
    {
        let rule = colorings[i].rule;
        proof {
            assert(rules.skip(i as int)[0] == rule);
        }
        match rule {
            ColorRule::Exact { state: s, color } => {
                if state == s {
                    return color;
                }
            },
            ColorRule::Span { lo, hi, color } => {
                if lo <= state && state <= hi {
                    return color;
                }
            },
            ColorRule::Blend { lo, hi, start, end } => {
                if lo <= state && state <= hi {
                    let t = state - lo;
                    let d = hi - lo;
                    return Color {
                        r: blend(start.r, end.r, t, d),
                        g: blend(start.g, end.g, t, d),
                        b: blend(start.b, end.b, t, d),
                    };
                }
            },
            ColorRule::Living { color } => {
                if state != 0 {
                    return color;
                }
            },
        }
        proof {
            assert(rules.skip(i + 1 as int) =~= rules.skip(i as int).drop_first());
        }
        i = i + 1;
    }
    proof {
        assert(rules.skip(colorings@.len() as int) =~= Seq::<ColorRule>::empty());
    }
    Color::black()
}

/// The decimal constant one channel renders to: "1.0" at full scale,
/// otherwise "0." followed by the three digits of thousandths.
pub open spec fn spec_channel_text(c: u32) -> Seq<char> {
    if c >= 1000 {
        "1.0"@
    } else {
        "0."@ + seq![
            digit_char((c / 100) as nat),
            digit_char(((c / 10) % 10) as nat),
            digit_char((c % 10) as nat),
        ]
    }
}

/// The `vec3<f32>` constant a color renders to.
pub open spec fn spec_color_text(c: Color) -> Seq<char> {
    "vec3<f32>("@ + spec_channel_text(c.r) + ", "@ + spec_channel_text(c.g) + ", "@
        + spec_channel_text(c.b) + ")"@
}

/// Renders one channel as its decimal constant.
fn channel_text(c: u32) -> (r: String)
    requires
        c <= CHANNEL_SCALE,
    ensures
        r@ == spec_channel_text(c),
{
    if c >= 1000 {
        "1.0".to_owned()
    } else {
        let mut r = "0.".to_owned();
        r.append(digit_str(c / 100));
        r.append(digit_str((c / 10) % 10));
        r.append(digit_str(c % 10));
        proof {
            assert(r@ =~= spec_channel_text(c));
        }
        r
    }
}

/// Renders a color as its `vec3<f32>` constant.
fn color_text(c: Color) -> (r: String)
    requires
        c.wf(),
    ensures
        r@ == spec_color_text(c),
{
    let mut r = "vec3<f32>(".to_owned();
    let cr = channel_text(c.r);
    r.append(cr.as_str());
    r.append(", ");
    let cg = channel_text(c.g);
    r.append(cg.as_str());
    r.append(", ");
    let cb = channel_text(c.b);
    r.append(cb.as_str());
    r.append(")");
    proof {
        assert(r@ =~= spec_color_text(c));
    }
    r
}

/// The guarded return one coloring rule compiles to.
pub open spec fn spec_rule_text(rule: ColorRule) -> Seq<char> {
    match rule {
        ColorRule::Exact { state, color } => "    if state == "@ + dec_rep(state as nat)
            + "u { return "@ + spec_color_text(color) + "; }\n"@,
        ColorRule::Span { lo, hi, color } => "    if state >= "@ + dec_rep(lo as nat)
            + "u && state <= "@ + dec_rep(hi as nat) + "u { return "@ + spec_color_text(color)
            + "; }\n"@,
        ColorRule::Blend { lo, hi, start, end } => "    if state >= "@ + dec_rep(lo as nat)
            + "u && state <= "@ + dec_rep(hi as nat) + "u { let s = f32(state - "@ + dec_rep(
            lo as nat,
        ) + "u) / f32("@ + dec_rep((hi - lo) as nat) + "u); return mix("@ + spec_color_text(start)
            + ", "@ + spec_color_text(end) + ", vec3<f32>(s, s, s)); }\n"@,
        ColorRule::Living { color } => "    if state != 0u { return "@ + spec_color_text(color)
            + "; }\n"@,
    }
}

/// The source of every rule's guarded return, in list order.
pub open spec fn spec_rule_texts(rules: Seq<ColorRule>) -> Seq<char>
    decreases rules.len(),
{
    if rules.len() == 0 {
        Seq::empty()
    } else {
        spec_rule_texts(rules.drop_last()) + spec_rule_text(rules.last())
    }
}

/// The full color-function source a coloring list compiles to.
pub open spec fn spec_color_shader(rules: Seq<ColorRule>) -> Seq<char> {
    "fn get_color(state: u32) -> vec3<f32> {\n"@ + spec_rule_texts(rules)
        + "    return vec3<f32>(0.0, 0.0, 0.0);\n}"@
}

/// Appends the guarded return for one coloring rule.
fn emit_rule(out: &mut String, rule: ColorRule)
    requires
        rule_wf(rule),
    ensures
        final(out)@ == old(out)@ + spec_rule_text(rule),
{
    match rule {
        ColorRule::Exact { state, color } => {
            out.append("    if state == ");
            let state_s = u32_dec(state);
            out.append(state_s.as_str());
            out.append("u { return ");
            let color_s = color_text(color);
            out.append(color_s.as_str());
            out.append("; }\n");
        },
        ColorRule::Span { lo, hi, color } => {
            out.append("    if state >= ");
            let lo_s = u32_dec(lo);
            out.append(lo_s.as_str());
            out.append("u && state <= ");
            let hi_s = u32_dec(hi);
            out.append(hi_s.as_str());
            out.append("u { return ");
            let color_s = color_text(color);
            out.append(color_s.as_str());
            out.append("; }\n");
        },
        ColorRule::Blend { lo, hi, start, end } => {
            out.append("    if state >= ");
            let lo_s = u32_dec(lo);
            out.append(lo_s.as_str());
            out.append("u && state <= ");
            let hi_s = u32_dec(hi);
            out.append(hi_s.as_str());
            out.append("u { let s = f32(state - ");
            out.append(lo_s.as_str());
            out.append("u) / f32(");
            let d_s = u32_dec(hi - lo);
            out.append(d_s.as_str());
            out.append("u); return mix(");
            let start_s = color_text(start);
            out.append(start_s.as_str());
            out.append(", ");
            let end_s = color_text(end);
            out.append(end_s.as_str());
            out.append(", vec3<f32>(s, s, s)); }\n");
        },
        ColorRule::Living { color } => {
            out.append("    if state != 0u { return ");
            let color_s = color_text(color);
            out.append(color_s.as_str());
            out.append("; }\n");
        },
    }
    proof {
        assert(out@ =~= old(out)@ + spec_rule_text(rule));
    }
}

/// Compiles the coloring list into the color function's source text: one
/// guarded return per rule in list order, and a default of black.
pub fn color_shader(cr: Vec<Coloring>) -> (r: String)
    requires
        forall|i: int| 0 <= i < cr@.len() ==> rule_wf(#[trigger] cr@[i].rule),
    ensures
        r@ == spec_color_shader(rules_of(cr@)),
{
    let ghost rules = rules_of(cr@);
    let mut out = String::new();
    out.append("fn get_color(state: u32) -> vec3<f32> {\n");
    let ghost prefix = out@;
    proof {
        assert(out@ =~= prefix + spec_rule_texts(rules.take(0)));
    }
    let mut i: usize = 0;
    while i < cr.len()
        invariant
            i <= cr@.len(),
            rules == rules_of(cr@),
            forall|k: int| 0 <= k < cr@.len() ==> rule_wf(#[trigger] cr@[k].rule),
            prefix == "fn get_color(state: u32) -> vec3<f32> {\n"@,
            out@ == prefix + spec_rule_texts(rules.take(i as int)),
        decreases cr@.len() - i,
    {
        emit_rule(&mut out, cr[i].rule);
        proof {
            assert(rules.take(i + 1 as int).drop_last() =~= rules.take(i as int));
            assert(rules.take(i + 1 as int).last() == rules[i as int]);
            assert(out@ =~= prefix + spec_rule_texts(rules.take(i + 1 as int)));
        }
        i = i + 1;
    }
    out.append("    return vec3<f32>(0.0, 0.0, 0.0);\n}");
    proof {
        assert(rules.take(rules.len() as int) =~= rules);
        assert(out@ =~= spec_color_shader(rules));
    }
    out
}

/// A whole coloring specification. Every variant maps state 0 to black
/// implicitly, ahead of its own rules.
pub enum ColorScheme {
    /// A linear blend from `start` at state 0 to `end` at state `states`.
    Lerp { start: Color, end: Color, states: u32 },
    /// One fixed color for any nonzero state.
    Living { color: Color },
    /// Explicit (state, color) pairs, first match wins.
    Dictionary(Vec<(u32, Color)>),
}

/// Whether a scheme's colors are within scale and a blend has at least
/// one step.
pub open spec fn scheme_wf(s: ColorScheme) -> bool {
    match s {
        ColorScheme::Lerp { start, end, states } => start.wf() && end.wf() && states >= 1,
        ColorScheme::Living { color } => color.wf(),
        ColorScheme::Dictionary(pairs) => forall|i: int|
            0 <= i < pairs@.len() ==> (#[trigger] pairs@[i].1).wf(),
    }
}

/// The rule list a scheme compiles to: state 0 pinned to black first,
/// then the scheme's own rules in order.
pub open spec fn spec_scheme_rules(s: ColorScheme) -> Seq<ColorRule> {
    seq![ColorRule::Exact { state: 0, color: spec_black() }] + match s {
        ColorScheme::Lerp { start, end, states } => seq![
            ColorRule::Blend { lo: 0, hi: states, start, end },
        ],
        ColorScheme::Living { color } => seq![ColorRule::Living { color }],
        ColorScheme::Dictionary(pairs) => pairs@.map_values(
            |p: (u32, Color)| ColorRule::Exact { state: p.0, color: p.1 },
        ),
    }
}

/// Compiles a scheme into the coloring list its rules stand for.
pub fn scheme_colorings(scheme: &ColorScheme) -> (r: Vec<Coloring>)
    requires
        scheme_wf(*scheme),
    ensures
        rules_of(r@) == spec_scheme_rules(*scheme),
        forall|i: int| 0 <= i < r@.len() ==> rule_wf(#[trigger] r@[i].rule),
{
    let mut r: Vec<Coloring> = Vec::new();
    r.push(map(0, Color::black()));
    match scheme {
        ColorScheme::Lerp { start, end, states } => {
            r.push(lerp(0, *states, *start, *end));
        },
        ColorScheme::Living { color } => {
            r.push(alive(*color));
        },
        ColorScheme::Dictionary(pairs) => {
            let mut i: usize = 0;
            while i < pairs.len()
                invariant
                    i <= pairs@.len(),
                    forall|k: int| 0 <= k < pairs@.len() ==> (#[trigger] pairs@[k].1).wf(),
                    r@.len() == i + 1,
                    r@[0].rule == (ColorRule::Exact { state: 0, color: spec_black() }),
                    forall|k: int|
                        0 <= k < i ==> r@[k + 1].rule == (ColorRule::Exact {
                            state: pairs@[k].0,
                            color: pairs@[k].1,
                        }),
                    forall|k: int| 0 <= k < r@.len() ==> rule_wf(#[trigger] r@[k].rule),
                decreases pairs@.len() - i,
            {
                let p = pairs[i];
                r.push(map(p.0, p.1));
                i = i + 1;
            }
        },
    }
    proof {
        assert(rules_of(r@) =~= spec_scheme_rules(*scheme));
    }
    r
}

} // verus!
