//! Cellular automata on a fixed-size 2D grid: a rule compiler that turns
//! declarative transition rules into a per-cell update kernel, a color-scheme
//! compiler, a double-buffered simulation model, and a fixed-timestep
//! scheduler.

pub mod automata;
pub mod cells;
pub mod color;
pub mod engine;
pub mod pgm;
pub mod rules;
pub mod scheduler;
pub mod text;

use crate::text::dec_rep;
use crate::text::u32_dec;
use vstd::prelude::*;

verus! {

/// Which cells around a coordinate are sampled by counting rules.
#[derive(Clone, Copy, PartialEq, Eq, Structural, Debug)]
pub enum Neighborhood {
    /// The 8 adjacent cells.
    Moore,
    /// The 4 orthogonally adjacent cells.
    VonNeumann,
}

/// Everything a simulation run is configured by: a window title, the tick
/// rate, the update kernel's source, the coloring rules, and the
/// neighborhood the kernel's counting helpers sample.
pub struct Config {
    pub title: Option<String>,
    pub fps: u32,
    pub state_shader: String,
    pub coloring: Vec<color::Coloring>,
    pub neighborhood: Neighborhood,
}

/// The line that binds the kernel's neighborhood helper to the chosen
/// neighborhood.
pub open spec fn spec_neighborhood_shader(n: Neighborhood) -> Seq<char> {
    match n {
        Neighborhood::Moore => "fn neighborhood(coord: vec2<i32>) -> Neighborhood { return moore(coord); }\n"@,
        Neighborhood::VonNeumann => "fn neighborhood(coord: vec2<i32>) -> Neighborhood { return von_neumann(coord); }\n"@,
    }
}

/// Renders the neighborhood-selection line of the composed shader.
pub fn neighborhood_shader(n: &Neighborhood) -> (r: String)
    ensures
        r@ == spec_neighborhood_shader(*n),
{
    match n {
        Neighborhood::Moore => "fn neighborhood(coord: vec2<i32>) -> Neighborhood { return moore(coord); }\n".to_owned(),
        Neighborhood::VonNeumann => "fn neighborhood(coord: vec2<i32>) -> Neighborhood { return von_neumann(coord); }\n".to_owned(),
    }
}

/// The workgroup directive for square tiles of side `w`.
pub open spec fn spec_workgroup_directive(w: u32) -> Seq<char> {
    "@compute @workgroup_size("@ + dec_rep(w as nat) + ", "@ + dec_rep(w as nat) + ", 1)"@
}

/// Renders the workgroup directive that precedes the compute entry point.
pub fn workgroup_directive(w: u32) -> (r: String)
    ensures
        r@ == spec_workgroup_directive(w),
{
    let mut r = "@compute @workgroup_size(".to_owned();
    let w_s = u32_dec(w);
    r.append(w_s.as_str());
    r.append(", ");
    r.append(w_s.as_str());
    r.append(", 1)");
    proof {
        assert(r@ =~= spec_workgroup_directive(w));
    }
    r
}

/// A device or surface condition reported while presenting a frame.
#[derive(Clone, Copy, PartialEq, Eq, Structural, Debug)]
pub enum SurfaceIssue {
    /// The surface was lost and must be rebuilt.
    Lost,
    /// The surface no longer matches the window and must be rebuilt.
    Outdated,
    /// The device is out of memory.
    OutOfMemory,
    /// The frame took too long to acquire.
    Timeout,
}

/// What the run loop does about a surface condition.
#[derive(Clone, Copy, PartialEq, Eq, Structural, Debug)]
pub enum SurfaceAction {
    /// Reconfigure the output surface and continue.
    Reconfigure,
    /// End the run.
    Exit,
    /// Skip this frame; nothing changes.
    SkipFrame,
}

/// The device-error policy: a lost or outdated surface is recoverable by
/// reconfiguring; out of memory is fatal; a timeout skips one frame.
pub open spec fn spec_surface_policy(issue: SurfaceIssue) -> SurfaceAction {
    match issue {
        SurfaceIssue::Lost => SurfaceAction::Reconfigure,
        SurfaceIssue::Outdated => SurfaceAction::Reconfigure,
        SurfaceIssue::OutOfMemory => SurfaceAction::Exit,
        SurfaceIssue::Timeout => SurfaceAction::SkipFrame,
    }
}

/// Decides how the run loop answers a surface condition.
pub fn surface_policy(issue: &SurfaceIssue) -> (a: SurfaceAction)
    ensures
        a == spec_surface_policy(*issue),
{
    match issue {
        SurfaceIssue::Lost => SurfaceAction::Reconfigure,
        SurfaceIssue::Outdated => SurfaceAction::Reconfigure,
        SurfaceIssue::OutOfMemory => SurfaceAction::Exit,
        SurfaceIssue::Timeout => SurfaceAction::SkipFrame,
    }
}

} // verus!
