//! The scene renderer's verified half: a pure mapping from simulation state
//! to an ordered list of draw commands.  Executing the commands against an
//! actual drawing surface is platform glue and stays outside the library.

use vstd::prelude::*;
use crate::engine::GameContext;
use crate::grid::Coord;
use crate::grid::GameState;
use crate::grid::in_field;
use crate::grid::in_outer_field;

verus! {

/// A destination rectangle in pixels.
#[derive(Copy, Clone, Debug, PartialEq, Eq, Structural)]
pub struct PxRect {
    pub x: i32,
    pub y: i32,
    pub w: i32,
    pub h: i32,
}

/// The background treatment of a frame, one per overall game state.
#[derive(Copy, Clone, Debug, PartialEq, Eq, Structural)]
pub enum BackgroundKind {
    /// A paused game: a dimmed solid fill.
    DimGray,
    /// A running game: the tiled spice field.
    SpiceField,
    /// A finished game: a black fill.
    Black,
}

/// One drawing operation.  A frame is an ordered list of these.
#[derive(Copy, Clone, Debug, PartialEq, Eq, Structural)]
pub enum DrawCmd {
    /// Clear the whole surface with the given background treatment.
    Clear(BackgroundKind),
    /// Draw one worm segment at the given rectangle.
    WormSegment(PxRect),
    /// Draw the target at the given rectangle.
    Invader(PxRect),
    /// Present the finished frame.
    Present,
}

/// The background treatment chosen for each overall game state.
pub open spec fn background_for(s: GameState) -> BackgroundKind {
    match s {
        GameState::Paused => BackgroundKind::DimGray,
        GameState::Playing => BackgroundKind::SpiceField,
        GameState::Over => BackgroundKind::Black,
    }
}

/// The destination rectangle of a grid cell, scaled by the per-cell pixel
/// size.
pub open spec fn cell_rect(c: Coord, px: int) -> PxRect {
    PxRect { x: (c.x * px) as i32, y: (c.y * px) as i32, w: px as i32, h: px as i32 }
}

/// Maps a game state to the full frame: one background clear selected by the
/// overall state, one rectangle per worm segment in head-to-tail order, one
/// rectangle for the target, and a present command.  Rendering reads the
/// state and never changes it.
pub fn render_commands(ctx: &GameContext, cell_px: i32) -> (cmds: Vec<DrawCmd>)
    requires
        ctx.wf(),
        0 < cell_px <= 0x10000,
    ensures
        cmds@.len() == ctx@.worm.len() + 3,
        cmds@[0] == DrawCmd::Clear(background_for(ctx@.state)),
        forall|i: int|
            0 <= i < ctx@.worm.len() ==> cmds@[i + 1] == DrawCmd::WormSegment(
                cell_rect(ctx@.worm[i], cell_px as int),
            ),
        cmds@[cmds@.len() - 2] == DrawCmd::Invader(cell_rect(ctx@.target, cell_px as int)),
        cmds@[cmds@.len() - 1] == DrawCmd::Present,
{
    let mut cmds: Vec<DrawCmd> = Vec::new();
    let bg = match ctx.state() {
        GameState::Paused => BackgroundKind::DimGray,
        GameState::Playing => BackgroundKind::SpiceField,
        GameState::Over => BackgroundKind::Black,
    };
    cmds.push(DrawCmd::Clear(bg));
    let n = ctx.worm_len();
    let mut i: usize = 0;
    while i < n
        invariant
            ctx.wf(),
            0 < cell_px <= 0x10000,
            n == ctx@.worm.len(),
            i <= n,
            cmds@.len() == i + 1,
            cmds@[0] == DrawCmd::Clear(background_for(ctx@.state)),
            forall|j: int|
                0 <= j < i ==> cmds@[j + 1] == DrawCmd::WormSegment(
                    cell_rect(ctx@.worm[j], cell_px as int),
                ),
        decreases n - i,
    {
        let c = ctx.segment(i);
        proof {
            assert(-1 <= c.x <= 41 && -1 <= c.y <= 31) by {
                if (i as int) < n - 1 {
                    assert(in_field(ctx@.worm[i as int]));
                } else {
                    assert(in_outer_field(ctx@.worm[i as int]));
                }
            }
            assert(c.x * cell_px <= 41 * 0x10000 && c.x * cell_px >= -0x10000) by (nonlinear_arith)
                requires
                    -1 <= c.x <= 41,
                    0 < cell_px <= 0x10000,
            ;
            assert(c.y * cell_px <= 31 * 0x10000 && c.y * cell_px >= -0x10000) by (nonlinear_arith)
                requires
                    -1 <= c.y <= 31,
                    0 < cell_px <= 0x10000,
            ;
        }
        let r = PxRect { x: c.x * cell_px, y: c.y * cell_px, w: cell_px, h: cell_px };
        cmds.push(DrawCmd::WormSegment(r));
        i = i + 1;
    }
    let t = ctx.target();
    proof {
        assert(t.x * cell_px <= 41 * 0x10000 && t.x * cell_px >= 0) by (nonlinear_arith)
            requires
                0 <= t.x <= 41,
                0 < cell_px <= 0x10000,
        ;
        assert(t.y * cell_px <= 31 * 0x10000 && t.y * cell_px >= 0) by (nonlinear_arith)
            requires
                0 <= t.y <= 31,
                0 < cell_px <= 0x10000,
        ;
    }
    cmds.push(DrawCmd::Invader(PxRect { x: t.x * cell_px, y: t.y * cell_px, w: cell_px, h: cell_px }));
    cmds.push(DrawCmd::Present);
    cmds
}

} // verus!
