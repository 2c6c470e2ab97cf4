//! A grid-based arcade game core: a growing worm is steered over a fixed
//! rectangular field, must avoid the walls and its own body, and grows by
//! reaching a relocating target.  The simulation engine and the mapping from
//! game state to draw commands are verified; platform glue (window, events,
//! actual drawing) lives outside this library.

pub mod grid;
pub mod rng;
pub mod engine;
pub mod scene;

pub use engine::GameContext;
pub use engine::GameView;
pub use grid::Coord;
pub use grid::GameState;
pub use grid::WormDirection;
pub use scene::BackgroundKind;
pub use scene::DrawCmd;
pub use scene::PxRect;
