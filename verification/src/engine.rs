//! The simulation engine: the discrete-time state machine that moves the
//! worm, detects collisions, grows the worm, and relocates the target.
//!
//! The engine's behaviour is captured by the transition relation
//! [`tick_rel`] over [`GameView`], the mathematical image of a game, and by
//! the well-formedness predicate [`wf_view`], which every constructor
//! establishes and every operation preserves.

use vstd::prelude::*;
use crate::grid::Coord;
use crate::grid::GameState;
use crate::grid::WormDirection;
use crate::grid::SPICEFIELD_SIZE_X;
use crate::grid::SPICEFIELD_SIZE_Y;
use crate::grid::adjacent;
use crate::grid::direction_delta;
use crate::grid::in_field;
use crate::grid::in_outer_field;
use crate::grid::in_spawn_grid;
use crate::grid::opposite;
use crate::grid::opposite_of;
use crate::rng::fresh_rng;
use crate::rng::random_cell;
use vstd::arithmetic::div_mod::lemma_fundamental_div_mod;
use vstd::arithmetic::div_mod::lemma_mod_bound;
use vstd::set_lib::lemma_len_subset;

verus! {

/// How many random draws the target relocation makes before it falls back to
/// a deterministic scan of the grid.  The bound exists only so that every
/// loop of the engine provably terminates; with a free cell available, the
/// chance of ever reaching it is vanishingly small.
pub const RESPAWN_DRAWS: u64 = 0xFFFF_FFFF_FFFF_FFFF;

/// The mathematical image of a game: the worm head-first, the travel
/// direction, the target cell, and the overall state.
#[verifier::ext_equal]
pub ghost struct GameView {
    pub worm: Seq<Coord>,
    pub dir: WormDirection,
    pub target: Coord,
    pub state: GameState,
}

/// The world state of one game.  The worm is ordered head-first; the random
/// generator is consulted only to relocate the target.
pub struct GameContext {
    sandworm: Vec<Coord>,
    sandworm_dir: WormDirection,
    sarduakar_invader: Coord,
    current_state: GameState,
    rng: rand::rngs::ThreadRng,
}

impl View for GameContext {
    type V = GameView;

    closed spec fn view(&self) -> GameView {
        GameView {
            worm: self.sandworm@,
            dir: self.sandworm_dir,
            target: self.sarduakar_invader,
            state: self.current_state,
        }
    }
}

/// Well-formedness of a game state, established by the constructors and
/// preserved by every operation:
/// the worm has at least its spawn length, consecutive segments are exactly
/// one cell apart, every segment but the last lies in the field and the last
/// at most one cell outside it, and the target lies on the spawn grid, on no
/// worm segment.
pub open spec fn wf_view(v: GameView) -> bool {
    &&& v.worm.len() >= 3
    &&& forall|i: int| 0 <= i < v.worm.len() - 1 ==> in_field(#[trigger] v.worm[i])
    &&& in_outer_field(v.worm[v.worm.len() - 1])
    &&& forall|i: int| 0 <= i < v.worm.len() - 1 ==> adjacent(#[trigger] v.worm[i], v.worm[i + 1])
    &&& in_spawn_grid(v.target)
    &&& !v.worm.contains(v.target)
}

impl GameContext {
    /// Well-formedness of this game, stated over its view.
    pub open spec fn wf(&self) -> bool {
        wf_view(self@)
    }

    /// A fresh game: a three-segment worm in a known row, travelling right,
    /// the target at a fixed cell away from the worm, paused.  Deterministic;
    /// no randomness is consumed.
    pub fn new() -> (g: GameContext)
        ensures
            g.wf(),
            g@.worm == seq![
                Coord { x: 3, y: 1 },
                Coord { x: 2, y: 1 },
                Coord { x: 1, y: 1 },
            ],
            g@.dir == WormDirection::Right,
            g@.target == (Coord { x: 3, y: 3 }),
            g@.state == GameState::Paused,
    {
        let mut sandworm: Vec<Coord> = Vec::new();
        sandworm.push(Coord { x: 3, y: 1 });
        sandworm.push(Coord { x: 2, y: 1 });
        sandworm.push(Coord { x: 1, y: 1 });
        let g = GameContext {
            sandworm,
            sandworm_dir: WormDirection::Right,
            sarduakar_invader: Coord { x: 3, y: 3 },
            current_state: GameState::Paused,
            rng: fresh_rng(),
        };
        proof {
            assert(g@.worm =~= seq![
                Coord { x: 3, y: 1 },
                Coord { x: 2, y: 1 },
                Coord { x: 1, y: 1 },
            ]);
            assert forall|i: int| 0 <= i < g@.worm.len() - 1 implies in_field(#[trigger] g@.worm[i]) by {}
            assert(!g@.worm.contains(g@.target)) by {
                assert(forall|i: int| 0 <= i < g@.worm.len() ==> g@.worm[i].y == 1);
            }
        }
        g
    }

    /// The current overall state.
    pub fn state(&self) -> (s: GameState)
        ensures
            s == self@.state,
    {
        self.current_state
    }

    /// The current travel direction, so that callers can refuse a reversal.
    pub fn direction(&self) -> (d: WormDirection)
        ensures
            d == self@.dir,
    {
        self.sandworm_dir
    }

    /// The current target cell.
    pub fn target(&self) -> (t: Coord)
        ensures
            t == self@.target,
    {
        self.sarduakar_invader
    }

    /// The number of worm segments.
    pub fn worm_len(&self) -> (n: usize)
        ensures
            n == self@.worm.len(),
    {
        self.sandworm.len()
    }

    /// The segment at the given position, head-first.
    pub fn segment(&self, i: usize) -> (c: Coord)
        requires
            i < self@.worm.len(),
        ensures
            c == self@.worm[i as int],
    {
        self.sandworm[i]
    }

    /// A copy of the worm, head-first.
    pub fn segments(&self) -> (v: Vec<Coord>)
        ensures
            v@ == self@.worm,
    {
        let mut v: Vec<Coord> = Vec::new();
        let mut i: usize = 0;
        while i < self.sandworm.len()
            invariant
                i <= self.sandworm.len(),
                v@ == self.sandworm@.subrange(0, i as int),
            decreases self.sandworm.len() - i,
        {
            v.push(self.sandworm[i]);
            proof {
                assert(v@ =~= self.sandworm@.subrange(0, i + 1));
            }
            i = i + 1;
        }
        proof {
            assert(v@ =~= self.sandworm@);
        }
        v
    }

    /// Records an upward travel intent for the next tick.
    pub fn move_up(&mut self)
        ensures
            final(self)@ == (GameView { dir: WormDirection::Up, ..old(self)@ }),
    {
        self.sandworm_dir = WormDirection::Up;
    }

    /// Records a downward travel intent for the next tick.
    pub fn move_down(&mut self)
        ensures
            final(self)@ == (GameView { dir: WormDirection::Down, ..old(self)@ }),
    {
        self.sandworm_dir = WormDirection::Down;
    }

    /// Records a leftward travel intent for the next tick.
    pub fn move_left(&mut self)
        ensures
            final(self)@ == (GameView { dir: WormDirection::Left, ..old(self)@ }),
    {
        self.sandworm_dir = WormDirection::Left;
    }

    /// Records a rightward travel intent for the next tick.
    pub fn move_right(&mut self)
        ensures
            final(self)@ == (GameView { dir: WormDirection::Right, ..old(self)@ }),
    {
        self.sandworm_dir = WormDirection::Right;
    }

    /// The input-intent layer's direction change: applies `d` unless it is
    /// the exact reverse of the current travel direction, which would steer
    /// the worm onto its own neck and is ignored.
    pub fn steer(&mut self, d: WormDirection)
        ensures
            d == opposite_of(old(self)@.dir) ==> final(self)@ == old(self)@,
            d != opposite_of(old(self)@.dir) ==> final(self)@ == (GameView { dir: d, ..old(self)@ }),
    {
        if !(d == opposite(self.sandworm_dir)) {
            self.sandworm_dir = d;
        }
    }

    /// Toggles between `Paused` and `Playing`; a finished game stays `Over`.
    pub fn toggle_pause(&mut self)
        ensures
            final(self)@ == (GameView { state: toggled(old(self)@.state), ..old(self)@ }),
    {
        self.current_state = match self.current_state {
            GameState::Paused => GameState::Playing,
            GameState::Playing => GameState::Paused,
            GameState::Over => GameState::Over,
        };
    }
}

/// What [`GameContext::toggle_pause`] does to the overall state.
pub open spec fn toggled(s: GameState) -> GameState {
    match s {
        GameState::Paused => GameState::Playing,
        GameState::Playing => GameState::Paused,
        GameState::Over => GameState::Over,
    }
}

/// The cell the worm's head will move to in the current travel direction.
pub open spec fn next_head_of(v: GameView) -> Coord {
    Coord {
        x: (v.worm[0].x + direction_delta(v.dir).x) as i32,
        y: (v.worm[0].y + direction_delta(v.dir).y) as i32,
    }
}

/// One normal advance: the tail cell dropped, the new head prepended.
pub open spec fn moved_worm(w: Seq<Coord>, nh: Coord) -> Seq<Coord> {
    seq![nh] + w.drop_last()
}

/// The cell a growth step appends: the tail extended colinearly outward,
/// away from the segment just before it.
pub open spec fn grow_cell(s0: Coord, s1: Coord) -> Coord {
    if s1.x == s0.x - 1 {
        Coord { x: (s0.x + 1) as i32, y: s0.y }
    } else if s1.x == s0.x + 1 {
        Coord { x: (s0.x - 1) as i32, y: s0.y }
    } else if s1.y == s0.y - 1 {
        Coord { x: s0.x, y: (s0.y + 1) as i32 }
    } else {
        Coord { x: s0.x, y: (s0.y - 1) as i32 }
    }
}

/// A growth advance: the normal advance followed by one appended tail cell.
pub open spec fn grown_worm(w: Seq<Coord>, nh: Coord) -> Seq<Coord> {
    let m = moved_worm(w, nh);
    m.push(grow_cell(m[m.len() - 1], m[m.len() - 2]))
}

/// The transition relation of one tick.  A paused or finished game does not
/// change.  Otherwise the worm's next head cell decides: outside the field
/// or on the worm's own body the game ends with everything else unchanged;
/// on the target the worm advances and grows and the target is relocated to
/// some free spawn cell; on a free cell the worm advances and nothing else
/// changes.
pub open spec fn tick_rel(pre: GameView, post: GameView) -> bool {
    if pre.state != GameState::Playing {
        post == pre
    } else {
        let nh = next_head_of(pre);
        &&& post.dir == pre.dir
        &&& if !in_field(nh) || pre.worm.contains(nh) {
            &&& post.worm == pre.worm
            &&& post.target == pre.target
            &&& post.state == GameState::Over
        } else if nh == pre.target {
            &&& post.worm == grown_worm(pre.worm, nh)
            &&& post.state == GameState::Playing
            &&& in_spawn_grid(post.target)
            &&& !post.worm.contains(post.target)
        } else {
            &&& post.worm == moved_worm(pre.worm, nh)
            &&& post.target == pre.target
            &&& post.state == GameState::Playing
        }
    }
}

/// Linear membership test on the worm.
fn worm_contains(v: &Vec<Coord>, c: Coord) -> (b: bool)
    ensures
        b == v@.contains(c),
{
    let mut i: usize = 0;
    while i < v.len()
        invariant
            i <= v.len(),
            forall|j: int| 0 <= j < i ==> v@[j] != c,
        decreases v.len() - i,
    {
        if v[i] == c {
            proof {
                assert(v@[i as int] == c);
            }
            return true;
        }
        i = i + 1;
    }
    false
}

/// The first free spawn cell in row-major order, if any cell is free.
fn first_free_cell(v: &Vec<Coord>) -> (r: Option<Coord>)
    ensures
        match r {
            Some(c) => in_spawn_grid(c) && !v@.contains(c),
            None => forall|c: Coord| #[trigger] in_spawn_grid(c) ==> v@.contains(c),
        },
{
    let mut y: i32 = 0;
    while y < SPICEFIELD_SIZE_Y
        invariant
            0 <= y <= SPICEFIELD_SIZE_Y,
            forall|c: Coord| #[trigger] in_spawn_grid(c) && c.y < y ==> v@.contains(c),
        decreases SPICEFIELD_SIZE_Y - y,
    {
        let mut x: i32 = 0;
        while x < SPICEFIELD_SIZE_X
            invariant
                0 <= y < SPICEFIELD_SIZE_Y,
                0 <= x <= SPICEFIELD_SIZE_X,
                forall|c: Coord| #[trigger] in_spawn_grid(c) && c.y < y ==> v@.contains(c),
                forall|c: Coord| #[trigger] in_spawn_grid(c) && c.y == y && c.x < x ==> v@.contains(c),
            decreases SPICEFIELD_SIZE_X - x,
        {
            let c = Coord { x, y };
            if !worm_contains(v, c) {
                return Some(c);
            }
            x = x + 1;
        }
        y = y + 1;
    }
    None
}

/// A worm with fewer segments than the spawn grid has cells cannot cover
/// every spawn cell: some cell stays free for the target.
pub proof fn lemma_free_cell_exists(w: Seq<Coord>)
    requires
        w.len() < SPICEFIELD_SIZE_X * SPICEFIELD_SIZE_Y,
    ensures
        exists|c: Coord| in_spawn_grid(c) && !w.contains(c),
{
    broadcast use vstd::seq_lib::seq_to_set_is_finite;

    let width = SPICEFIELD_SIZE_X as int;
    let area = (SPICEFIELD_SIZE_X * SPICEFIELD_SIZE_Y) as int;
    let cells = Seq::<Coord>::new(
        area as nat,
        |i: int| Coord { x: (i % width) as i32, y: (i / width) as i32 },
    );
    assert forall|i: int| 0 <= i < area implies in_spawn_grid(#[trigger] cells[i]) by {
        lemma_fundamental_div_mod(i, width);
        lemma_mod_bound(i, width);
    }
    assert(cells.no_duplicates()) by {
        assert forall|i: int, j: int|
            0 <= i < cells.len() && 0 <= j < cells.len() && i != j implies cells[i] != cells[j] by {
            lemma_fundamental_div_mod(i, width);
            lemma_fundamental_div_mod(j, width);
        }
    }
    cells.unique_seq_to_set();
    w.lemma_cardinality_of_set();
    if !(exists|c: Coord| in_spawn_grid(c) && !w.contains(c)) {
        assert forall|c: Coord| cells.to_set().contains(c) implies w.to_set().contains(c) by {
            assert(cells.contains(c));
            let i = choose|i: int| 0 <= i < cells.len() && cells[i] == c;
            assert(in_spawn_grid(c));
            assert(w.contains(c));
        }
        lemma_len_subset(cells.to_set(), w.to_set());
        assert(false);
    }
}

/// Draws cells at random until one misses the worm; after [`RESPAWN_DRAWS`]
/// misses it takes the first free cell in row-major order instead, so that
/// the search provably ends.
fn pick_free_cell(rng: &mut rand::rngs::ThreadRng, worm: &Vec<Coord>) -> (c: Coord)
    requires
        exists|k: Coord| in_spawn_grid(k) && !worm@.contains(k),
    ensures
        in_spawn_grid(c),
        !worm@.contains(c),
{
    let mut tries: u64 = RESPAWN_DRAWS;
    while tries > 0
        invariant
            exists|k: Coord| in_spawn_grid(k) && !worm@.contains(k),
        decreases tries,
    {
        let c = random_cell(rng);
        if !worm_contains(worm, c) {
            return c;
        }
        tries = tries - 1;
    }
    match first_free_cell(worm) {
        Some(c) => c,
        None => {
            proof {
                let k = choose|k: Coord| in_spawn_grid(k) && !worm@.contains(k);
                assert(in_spawn_grid(k));
                assert(false);
            }
            Coord { x: 0, y: 0 }
        },
    }
}

impl GameContext {
    /// Boundary test of the field; the upper bound is inclusive on purpose
    /// (see [`in_field`]).
    fn is_in_bounds(&self, c: Coord) -> (b: bool)
        ensures
            b == in_field(c),
    {
        c.x >= 0 && c.x <= SPICEFIELD_SIZE_X && c.y >= 0 && c.y <= SPICEFIELD_SIZE_Y
    }

    /// Drops the tail cell and prepends the new head.
    fn advance_head(&mut self, nh: Coord)
        requires
            old(self)@.worm.len() >= 1,
        ensures
            final(self)@.worm == moved_worm(old(self)@.worm, nh),
            final(self)@.dir == old(self)@.dir,
            final(self)@.target == old(self)@.target,
            final(self)@.state == old(self)@.state,
    {
        self.sandworm.pop();
        self.sandworm.insert(0, nh);
        proof {
            assert(self.sandworm@ =~= moved_worm(old(self)@.worm, nh));
        }
    }

    /// Appends one tail cell, extending the worm colinearly outward past its
    /// current last segment.
    fn grow_worm(&mut self)
        requires
            old(self)@.worm.len() >= 2,
            in_field(old(self)@.worm[old(self)@.worm.len() - 1]),
        ensures
            final(self)@.worm == old(self)@.worm.push(
                grow_cell(
                    old(self)@.worm[old(self)@.worm.len() - 1],
                    old(self)@.worm[old(self)@.worm.len() - 2],
                ),
            ),
            final(self)@.dir == old(self)@.dir,
            final(self)@.target == old(self)@.target,
            final(self)@.state == old(self)@.state,
    {
        let n = self.sandworm.len();
        let s0 = self.sandworm[n - 1];
        let s1 = self.sandworm[n - 2];
        let grown = if s1.x == s0.x - 1 {
            Coord { x: s0.x + 1, y: s0.y }
        } else if s1.x == s0.x + 1 {
            Coord { x: s0.x - 1, y: s0.y }
        } else if s1.y == s0.y - 1 {
            Coord { x: s0.x, y: s0.y + 1 }
        } else {
            Coord { x: s0.x, y: s0.y - 1 }
        };
        self.sandworm.push(grown);
    }

    /// Relocates the target to a random spawn cell that no worm segment
    /// occupies.
    fn new_saduakar(&mut self)
        requires
            exists|k: Coord| in_spawn_grid(k) && !old(self)@.worm.contains(k),
        ensures
            final(self)@.worm == old(self)@.worm,
            final(self)@.dir == old(self)@.dir,
            final(self)@.state == old(self)@.state,
            in_spawn_grid(final(self)@.target),
            !final(self)@.worm.contains(final(self)@.target),
    {
        let c = pick_free_cell(&mut self.rng, &self.sandworm);
        self.sarduakar_invader = c;
    }

    /// One tick of the simulation: the core state transition, as stated by
    /// [`tick_rel`].  A paused or finished game is left untouched.  The worm
    /// must not have outgrown the spawn grid: with two cells of slack a
    /// relocated target always has a free cell to land on.  Games reach that
    /// bound only after more than a thousand target hits.
    pub fn update_state(&mut self)
        requires
            old(self).wf(),
            old(self)@.worm.len() + 2 <= SPICEFIELD_SIZE_X * SPICEFIELD_SIZE_Y,
        ensures
            final(self).wf(),
            tick_rel(old(self)@, final(self)@),
    {
        match self.current_state {
            GameState::Paused => {
                return;
            }
            GameState::Over => {
                return;
            }
            GameState::Playing => {}
        }
        let head = self.sandworm[0];
        proof {
            assert(in_field(old(self)@.worm[0]));
        }
        let next_sandworm_head = match self.sandworm_dir {
            WormDirection::Up => head.plus(Coord { x: 0, y: -1 }),
            WormDirection::Right => head.plus(Coord { x: 1, y: 0 }),
            WormDirection::Down => head.plus(Coord { x: 0, y: 1 }),
            WormDirection::Left => head.plus(Coord { x: -1, y: 0 }),
        };
        proof {
            assert(next_sandworm_head == next_head_of(old(self)@));
        }
        if !self.is_in_bounds(next_sandworm_head) {
            self.current_state = GameState::Over;
            proof {
                lemma_step_preserves_wf(old(self)@, self@);
            }
        } else if worm_contains(&self.sandworm, next_sandworm_head) {
            self.current_state = GameState::Over;
            proof {
                lemma_step_preserves_wf(old(self)@, self@);
            }
        } else if next_sandworm_head == self.sarduakar_invader {
            self.advance_head(next_sandworm_head);
            proof {
                assert(self@.worm[self@.worm.len() - 1] == old(self)@.worm[old(self)@.worm.len() - 2]);
                assert(in_field(old(self)@.worm[old(self)@.worm.len() - 2]));
            }
            self.grow_worm();
            proof {
                assert(self@.worm =~= grown_worm(old(self)@.worm, next_sandworm_head));
                lemma_free_cell_exists(self@.worm);
            }
            self.new_saduakar();
            proof {
                assert(tick_rel(old(self)@, self@));
                lemma_step_preserves_wf(old(self)@, self@);
            }
        } else {
            self.advance_head(next_sandworm_head);
            proof {
                assert(tick_rel(old(self)@, self@));
                lemma_step_preserves_wf(old(self)@, self@);
            }
        }
    }
}

impl GameContext {
    /// Builds a game from explicit parts, so that callers can set up any
    /// position.  Returns the game exactly when the parts form a
    /// well-formed state.
    pub fn from_parts(worm: Vec<Coord>, dir: WormDirection, target: Coord, state: GameState) -> (r:
        Option<GameContext>)
        ensures
            ({
                let v = GameView { worm: worm@, dir, target, state };
                match r {
                    Some(g) => g@ == v && g.wf(),
                    None => !wf_view(v),
                }
            }),
    {
        let ghost v = GameView { worm: worm@, dir, target, state };
        let n = worm.len();
        if n < 3 {
            return None;
        }
        let mut i: usize = 0;
        while i < n - 1
            invariant
                3 <= n == worm@.len(),
                i <= n - 1,
                forall|j: int| 0 <= j < i ==> in_field(#[trigger] worm@[j]),
            decreases n - 1 - i,
        {
            let c = worm[i];
            if !(c.x >= 0 && c.x <= SPICEFIELD_SIZE_X && c.y >= 0 && c.y <= SPICEFIELD_SIZE_Y) {
                proof {
                    assert(!in_field(worm@[i as int]));
                }
                return None;
            }
            i = i + 1;
        }
        let last = worm[n - 1];
        if !(last.x >= -1 && last.x <= SPICEFIELD_SIZE_X + 1 && last.y >= -1 && last.y
            <= SPICEFIELD_SIZE_Y + 1) {
            proof {
                assert(!in_outer_field(v.worm[v.worm.len() - 1]));
            }
            return None;
        }
        let mut i: usize = 0;
        while i < n - 1
            invariant
                3 <= n == worm@.len(),
                i <= n - 1,
                forall|j: int| 0 <= j < n - 1 ==> in_field(#[trigger] worm@[j]),
                forall|j: int| 0 <= j < i ==> adjacent(#[trigger] worm@[j], worm@[j + 1]),
            decreases n - 1 - i,
        {
            let a = worm[i];
            let b = worm[i + 1];
            proof {
                assert(in_field(worm@[i as int]));
            }
            let adj = (a.x == b.x && (b.y == a.y + 1 || b.y == a.y - 1)) || (a.y == b.y && (b.x
                == a.x + 1 || b.x == a.x - 1));
            if !adj {
                proof {
                    assert(!adjacent(worm@[i as int], worm@[i as int + 1]));
                }
                return None;
            }
            i = i + 1;
        }
        if !(target.x >= 0 && target.x < SPICEFIELD_SIZE_X && target.y >= 0 && target.y
            < SPICEFIELD_SIZE_Y) {
            return None;
        }
        if worm_contains(&worm, target) {
            return None;
        }
        Some(
            GameContext {
                sandworm: worm,
                sandworm_dir: dir,
                sarduakar_invader: target,
                current_state: state,
                rng: fresh_rng(),
            },
        )
    }
}

/// Bounds invariant and target disjointness, spelled out: in a well-formed
/// state every worm segment lies in the widened field — all but the tail in
/// the field proper — and the target lies on the spawn grid, on no worm
/// segment.
pub proof fn lemma_wf_bounds_and_target(v: GameView)
    requires
        wf_view(v),
    ensures
        forall|i: int| 0 <= i < v.worm.len() ==> in_outer_field(#[trigger] v.worm[i]),
        forall|i: int| 0 <= i < v.worm.len() - 1 ==> in_field(#[trigger] v.worm[i]),
        in_spawn_grid(v.target),
        forall|i: int| 0 <= i < v.worm.len() ==> v.worm[i] != v.target,
{
    assert forall|i: int| 0 <= i < v.worm.len() implies in_outer_field(#[trigger] v.worm[i]) by {
        if i < v.worm.len() - 1 {
            assert(in_field(v.worm[i]));
        }
    }
    assert forall|i: int| 0 <= i < v.worm.len() implies v.worm[i] != v.target by {
        if v.worm[i] == v.target {
            assert(v.worm.contains(v.target));
        }
    }
}

/// Every tick from a well-formed state yields a well-formed state; together
/// with the constructors this carries the bounds invariant and the target's
/// disjointness to every reachable state.
pub proof fn lemma_step_preserves_wf(pre: GameView, post: GameView)
    requires
        wf_view(pre),
        tick_rel(pre, post),
    ensures
        wf_view(post),
{
    if pre.state != GameState::Playing {
        return;
    }
    let nh = next_head_of(pre);
    let n = pre.worm.len() as int;
    if !in_field(nh) || pre.worm.contains(nh) {
        return;
    }
    let m = moved_worm(pre.worm, nh);
    assert(m.len() == n);
    assert forall|i: int| 0 <= i < n - 1 implies in_field(#[trigger] m[i]) by {
        if i > 0 {
            assert(in_field(pre.worm[i - 1]));
        }
    }
    assert(m[n - 1] == pre.worm[n - 2]);
    assert(in_field(pre.worm[n - 2]));
    assert forall|i: int| 0 <= i < n - 1 implies adjacent(#[trigger] m[i], m[i + 1]) by {
        if i == 0 {
            assert(m[0] == nh && m[1] == pre.worm[0]);
            assert(adjacent(nh, pre.worm[0]));
        } else {
            assert(m[i] == pre.worm[i - 1] && m[i + 1] == pre.worm[i]);
            assert(adjacent(pre.worm[i - 1], pre.worm[i]));
        }
    }
    if nh == pre.target {
        let g = grow_cell(m[n - 1], m[n - 2]);
        assert(post.worm == m.push(g));
        assert(in_outer_field(g));
        assert(adjacent(m[n - 1], g));
        assert forall|i: int| 0 <= i < post.worm.len() - 1 implies in_field(#[trigger] post.worm[i]) by {
            assert(post.worm[i] == m[i]);
        }
        assert forall|i: int|
            0 <= i < post.worm.len() - 1 implies adjacent(#[trigger] post.worm[i], post.worm[i + 1]) by {
            if i < n - 1 {
                assert(post.worm[i] == m[i] && post.worm[i + 1] == m[i + 1]);
            } else {
                assert(post.worm[i] == m[n - 1] && post.worm[i + 1] == g);
            }
        }
    } else {
        assert(post.worm == m);
        assert forall|i: int| 0 <= i < post.worm.len() implies post.worm[i] != post.target by {
            if i == 0 {
                assert(post.worm[0] == nh);
            } else {
                assert(post.worm[i] == pre.worm[i - 1]);
                if pre.worm[i - 1] == pre.target {
                    assert(pre.worm.contains(pre.target));
                }
            }
        }
        assert(!post.worm.contains(post.target)) by {
            if post.worm.contains(post.target) {
                let i = choose|i: int| 0 <= i < post.worm.len() && post.worm[i] == post.target;
                assert(post.worm[i] != post.target);
            }
        }
    }
}

/// No self-overlap: a tick of a well-formed, overlap-free state stays
/// overlap-free, provided a growth tick's extended tail cell is itself free.
/// A growth step whose tail extension lands on the worm's own body is the
/// one transition of the engine that can create an overlap, and is excluded
/// here.
pub proof fn lemma_step_no_overlap(pre: GameView, post: GameView)
    requires
        wf_view(pre),
        tick_rel(pre, post),
        pre.worm.no_duplicates(),
        ({
            let nh = next_head_of(pre);
            let m = moved_worm(pre.worm, nh);
            (pre.state == GameState::Playing && in_field(nh) && !pre.worm.contains(nh) && nh
                == pre.target) ==> !m.contains(grow_cell(m[m.len() - 1], m[m.len() - 2]))
        }),
    ensures
        post.worm.no_duplicates(),
{
    if pre.state != GameState::Playing {
        return;
    }
    let nh = next_head_of(pre);
    let n = pre.worm.len() as int;
    if !in_field(nh) || pre.worm.contains(nh) {
        return;
    }
    let m = moved_worm(pre.worm, nh);
    assert(m.no_duplicates()) by {
        assert forall|i: int, j: int|
            0 <= i < m.len() && 0 <= j < m.len() && i != j implies m[i] != m[j] by {
            if i == 0 && m[0] == m[j] {
                assert(m[j] == pre.worm[j - 1]);
                assert(pre.worm.contains(nh));
            }
            if j == 0 && m[i] == m[0] {
                assert(m[i] == pre.worm[i - 1]);
                assert(pre.worm.contains(nh));
            }
        }
    }
    if nh == pre.target {
        let g = grow_cell(m[n - 1], m[n - 2]);
        assert(post.worm == m.push(g));
        assert forall|i: int, j: int|
            0 <= i < post.worm.len() && 0 <= j < post.worm.len() && i != j
            implies post.worm[i] != post.worm[j] by {
            if i < n && j < n {
                assert(post.worm[i] == m[i] && post.worm[j] == m[j]);
            } else if i == n && j < n {
                if post.worm[i] == post.worm[j] {
                    assert(m[j] == g);
                    assert(m.contains(g));
                }
            } else if j == n && i < n {
                if post.worm[i] == post.worm[j] {
                    assert(m[i] == g);
                    assert(m.contains(g));
                }
            }
        }
    }
}

/// Length conservation: a normal move keeps the worm's length; a target hit
/// grows it by exactly one segment.
pub proof fn lemma_length_conservation(pre: GameView, post: GameView)
    requires
        wf_view(pre),
        tick_rel(pre, post),
        pre.state == GameState::Playing,
        in_field(next_head_of(pre)),
        !pre.worm.contains(next_head_of(pre)),
    ensures
        next_head_of(pre) == pre.target ==> post.worm.len() == pre.worm.len() + 1,
        next_head_of(pre) != pre.target ==> post.worm.len() == pre.worm.len(),
{
}

/// Pause idempotence: a tick of a paused game changes nothing, and the game
/// stays paused, so any number of ticks while paused changes nothing.
pub proof fn lemma_paused_tick_changes_nothing(pre: GameView, post: GameView)
    requires
        tick_rel(pre, post),
        pre.state == GameState::Paused,
    ensures
        post == pre,
        post.state == GameState::Paused,
{
}

/// Terminal absorption: a tick of a finished game changes nothing, so the
/// game stays over; direction changes and pause toggles keep the overall
/// state by their own contracts.
pub proof fn lemma_over_is_terminal(pre: GameView, post: GameView)
    requires
        tick_rel(pre, post),
        pre.state == GameState::Over,
    ensures
        post == pre,
        post.state == GameState::Over,
{
}

/// Pause idempotence and terminal absorption over any number of ticks: along
/// a chain of states, each related to the next by one tick, a paused or
/// finished start keeps every later state equal to it.
pub proof fn lemma_idle_chain_changes_nothing(chain: Seq<GameView>)
    requires
        chain.len() >= 1,
        chain[0].state != GameState::Playing,
        forall|i: int| 0 <= i < chain.len() - 1 ==> tick_rel(#[trigger] chain[i], chain[i + 1]),
    ensures
        forall|i: int| 0 <= i < chain.len() ==> #[trigger] chain[i] == chain[0],
    decreases chain.len(),
{
    if chain.len() > 1 {
        let n = chain.len() as int;
        let shorter = chain.drop_last();
        assert(shorter[0] == chain[0]);
        assert forall|i: int| 0 <= i < shorter.len() - 1 implies tick_rel(
            #[trigger] shorter[i],
            shorter[i + 1],
        ) by {
            assert(tick_rel(chain[i], chain[i + 1]));
        }
        lemma_idle_chain_changes_nothing(shorter);
        assert forall|i: int| 0 <= i < chain.len() implies #[trigger] chain[i] == chain[0] by {
            if i < n - 1 {
                assert(shorter[i] == shorter[0]);
                assert(shorter[i] == chain[i]);
            } else if i == n - 1 {
                assert(shorter[n - 2] == shorter[0]);
                assert(chain[n - 2] == chain[0]);
                assert(tick_rel(chain[n - 2], chain[n - 1]));
            }
        }
    }
}

} // verus!

