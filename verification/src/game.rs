//! One round of play as a state machine that advances once per frame.
//!
//! The caller owns the clock, the keyboard, the screen and the loudspeaker.
//! Once per frame it reports what happened (`Input`), lets the game `step`,
//! and carries out what the game asks for (`Outcome`).

use crate::board::{
    blank_cells, blank_colors, cells_of, colors_of, empty_cells, empty_color_grid, empty_colors,
    empty_grid, in_sync, Color, ColorGrid, Grid, COLS, ROWS,
};
use crate::collision::{
    blocked, collide, collides, lemma_lock_keeps_sync, lemma_spawn_is_free_on_empty_board,
    lock_piece, locked_cells, locked_colors,
};
use crate::lines::{
    clear_lines, compacted, full_count, full_mask, lemma_compacted_len,
    lemma_compaction_keeps_sync, lemma_full_count_bound,
};
use crate::piece::{
    height, new_piece, spawned_piece, state_after_spawn, template_cells, width, Piece,
    PieceView, MAX_EXTENT, SHAPE_COUNT,
};
use crate::rng::{range_draw, SimpleRng};
use crate::rotation::{
    is_oriented_template, lemma_oriented_template_is_playable, lemma_rotation_keeps_orientation,
    rotate, rotated, turned_by,
};
use vstd::prelude::*;

verus! {

/// Points awarded for each row removed.
pub const SCORE_PER_LINE: i32 = 1;

/// Number of frames for which the end of a round is shown.
pub const GAME_OVER_FRAMES: u32 = 120;

/// Where a round stands.
#[derive(Clone, Copy, Debug, PartialEq, Eq, Structural)]
pub enum Phase {
    /// A piece is falling.
    Playing,
    /// The round is lost and its end is being shown; the number tells how
    /// many more frames show it.
    GameOverAnimating(u32),
    /// The end has been shown; the next frame starts a new round.
    Resetting,
}

/// A sound effect for the caller to play.
#[derive(Clone, Copy, Debug, PartialEq, Eq, Structural)]
pub enum Sound {
    /// The piece was moved or turned by a key.
    Move,
    /// The timer brought the piece to rest.
    Lock,
    /// The down key brought the piece to rest.
    LineClear,
    /// The end of a round is on the screen.
    GameOver,
}

/// What the caller observed since the last frame.
#[derive(Clone, Copy, Debug)]
pub struct Input {
    /// The descent timer has run past the drop interval.
    pub gravity_due: bool,
    /// The key for a move to the left was pressed.
    pub left: bool,
    /// The key for a move to the right was pressed.
    pub right: bool,
    /// The key for a move down was pressed.
    pub down: bool,
    /// The key for a quarter turn was pressed.
    pub rotate: bool,
}

/// What the caller is to do after a frame.
#[derive(Debug)]
pub struct Outcome {
    /// The sounds to play, in this order.
    pub sounds: Vec<Sound>,
    /// The descent timer starts again from zero.
    pub restart_timer: bool,
}

/// A round of the game: playfield, falling piece, score, generator, phase.
pub struct Game {
    grid: Grid,
    color_grid: ColorGrid,
    piece: Piece,
    score: i32,
    rng: SimpleRng,
    phase: Phase,
}

/// The mathematical value of a `Game`.
#[verifier::ext_equal]
pub ghost struct GameView {
    pub cells: Seq<Seq<u8>>,
    pub colors: Seq<Seq<Option<Color>>>,
    pub piece: PieceView,
    pub score: int,
    pub rng_state: u32,
    pub phase: Phase,
}

/// A game in the course of one frame, with what the frame has asked of the
/// caller so far.
#[verifier::ext_equal]
pub ghost struct Frame {
    pub game: GameView,
    pub sounds: Seq<Sound>,
    pub restart_timer: bool,
}

impl GameView {
    /// What holds of every game: the playfield has its rows, occupancy and
    /// colours agree, the falling piece is a template in one of its
    /// orientations and lies on the playfield, the score is not negative.
    /// While a piece is falling it collides with nothing where it stands.
    /// An end that is being shown has between one frame and all but one of
    /// its frames to go.
    pub open spec fn wf(self) -> bool {
        &&& self.cells.len() == ROWS
        &&& self.colors.len() == ROWS
        &&& in_sync(self.cells, self.colors)
        &&& is_oriented_template(self.piece.cells)
        &&& self.piece.y >= 0
        &&& self.piece.on_board()
        &&& self.score >= 0
        &&& (self.phase is Playing ==> !collides(self.cells, self.piece, 0, 0))
        &&& (self.phase matches Phase::GameOverAnimating(frames) ==> 1 <= frames
            < GAME_OVER_FRAMES)
    }

    /// The score can take the rows of two more locks without leaving `i32`.
    pub open spec fn has_score_room(self) -> bool {
        self.score + 2 * ROWS * SCORE_PER_LINE <= i32::MAX
    }

    /// The first state of a round on generator state `rng_state`: an empty
    /// playfield, no score, and a piece spawned from the generator.
    pub open spec fn fresh(rng_state: u32) -> GameView {
        GameView {
            cells: empty_cells(),
            colors: empty_colors(),
            piece: spawned_piece(rng_state),
            score: 0,
            rng_state: state_after_spawn(rng_state),
            phase: Phase::Playing,
        }
    }

    /// The game with its piece moved by `dx` columns and `dy` rows.
    pub open spec fn moved(self, dx: int, dy: int) -> GameView {
        GameView {
            piece: PieceView { x: self.piece.x + dx, y: self.piece.y + dy, ..self.piece },
            ..self
        }
    }

    /// The game with its piece turned by a quarter.
    pub open spec fn turned(self) -> GameView {
        GameView { piece: PieceView { cells: rotated(self.piece.cells), ..self.piece }, ..self }
    }

    /// The game after its piece has come to rest: the piece is locked into
    /// the playfield, full rows are removed, each of them scores, and a new
    /// piece is spawned. A new piece that collides where it stands ends the
    /// round.
    pub open spec fn settled(self) -> GameView {
        let cells = locked_cells(self.cells, self.piece);
        let colors = locked_colors(self.colors, self.piece);
        let full = full_mask(cells);
        let remaining = compacted(cells, full, blank_cells());
        GameView {
            cells: remaining,
            colors: compacted(colors, full, blank_colors()),
            piece: spawned_piece(self.rng_state),
            score: self.score + full_count(full) * SCORE_PER_LINE,
            rng_state: state_after_spawn(self.rng_state),
            phase: if collides(remaining, spawned_piece(self.rng_state), 0, 0) {
                Phase::GameOverAnimating((GAME_OVER_FRAMES - 1) as u32)
            } else {
                Phase::Playing
            },
        }
    }

    /// The game at the start of the next round. The generator goes on from
    /// where it stands: it is not seeded again.
    pub open spec fn restarted(self) -> GameView {
        GameView::fresh(self.rng_state)
    }
}

impl Frame {
    /// A frame in which nothing has happened yet.
    pub open spec fn start(game: GameView) -> Frame {
        Frame { game, sounds: Seq::empty(), restart_timer: false }
    }

    /// The frame with one more sound to play.
    pub open spec fn heard(self, sound: Sound) -> Frame {
        Frame { sounds: self.sounds.push(sound), ..self }
    }

    /// The piece comes to rest, and the timer starts again for the piece
    /// that follows. If that piece ends the round, this frame is the first to
    /// show the end, with its sound.
    pub open spec fn settle(self) -> Frame {
        let next = self.game.settled();
        Frame {
            game: next,
            sounds: if next.phase is Playing {
                self.sounds
            } else {
                self.sounds.push(Sound::GameOver)
            },
            restart_timer: true,
        }
    }

    /// The descent timer fires: a piece that can fall by one row does, one
    /// that cannot comes to rest with the sound of a lock. Either way the
    /// timer starts again.
    pub open spec fn gravity(self) -> Frame {
        let game = self.game;
        if collides(game.cells, game.piece, 0, 1) {
            self.heard(Sound::Lock).settle()
        } else {
            Frame { game: game.moved(0, 1), restart_timer: true, ..self }
        }
    }

    /// A sideways key: the piece moves by `dx` columns, with the sound of a
    /// move, unless it would collide.
    pub open spec fn sideways(self, dx: int) -> Frame {
        let game = self.game;
        if collides(game.cells, game.piece, dx, 0) {
            self
        } else {
            Frame { game: game.moved(dx, 0), ..self }.heard(Sound::Move)
        }
    }

    /// The down key: the piece moves down by one row, with the sound of a
    /// move. One that cannot comes to rest at once, as if the timer had
    /// fired, but with the sound of a line clear.
    pub open spec fn down(self) -> Frame {
        let game = self.game;
        if collides(game.cells, game.piece, 0, 1) {
            self.heard(Sound::LineClear).settle()
        } else {
            Frame { game: game.moved(0, 1), ..self }.heard(Sound::Move)
        }
    }

    /// The turn key: the piece is turned by a quarter, with the sound of a
    /// move, unless the turned piece would collide where it stands.
    pub open spec fn turn(self) -> Frame {
        let game = self.game;
        if collides(game.cells, game.turned().piece, 0, 0) {
            self
        } else {
            Frame { game: game.turned(), ..self }.heard(Sound::Move)
        }
    }

    /// The keys of one frame, in the order left, right, down, turn. A round
    /// that the down key has ended takes no turn.
    pub open spec fn keys(self, input: Input) -> Frame {
        let after_left = if input.left {
            self.sideways(-1)
        } else {
            self
        };
        let after_right = if input.right {
            after_left.sideways(1)
        } else {
            after_left
        };
        let after_down = if input.down {
            after_right.down()
        } else {
            after_right
        };
        if input.rotate && after_down.game.phase is Playing {
            after_down.turn()
        } else {
            after_down
        }
    }
}

/// One frame of the game.
///
/// While a piece is falling, the timer is served first and then the keys; a
/// round that the timer has ended takes no keys in that frame. While the end
/// of a round is shown, each frame plays its sound and counts down, and no
/// input is looked at. The frame after the last of them clears the playfield
/// and the score, spawns a piece, starts the timer again and serves the keys.
pub open spec fn frame_after(game: GameView, input: Input) -> Frame {
    match game.phase {
        Phase::Playing => {
            let fallen = if input.gravity_due {
                Frame::start(game).gravity()
            } else {
                Frame::start(game)
            };
            if fallen.game.phase is Playing {
                fallen.keys(input)
            } else {
                fallen
            }
        },
        Phase::GameOverAnimating(frames) => Frame {
            game: GameView {
                phase: if frames <= 1 {
                    Phase::Resetting
                } else {
                    Phase::GameOverAnimating((frames - 1) as u32)
                },
                ..game
            },
            sounds: seq![Sound::GameOver],
            restart_timer: false,
        },
        Phase::Resetting => Frame {
            game: game.restarted(),
            sounds: Seq::empty(),
            restart_timer: true,
        }.keys(input),
    }
}

/// The anchor of the falling piece is never far from the playfield's corner.
pub proof fn lemma_anchor_bounds(game: GameView)
    requires
        game.wf(),
    ensures
        -(MAX_EXTENT as int) < game.piece.x < COLS,
        0 <= game.piece.y < ROWS,
{
    let cells = game.piece.cells;
    lemma_oriented_template_is_playable(cells);
    let (r, c) = choose|r: int, c: int|
        0 <= r < height(cells) && 0 <= c < width(cells) && #[trigger] cells[r][c] == 1;
    assert(game.piece.filled(r, c));
}

/// A piece that does not collide after a move collides with nothing once
/// it has moved.
pub proof fn lemma_moved_is_free(game: GameView, dx: int, dy: int)
    requires
        !collides(game.cells, game.piece, dx, dy),
    ensures
        !collides(game.cells, game.moved(dx, dy).piece, 0, 0),
{
    let before = game.piece;
    let after = game.moved(dx, dy).piece;
    assert forall|r: int, c: int| #[trigger] after.solid(r, c) implies !blocked(
        game.cells,
        after.y + r,
        after.x + c,
    ) by {
        assert(before.solid(r, c));
    }
}

/// While a piece is falling, a move that does not collide and does not lift
/// the anchor above the top row leaves the game well formed.
pub proof fn lemma_moved_wf(game: GameView, dx: int, dy: int)
    requires
        game.wf(),
        !collides(game.cells, game.piece, dx, dy),
        game.piece.y + dy >= 0,
    ensures
        game.moved(dx, dy).wf(),
{
    lemma_moved_is_free(game, dx, dy);
    let after = game.moved(dx, dy).piece;
    assert forall|r: int, c: int| #[trigger] after.filled(r, c) implies 0 <= after.y + r < ROWS
        && 0 <= after.x + c < COLS by {
        assert(game.piece.solid(r, c));
    }
}

/// A quarter turn that does not collide leaves the game well formed.
pub proof fn lemma_turned_wf(game: GameView)
    requires
        game.wf(),
        !collides(game.cells, game.turned().piece, 0, 0),
    ensures
        game.turned().wf(),
{
    lemma_rotation_keeps_orientation(game.piece.cells);
    let after = game.turned().piece;
    assert forall|r: int, c: int| #[trigger] after.filled(r, c) implies 0 <= after.y + r < ROWS
        && 0 <= after.x + c < COLS by {
        assert(after.solid(r, c));
    }
}

/// A newly spawned piece is a template as it was drawn and lies on the
/// playfield.
pub proof fn lemma_spawned_piece_fits(state: u32)
    ensures
        is_oriented_template(spawned_piece(state).cells),
        spawned_piece(state).y >= 0,
        spawned_piece(state).on_board(),
{
    let index = range_draw(state, 0, SHAPE_COUNT as int);
    assert(turned_by(template_cells(index), 0) == template_cells(index));
}

/// A round starts well formed.
pub proof fn lemma_fresh_wf(rng_state: u32)
    ensures
        GameView::fresh(rng_state).wf(),
{
    lemma_spawned_piece_fits(rng_state);
    lemma_spawn_is_free_on_empty_board(GameView::fresh(rng_state).cells, rng_state);
}

/// Coming to rest leaves the game well formed, and adds to the score what
/// the removed rows are worth: at most `ROWS` times `SCORE_PER_LINE`.
pub proof fn lemma_settled_wf(game: GameView)
    requires
        game.wf(),
    ensures
        game.settled().wf(),
        game.score <= game.settled().score <= game.score + ROWS * SCORE_PER_LINE,
{
    let cells = locked_cells(game.cells, game.piece);
    let colors = locked_colors(game.colors, game.piece);
    let full = full_mask(cells);
    lemma_lock_keeps_sync(game.cells, game.colors, game.piece);
    lemma_compaction_keeps_sync(cells, colors);
    lemma_compacted_len(cells, full, blank_cells());
    lemma_compacted_len(colors, full, blank_colors());
    lemma_full_count_bound(full);
    lemma_spawned_piece_fits(game.rng_state);
}

/// The keys leave a well-formed game in play well formed, and the score
/// grows by no more than one lock can bring.
pub proof fn lemma_keys_keep_wf(frame: Frame, input: Input)
    requires
        frame.game.wf(),
        frame.game.phase is Playing,
    ensures
        frame.keys(input).game.wf(),
        frame.keys(input).game.score <= frame.game.score + ROWS * SCORE_PER_LINE,
{
    let a = if input.left {
        frame.sideways(-1)
    } else {
        frame
    };
    let b = if input.right {
        a.sideways(1)
    } else {
        a
    };
    let c = if input.down {
        b.down()
    } else {
        b
    };
    if !collides(frame.game.cells, frame.game.piece, -1, 0) {
        lemma_moved_wf(frame.game, -1, 0);
    }
    if !collides(a.game.cells, a.game.piece, 1, 0) {
        lemma_moved_wf(a.game, 1, 0);
    }
    lemma_settled_wf(b.game);
    if !collides(b.game.cells, b.game.piece, 0, 1) {
        lemma_moved_wf(b.game, 0, 1);
    }
    if !collides(c.game.cells, c.game.turned().piece, 0, 0) {
        lemma_turned_wf(c.game);
    }
}

/// Whatever the input, a frame leaves a well-formed game well formed, and
/// the score does not grow by more than two locks can bring.
pub proof fn lemma_frame_keeps_wf(game: GameView, input: Input)
    requires
        game.wf(),
    ensures
        frame_after(game, input).game.wf(),
        frame_after(game, input).game.score <= game.score + 2 * ROWS * SCORE_PER_LINE,
{
    match game.phase {
        Phase::Playing => {
            let fallen = if input.gravity_due {
                Frame::start(game).gravity()
            } else {
                Frame::start(game)
            };
            lemma_settled_wf(game);
            if !collides(game.cells, game.piece, 0, 1) {
                lemma_moved_wf(game, 0, 1);
            }
            if fallen.game.phase is Playing {
                lemma_keys_keep_wf(fallen, input);
            }
        },
        Phase::GameOverAnimating(frames) => {},
        Phase::Resetting => {
            lemma_fresh_wf(game.rng_state);
            lemma_keys_keep_wf(
                Frame { game: game.restarted(), sounds: Seq::empty(), restart_timer: true },
                input,
            );
        },
    }
}

/// The game after the frames whose inputs are `inputs`, in their order.
pub open spec fn game_after(game: GameView, inputs: Seq<Input>) -> GameView
    decreases inputs.len(),
{
    if inputs.len() == 0 {
        game
    } else {
        game_after(frame_after(game, inputs[0]).game, inputs.drop_first())
    }
}

/// However long a game runs and whatever its inputs, it stays well formed.
pub proof fn lemma_game_stays_wf(game: GameView, inputs: Seq<Input>)
    requires
        game.wf(),
    ensures
        game_after(game, inputs).wf(),
    decreases inputs.len(),
{
    if inputs.len() > 0 {
        lemma_frame_keeps_wf(game, inputs[0]);
        lemma_game_stays_wf(frame_after(game, inputs[0]).game, inputs.drop_first());
    }
}

/// Every state that a round can reach from its start is well formed:
/// occupancy and colours agree, and a falling piece is a template in one of
/// its orientations that lies on the playfield and overlaps nothing.
pub proof fn lemma_reachable_games_are_wf(seed: u32, inputs: Seq<Input>)
    ensures
        game_after(GameView::fresh(seed), inputs).wf(),
{
    lemma_fresh_wf(seed);
    lemma_game_stays_wf(GameView::fresh(seed), inputs);
}

/// The end of a round is shown for exactly the frames it has to go: after
/// that many frames, whatever their inputs, nothing has changed but the
/// phase, which is `Resetting`.
pub proof fn lemma_end_runs_its_course(game: GameView, inputs: Seq<Input>)
    requires
        game.phase matches Phase::GameOverAnimating(frames) && 1 <= frames == inputs.len(),
    ensures
        game_after(game, inputs) == (GameView { phase: Phase::Resetting, ..game }),
    decreases inputs.len(),
{
    let next = frame_after(game, inputs[0]).game;
    if inputs.len() > 1 {
        lemma_end_runs_its_course(next, inputs.drop_first());
    } else {
        assert(game_after(next, inputs.drop_first()) == next);
    }
}

impl View for Game {
    type V = GameView;

    closed spec fn view(&self) -> GameView {
        GameView {
            cells: cells_of(self.grid),
            colors: colors_of(self.color_grid),
            piece: self.piece@,
            score: self.score as int,
            rng_state: self.rng.state,
            phase: self.phase,
        }
    }
}

/// The frame that a game and the outcome gathered so far stand for.
pub open spec fn frame_of(game: Game, outcome: Outcome) -> Frame {
    Frame { game: game@, sounds: outcome.sounds@, restart_timer: outcome.restart_timer }
}

impl Game {
    /// The game is well formed.
    pub open spec fn wf(&self) -> bool {
        self@.wf()
    }

    /// Starts a round on a generator seeded with `seed`.
    pub fn new(seed: u32) -> (game: Game)
        ensures
            game@ == GameView::fresh(seed),
            game.wf(),
    {
        let mut rng: SimpleRng = SimpleRng::new(seed);
        let piece: Piece = new_piece(&mut rng);
        proof {
            lemma_fresh_wf(seed);
        }
        Game {
            grid: empty_grid(),
            color_grid: empty_color_grid(),
            piece,
            score: 0,
            rng,
            phase: Phase::Playing,
        }
    }

    /// The occupancy of the playfield.
    pub fn grid(&self) -> (grid: &Grid)
        ensures
            cells_of(*grid) == self@.cells,
    {
        &self.grid
    }

    /// The colours of the playfield.
    pub fn color_grid(&self) -> (color_grid: &ColorGrid)
        ensures
            colors_of(*color_grid) == self@.colors,
    {
        &self.color_grid
    }

    /// The falling piece.
    pub fn piece(&self) -> (piece: &Piece)
        ensures
            piece@ == self@.piece,
    {
        &self.piece
    }

    /// The score of the round.
    pub fn score(&self) -> (score: i32)
        ensures
            score == self@.score,
    {
        self.score
    }

    /// The state of the generator.
    pub fn rng_state(&self) -> (state: u32)
        ensures
            state == self@.rng_state,
    {
        self.rng.state
    }

    /// Where the round stands.
    pub fn phase(&self) -> (phase: Phase)
        ensures
            phase == self@.phase,
    {
        self.phase
    }

    /// Tells whether the score leaves room for another frame.
    pub fn has_score_room(&self) -> (room: bool)
        ensures
            room == self@.has_score_room(),
    {
        self.score <= i32::MAX - 2 * (ROWS as i32) * SCORE_PER_LINE
    }

    /// The piece comes to rest.
    fn settle(&mut self, outcome: &mut Outcome)
        requires
            old(self).wf(),
            old(self)@.score + ROWS * SCORE_PER_LINE <= i32::MAX,
        ensures
            frame_of(*final(self), *final(outcome)) == frame_of(*old(self), *old(outcome)).settle(),
    {
        lock_piece(&mut self.grid, &mut self.color_grid, &self.piece);
        let lines: i32 = clear_lines(&mut self.grid, &mut self.color_grid);
        self.score = self.score + lines * SCORE_PER_LINE;
        self.piece = new_piece(&mut self.rng);
        outcome.restart_timer = true;
        if collide(&self.grid, &self.piece, 0, 0) {
            outcome.sounds.push(Sound::GameOver);
            self.phase = Phase::GameOverAnimating(GAME_OVER_FRAMES - 1);
        } else {
            self.phase = Phase::Playing;
        }
    }

    /// Serves the descent timer.
    fn apply_gravity(&mut self, outcome: &mut Outcome)
        requires
            old(self).wf(),
            old(self)@.score + ROWS * SCORE_PER_LINE <= i32::MAX,
        ensures
            frame_of(*final(self), *final(outcome)) == frame_of(*old(self), *old(outcome)).gravity(),
    {
        proof {
            lemma_anchor_bounds(self@);
        }
        if collide(&self.grid, &self.piece, 0, 1) {
            outcome.sounds.push(Sound::Lock);
            self.settle(outcome);
        } else {
            self.piece.y = self.piece.y + 1;
            outcome.restart_timer = true;
        }
    }

    /// Serves a sideways key.
    fn apply_sideways(&mut self, dx: i32, outcome: &mut Outcome)
        requires
            old(self).wf(),
            -1 <= dx <= 1,
        ensures
            frame_of(*final(self), *final(outcome)) == frame_of(*old(self), *old(outcome)).sideways(
                dx as int,
            ),
    {
        proof {
            lemma_anchor_bounds(self@);
        }
        if !collide(&self.grid, &self.piece, dx, 0) {
            self.piece.x = self.piece.x + dx;
            outcome.sounds.push(Sound::Move);
        }
    }

    /// Serves the down key.
    fn apply_down(&mut self, outcome: &mut Outcome)
        requires
            old(self).wf(),
            old(self)@.score + ROWS * SCORE_PER_LINE <= i32::MAX,
        ensures
            frame_of(*final(self), *final(outcome)) == frame_of(*old(self), *old(outcome)).down(),
    {
        proof {
            lemma_anchor_bounds(self@);
        }
        if collide(&self.grid, &self.piece, 0, 1) {
            outcome.sounds.push(Sound::LineClear);
            self.settle(outcome);
        } else {
            self.piece.y = self.piece.y + 1;
            outcome.sounds.push(Sound::Move);
        }
    }

    /// Serves the turn key.
    fn apply_turn(&mut self, outcome: &mut Outcome)
        requires
            old(self).wf(),
        ensures
            frame_of(*final(self), *final(outcome)) == frame_of(*old(self), *old(outcome)).turn(),
    {
        proof {
            lemma_oriented_template_is_playable(self@.piece.cells);
        }
        let mut candidate: Piece = self.piece.clone();
        rotate(&mut candidate);
        if !collide(&self.grid, &candidate, 0, 0) {
            self.piece = candidate;
            outcome.sounds.push(Sound::Move);
        }
    }

    /// Serves the keys of one frame.
    fn apply_keys(&mut self, input: Input, outcome: &mut Outcome)
        requires
            old(self).wf(),
            old(self)@.phase is Playing,
            old(self)@.score + ROWS * SCORE_PER_LINE <= i32::MAX,
        ensures
            frame_of(*final(self), *final(outcome)) == frame_of(*old(self), *old(outcome)).keys(
                input,
            ),
    {
        if input.left {
            proof {
                if !collides(self@.cells, self@.piece, -1, 0) {
                    lemma_moved_wf(self@, -1, 0);
                }
            }
            self.apply_sideways(-1, outcome);
        }
        if input.right {
            proof {
                if !collides(self@.cells, self@.piece, 1, 0) {
                    lemma_moved_wf(self@, 1, 0);
                }
            }
            self.apply_sideways(1, outcome);
        }
        if input.down {
            proof {
                lemma_settled_wf(self@);
                if !collides(self@.cells, self@.piece, 0, 1) {
                    lemma_moved_wf(self@, 0, 1);
                }
            }
            self.apply_down(outcome);
        }
        if input.rotate {
            match self.phase {
                Phase::Playing => {
                    self.apply_turn(outcome);
                },
                _ => {},
            }
        }
    }

    /// Advances the game by one frame and says what the caller is to do.
    pub fn step(&mut self, input: Input) -> (outcome: Outcome)
        requires
            old(self).wf(),
            old(self)@.has_score_room(),
        ensures
            frame_of(*final(self), outcome) == frame_after(old(self)@, input),
            final(self).wf(),
    {
        proof {
            lemma_frame_keeps_wf(self@, input);
        }
        let mut outcome: Outcome = Outcome { sounds: Vec::new(), restart_timer: false };
        match self.phase {
            Phase::Playing => {
                if input.gravity_due {
                    proof {
                        lemma_settled_wf(self@);
                        if !collides(self@.cells, self@.piece, 0, 1) {
                            lemma_moved_wf(self@, 0, 1);
                        }
                    }
                    self.apply_gravity(&mut outcome);
                }
                match self.phase {
                    Phase::Playing => {
                        self.apply_keys(input, &mut outcome);
                    },
                    _ => {},
                }
            },
            Phase::GameOverAnimating(frames) => {
                outcome.sounds.push(Sound::GameOver);
                self.phase = if frames <= 1 {
                    Phase::Resetting
                } else {
                    Phase::GameOverAnimating(frames - 1)
                };
            },
            Phase::Resetting => {
                self.grid = empty_grid();
                self.color_grid = empty_color_grid();
                self.score = 0;
                self.piece = new_piece(&mut self.rng);
                self.phase = Phase::Playing;
                outcome.restart_timer = true;
                proof {
                    lemma_fresh_wf(old(self)@.rng_state);
                }
                self.apply_keys(input, &mut outcome);
            },
        }
        outcome
    }
}

} // verus!
