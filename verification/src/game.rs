//! The interaction state machine: one aggregate that owns the live colony,
//! the saved checkpoint, the simulation speed, the zoom animation, the pan
//! centre and the accumulated tick time, and that consumes input commands
//! and elapsed-time ticks.
//!
//! Time is counted in jiffies of 1/60 second.  At `Slow` the simulation
//! steps every `PERIOD_SLOW` jiffies (3 generations per second), at `Fast`
//! every `PERIOD_FAST` jiffies (15 per second).  The zoom level moves one
//! unit per jiffy towards its target and is clamped to
//! `[ZOOM_MIN, ZOOM_MAX]`.
//!
//! Two guards keep a tick total: the elapsed time of one tick is clamped to
//! `ELAPSED_CAP`, and unstepped time accumulates only up to `TIME_CAP`, so
//! one tick can run only a bounded number of generations.  Stepping also
//! stops while some live cell sits outside the safe coordinate box, which
//! keeps every generation free of `i32` overflow; cells can get there only
//! after an astronomical number of generations.

use vstd::prelude::*;

use crate::colony::Cell;
use crate::colony::Colony;
use crate::colony::generation;
use crate::colony::grid_ok;
use crate::colony::next_generation;
use crate::colony::pos;
use crate::colony::set_boxed;
use crate::colony::toggle;

verus! {

/// Jiffies between generations at `Slow` (3 per second).
pub const PERIOD_SLOW: u32 = 20;

/// Jiffies between generations at `Fast` (15 per second).
pub const PERIOD_FAST: u32 = 4;

/// Fully zoomed in.
pub const ZOOM_MIN: u32 = 1;

/// Fully zoomed out.
pub const ZOOM_MAX: u32 = 10;

/// Elapsed jiffies accepted from one tick; a stalled host is credited at
/// most this much simulated time per call.
pub const ELAPSED_CAP: u32 = 600;

/// Bound on accumulated unstepped time.
pub const TIME_CAP: u32 = 1200;

/// Side length of one background tile, in pixels.
pub const TILE: u32 = 16;

/// Bound on the viewport dimensions handed to the engine, in pixels.
pub const DIM_CAP: u32 = 0x0100_0000;

/// The simulation speed selected by the user.
#[derive(Clone, Copy, PartialEq, Eq, Structural, Debug)]
pub enum Speed {
    Pause,
    Slow,
    Fast,
}

/// One input command, as decoded by the host from a key or pointer event.
/// A pointer press carries its pixel position.
#[derive(Clone, Copy, PartialEq, Eq, Structural, Debug)]
pub enum Command {
    FullscreenToggle,
    Clear,
    Rewind,
    SetSpeed(Speed),
    ToggleZoom,
    PointerPress(u32, u32),
}

/// What the engine asks of its host in return: fullscreen is the host's to
/// manage, so the engine only requests the toggle.
#[derive(Clone, Copy, PartialEq, Eq, Structural, Debug)]
pub enum HostRequest {
    NoOp,
    ToggleFullscreen,
}

/// The mathematical state of a session.
#[verifier::ext_equal]
pub ghost struct GameModel {
    pub col: Set<(int, int)>,
    pub speed: Speed,
    pub time: int,
    pub centre: (int, int),
    pub saved_col: Set<(int, int)>,
    pub saved_centre: (int, int),
    pub zoomed_out: bool,
    pub zoom_level: int,
}

/// The state the session starts in.
pub open spec fn init_m() -> GameModel {
    GameModel {
        col: Set::empty(),
        speed: Speed::Pause,
        time: 0,
        centre: (0, 0),
        saved_col: Set::empty(),
        saved_centre: (0, 0),
        zoomed_out: false,
        zoom_level: ZOOM_MIN as int,
    }
}

/// The simulation runs unless paused.
pub open spec fn running_speed(s: Speed) -> bool {
    s != Speed::Pause
}

/// Jiffies between generations at each speed; paused never steps.
pub open spec fn period(s: Speed) -> int {
    match s {
        Speed::Pause => 0,
        Speed::Slow => PERIOD_SLOW as int,
        Speed::Fast => PERIOD_FAST as int,
    }
}

/// `v`, clamped from above to `cap`.
pub open spec fn clampi(v: int, cap: int) -> int {
    if v > cap {
        cap
    } else {
        v
    }
}

/// Run whole generation steps while a full period of time is accumulated
/// and the colony is inside the safe box; returns the colony and the
/// remaining time.
pub open spec fn run_sim(col: Set<(int, int)>, time: int, p: int) -> (Set<(int, int)>, int)
    decreases time,
{
    if p >= 1 && time >= p && set_boxed(col) {
        run_sim(next_generation(col), time - p, p)
    } else {
        (col, time)
    }
}

/// One jiffy moves the zoom level one unit towards its target; the level
/// never leaves `[ZOOM_MIN, ZOOM_MAX]` from inside.
pub open spec fn zoom_step(z: int, zoomed_out: bool, e: int) -> int {
    if zoomed_out {
        if z + e > ZOOM_MAX as int {
            ZOOM_MAX as int
        } else {
            z + e
        }
    } else {
        if z - e < ZOOM_MIN as int {
            ZOOM_MIN as int
        } else {
            z - e
        }
    }
}

/// One tick of `e` jiffies: when running, accumulate (clamped) time and
/// step the simulation once per full period; always animate the zoom.
pub open spec fn advance_m(m: GameModel, e: int) -> GameModel {
    let e1 = clampi(e, ELAPSED_CAP as int);
    let st = if running_speed(m.speed) {
        run_sim(m.col, clampi(m.time + e1, TIME_CAP as int), period(m.speed))
    } else {
        (m.col, m.time)
    };
    GameModel {
        col: st.0,
        time: st.1,
        zoom_level: zoom_step(m.zoom_level, m.zoomed_out, e1),
        ..m
    }
}

/// Clear: empty colony, centre at the origin, paused.  The checkpoint is
/// untouched.
pub open spec fn clear_m(m: GameModel) -> GameModel {
    GameModel { col: Set::empty(), centre: (0, 0), speed: Speed::Pause, ..m }
}

/// Rewind: the checkpoint replaces the live colony and centre; paused.  The
/// checkpoint itself is untouched, so rewind can be repeated.
pub open spec fn rewind_m(m: GameModel) -> GameModel {
    GameModel { col: m.saved_col, centre: m.saved_centre, speed: Speed::Pause, ..m }
}

/// Select a speed; nothing else changes.
pub open spec fn set_speed_m(m: GameModel, s: Speed) -> GameModel {
    GameModel { speed: s, ..m }
}

/// Flip the zoom target; the level catches up over later ticks.
pub open spec fn toggle_zoom_m(m: GameModel) -> GameModel {
    GameModel { zoomed_out: !m.zoomed_out, ..m }
}

/// Flip one position's membership.
pub open spec fn toggled_set(col: Set<(int, int)>, p: (int, int)) -> Set<(int, int)> {
    if col.contains(p) {
        col.remove(p)
    } else {
        col.insert(p)
    }
}

/// The cell under a pixel position: one cell per tile.
pub open spec fn cursor_cell(px: int, py: int) -> (int, int) {
    (px / (TILE as int), py / (TILE as int))
}

/// The viewport size in cells at a zoom level, rounded up.
pub open spec fn scaled_dim(d: int, z: int) -> int {
    (d * z + (TILE - 1)) / (TILE as int)
}

/// The top row of tiles holds the seven buttons, in slots 0 to 6.
pub open spec fn button_cell(c: (int, int)) -> bool {
    c.1 == 0 && 0 <= c.0 <= 6
}

/// A pointer press.  Button slots run the bound command; otherwise, while
/// running or zoomed out, the press pans; otherwise it toggles the clicked
/// cell (centred on the viewport) and overwrites the checkpoint with the
/// result.
pub open spec fn press_m(m: GameModel, px: int, py: int, w: int, h: int) -> GameModel {
    let c = cursor_cell(px, py);
    if c.0 == 0 && c.1 == 0 {
        m
    } else if c.0 == 1 && c.1 == 0 {
        clear_m(m)
    } else if c.0 == 2 && c.1 == 0 {
        rewind_m(m)
    } else if c.0 == 3 && c.1 == 0 {
        set_speed_m(m, Speed::Pause)
    } else if c.0 == 4 && c.1 == 0 {
        set_speed_m(m, Speed::Slow)
    } else if c.0 == 5 && c.1 == 0 {
        set_speed_m(m, Speed::Fast)
    } else if c.0 == 6 && c.1 == 0 {
        toggle_zoom_m(m)
    } else if running_speed(m.speed) || m.zoom_level > ZOOM_MIN as int {
        GameModel { centre: c, ..m }
    } else {
        let t = (
            c.0 - scaled_dim(w, m.zoom_level) / 2,
            c.1 - scaled_dim(h, m.zoom_level) / 2,
        );
        let col2 = toggled_set(m.col, t);
        GameModel { col: col2, saved_col: col2, saved_centre: m.centre, ..m }
    }
}

/// Dispatch one command against the state.  `w` and `h` are the viewport
/// dimensions, read only by the toggle branch of a pointer press.
pub open spec fn handle_m(m: GameModel, cmd: Command, w: int, h: int) -> GameModel {
    match cmd {
        Command::FullscreenToggle => m,
        Command::Clear => clear_m(m),
        Command::Rewind => rewind_m(m),
        Command::SetSpeed(s) => set_speed_m(m, s),
        Command::ToggleZoom => toggle_zoom_m(m),
        Command::PointerPress(px, py) => press_m(m, px as int, py as int, w, h),
    }
}

/// What a command asks of the host: only the fullscreen toggle, by key or
/// by its button slot.
pub open spec fn request_m(cmd: Command) -> HostRequest {
    match cmd {
        Command::FullscreenToggle => HostRequest::ToggleFullscreen,
        Command::PointerPress(px, py) => {
            let c = cursor_cell(px as int, py as int);
            if c.0 == 0 && c.1 == 0 {
                HostRequest::ToggleFullscreen
            } else {
                HostRequest::NoOp
            }
        },
        _ => HostRequest::NoOp,
    }
}

/// The invariants of a model: the zoom level inside its interval and the
/// accumulated time under its cap.
pub open spec fn model_wf(m: GameModel) -> bool {
    &&& ZOOM_MIN as int <= m.zoom_level <= ZOOM_MAX as int
    &&& 0 <= m.time <= TIME_CAP as int
}

/// The interaction state machine: the single owner of all session state.
pub struct LifeGame {
    col: Colony,
    speed: Speed,
    time: u32,
    centre: Cell,
    saved_col: Colony,
    saved_centre: Cell,
    zoomed_out: bool,
    zoom_level: u32,
}

impl View for LifeGame {
    type V = GameModel;

    closed spec fn view(&self) -> GameModel {
        GameModel {
            col: self.col@,
            speed: self.speed,
            time: self.time as int,
            centre: pos(self.centre),
            saved_col: self.saved_col@,
            saved_centre: pos(self.saved_centre),
            zoomed_out: self.zoomed_out,
            zoom_level: self.zoom_level as int,
        }
    }
}

impl LifeGame {
    /// Well-formed: both colonies duplicate-free, the model invariants.
    pub closed spec fn wf(self) -> bool {
        &&& self.col.wf()
        &&& self.saved_col.wf()
        &&& ZOOM_MIN <= self.zoom_level <= ZOOM_MAX
        &&& self.time <= TIME_CAP
    }

    /// A well-formed machine has a well-formed model.
    pub proof fn lemma_wf_model(self)
        requires
            self.wf(),
        ensures
            model_wf(self@),
    {
    }

    /// A fresh session: empty colony and checkpoint, paused, zoomed in,
    /// centred at the origin.
    pub fn new() -> (g: LifeGame)
        ensures
            g.wf(),
            g@ == init_m(),
    {
        let g = LifeGame {
            col: Colony::new(),
            speed: Speed::Pause,
            time: 0,
            centre: (0, 0),
            saved_col: Colony::new(),
            saved_centre: (0, 0),
            zoomed_out: false,
            zoom_level: ZOOM_MIN,
        };
        proof {
            assert(g@ =~= init_m());
        }
        g
    }

    /// Whether the simulation is stepping on its own.
    pub fn running(&self) -> (r: bool)
        ensures
            r == running_speed(self@.speed),
    {
        match self.speed {
            Speed::Pause => false,
            _ => true,
        }
    }

    /// The step period of the current speed, in jiffies.
    fn step(&self) -> (p: u32)
        ensures
            p as int == period(self@.speed),
    {
        match self.speed {
            Speed::Pause => 0,
            Speed::Slow => PERIOD_SLOW,
            Speed::Fast => PERIOD_FAST,
        }
    }

    /// Empty the colony, recentre, pause.
    pub fn clear(&mut self)
        requires
            old(self).wf(),
        ensures
            final (self).wf(),
            final (self)@ == clear_m(old(self)@),
    {
        self.col.clear();
        self.centre = (0, 0);
        self.speed = Speed::Pause;
        proof {
            assert(self@ =~= clear_m(old(self)@));
        }
    }

    /// Overwrite the checkpoint with the live colony and centre.
    pub fn save(&mut self)
        requires
            old(self).wf(),
        ensures
            final (self).wf(),
            final (self)@ == (GameModel {
                saved_col: old(self)@.col,
                saved_centre: old(self)@.centre,
                ..old(self)@
            }),
    {
        self.saved_col = self.col.clone();
        self.saved_centre = self.centre;
        proof {
            assert(self@ =~= (GameModel {
                saved_col: old(self)@.col,
                saved_centre: old(self)@.centre,
                ..old(self)@
            }));
        }
    }

    /// Restore the checkpoint into the live colony and centre; pause.
    pub fn rewind(&mut self)
        requires
            old(self).wf(),
        ensures
            final (self).wf(),
            final (self)@ == rewind_m(old(self)@),
    {
        self.col = self.saved_col.clone();
        self.centre = self.saved_centre;
        self.speed = Speed::Pause;
        proof {
            assert(self@ =~= rewind_m(old(self)@));
        }
    }

    /// Flip the zoom target.
    pub fn zoom(&mut self)
        requires
            old(self).wf(),
        ensures
            final (self).wf(),
            final (self)@ == toggle_zoom_m(old(self)@),
    {
        self.zoomed_out = !self.zoomed_out;
        proof {
            assert(self@ =~= toggle_zoom_m(old(self)@));
        }
    }

    /// The cell under a pixel position.
    pub fn cursor_to_cell(&self, px: u32, py: u32) -> (c: Cell)
        ensures
            pos(c) == cursor_cell(px as int, py as int),
    {
        ((px / TILE) as i32, (py / TILE) as i32)
    }

    /// The viewport size in cells at the current zoom level, rounded up.
    pub fn scaled_dims(&self, width: u32, height: u32) -> (d: Cell)
        requires
            self.wf(),
            width <= DIM_CAP,
            height <= DIM_CAP,
        ensures
            pos(d) == (
                scaled_dim(width as int, self@.zoom_level),
                scaled_dim(height as int, self@.zoom_level),
            ),
    {
        let z = self.zoom_level;
        proof {
            assert((width as int) * (z as int) <= (DIM_CAP as int) * (ZOOM_MAX as int))
                by (nonlinear_arith)
                requires
                    width as int <= DIM_CAP as int,
                    z as int <= ZOOM_MAX as int,
                    0 <= width as int,
                    0 <= z as int,
            ;
            assert((height as int) * (z as int) <= (DIM_CAP as int) * (ZOOM_MAX as int))
                by (nonlinear_arith)
                requires
                    height as int <= DIM_CAP as int,
                    z as int <= ZOOM_MAX as int,
                    0 <= height as int,
                    0 <= z as int,
            ;
        }
        let w = (width * z + (TILE - 1)) / TILE;
        let h = (height * z + (TILE - 1)) / TILE;
        (w as i32, h as i32)
    }

    /// One tick: accumulate elapsed time while running, step the simulation
    /// once per full period, and animate the zoom level.
    pub fn advance(&mut self, elapsed: u32)
        requires
            old(self).wf(),
        ensures
            final (self).wf(),
            final (self)@ == advance_m(old(self)@, elapsed as int),
    {
        let e = if elapsed > ELAPSED_CAP {
            ELAPSED_CAP
        } else {
            elapsed
        };
        if self.running() {
            let sum = self.time + e;
            self.time = if sum > TIME_CAP {
                TIME_CAP
            } else {
                sum
            };
            let p = self.step();
            let ghost col0 = self.col@;
            let ghost time0 = self.time as int;
            let mut done = false;
            while !done
                invariant
                    p as int == period(self@.speed),
                    p >= 1,
                    self.col.wf(),
                    self.saved_col == old(self).saved_col,
                    self.saved_col.wf(),
                    self.speed == old(self).speed,
                    self.centre == old(self).centre,
                    self.saved_centre == old(self).saved_centre,
                    self.zoomed_out == old(self).zoomed_out,
                    self.zoom_level == old(self).zoom_level,
                    ZOOM_MIN <= self.zoom_level <= ZOOM_MAX,
                    self.time <= TIME_CAP,
                    run_sim(self.col@, self.time as int, p as int) == run_sim(
                        col0,
                        time0,
                        p as int,
                    ),
                    done ==> run_sim(self.col@, self.time as int, p as int) == (
                        self.col@,
                        self.time as int,
                    ),
                decreases self.time + (if done { 0int } else { 1int }),
            {
                if self.time >= p {
                    if self.col.step_safe() {
                        self.time = self.time - p;
                        let ghost pre = self.col@;
                        let ghost pre_time = self.time as int + p;
                        self.col = generation(&self.col);
                        proof {
                            assert(run_sim(pre, pre_time, p as int) == run_sim(
                                self.col@,
                                self.time as int,
                                p as int,
                            ));
                        }
                    } else {
                        done = true;
                    }
                } else {
                    done = true;
                }
            }
        }
        let z = self.zoom_level;
        self.zoom_level = if self.zoomed_out {
            if z + e > ZOOM_MAX {
                ZOOM_MAX
            } else {
                z + e
            }
        } else {
            if z < ZOOM_MIN + e {
                ZOOM_MIN
            } else {
                z - e
            }
        };
        proof {
            assert(self@ =~= advance_m(old(self)@, elapsed as int));
        }
    }

    /// Dispatch one command.  Button slots of a pointer press take priority
    /// over any cell action; a press outside them pans while running or
    /// zoomed, and otherwise toggles the clicked cell and saves the result
    /// as the checkpoint.
    pub fn handle_command(&mut self, cmd: Command, width: u32, height: u32) -> (r: HostRequest)
        requires
            old(self).wf(),
            width <= DIM_CAP,
            height <= DIM_CAP,
        ensures
            final (self).wf(),
            final (self)@ == handle_m(old(self)@, cmd, width as int, height as int),
            r == request_m(cmd),
    {
        match cmd {
            Command::FullscreenToggle => HostRequest::ToggleFullscreen,
            Command::Clear => {
                self.clear();
                HostRequest::NoOp
            },
            Command::Rewind => {
                self.rewind();
                HostRequest::NoOp
            },
            Command::SetSpeed(s) => {
                self.speed = s;
                proof {
                    assert(self@ =~= set_speed_m(old(self)@, s));
                }
                HostRequest::NoOp
            },
            Command::ToggleZoom => {
                self.zoom();
                HostRequest::NoOp
            },
            Command::PointerPress(px, py) => {
                let cell = self.cursor_to_cell(px, py);
                if cell.0 == 0 && cell.1 == 0 {
                    HostRequest::ToggleFullscreen
                } else if cell.0 == 1 && cell.1 == 0 {
                    self.clear();
                    HostRequest::NoOp
                } else if cell.0 == 2 && cell.1 == 0 {
                    self.rewind();
                    HostRequest::NoOp
                } else if cell.0 == 3 && cell.1 == 0 {
                    self.speed = Speed::Pause;
                    proof {
                        assert(self@ =~= set_speed_m(old(self)@, Speed::Pause));
                    }
                    HostRequest::NoOp
                } else if cell.0 == 4 && cell.1 == 0 {
                    self.speed = Speed::Slow;
                    proof {
                        assert(self@ =~= set_speed_m(old(self)@, Speed::Slow));
                    }
                    HostRequest::NoOp
                } else if cell.0 == 5 && cell.1 == 0 {
                    self.speed = Speed::Fast;
                    proof {
                        assert(self@ =~= set_speed_m(old(self)@, Speed::Fast));
                    }
                    HostRequest::NoOp
                } else if cell.0 == 6 && cell.1 == 0 {
                    self.zoom();
                    HostRequest::NoOp
                } else if self.running() || self.zoom_level > ZOOM_MIN {
                    self.centre = cell;
                    proof {
                        assert(self@ =~= (GameModel {
                            centre: cursor_cell(px as int, py as int),
                            ..old(self)@
                        }));
                    }
                    HostRequest::NoOp
                } else {
                    let (w, h) = self.scaled_dims(width, height);
                    let t = (cell.0 - w / 2, cell.1 - h / 2);
                    proof {
                        assert(grid_ok(pos(t)));
                    }
                    toggle(&mut self.col, t);
                    self.save();
                    proof {
                        assert(self@ =~= press_m(
                            old(self)@,
                            px as int,
                            py as int,
                            width as int,
                            height as int,
                        ));
                    }
                    HostRequest::NoOp
                }
            },
        }
    }

    /// The live colony, for drawing.
    pub fn colony(&self) -> (r: &Colony)
        ensures
            r@ == self@.col,
            self.wf() ==> r.wf(),
    {
        &self.col
    }

    /// The current zoom level.
    pub fn zoom_level(&self) -> (z: u32)
        ensures
            z as int == self@.zoom_level,
    {
        self.zoom_level
    }

    /// Whether the view is zooming out.
    pub fn zoomed_out(&self) -> (z: bool)
        ensures
            z == self@.zoomed_out,
    {
        self.zoomed_out
    }

    /// The current speed, for button highlighting.
    pub fn speed(&self) -> (s: Speed)
        ensures
            s == self@.speed,
    {
        self.speed
    }

    /// The pan centre.
    pub fn centre(&self) -> (c: Cell)
        ensures
            pos(c) == self@.centre,
    {
        self.centre
    }

    /// The unstepped time accumulated so far, in jiffies.
    pub fn accumulated_time(&self) -> (t: u32)
        ensures
            t as int == self@.time,
    {
        self.time
    }
}

/// Fold a run of ticks over the state.
pub open spec fn advance_seq(m: GameModel, es: Seq<u32>) -> GameModel
    decreases es.len(),
{
    if es.len() == 0 {
        m
    } else {
        advance_seq(advance_m(m, es[0] as int), es.drop_first())
    }
}

/// Fold a run of pointer presses over the state.
pub open spec fn presses_m(m: GameModel, ps: Seq<(int, int)>, w: int, h: int) -> GameModel
    decreases ps.len(),
{
    if ps.len() == 0 {
        m
    } else {
        presses_m(press_m(m, ps[0].0, ps[0].1, w, h), ps.drop_first(), w, h)
    }
}

/// The simulated time credited for a run of ticks, with each tick clamped.
pub open spec fn total_clamped(es: Seq<u32>) -> int
    decreases es.len(),
{
    if es.len() == 0 {
        0
    } else {
        clampi(es[0] as int, ELAPSED_CAP as int) + total_clamped(es.drop_first())
    }
}

/// A run of ticks never touches the checkpoint, the speed, the centre or
/// the zoom target.
pub proof fn lemma_advance_seq_frame(m: GameModel, es: Seq<u32>)
    ensures
        advance_seq(m, es).saved_col == m.saved_col,
        advance_seq(m, es).saved_centre == m.saved_centre,
        advance_seq(m, es).speed == m.speed,
        advance_seq(m, es).centre == m.centre,
        advance_seq(m, es).zoomed_out == m.zoomed_out,
    decreases es.len(),
{
    if es.len() > 0 {
        lemma_advance_seq_frame(advance_m(m, es[0] as int), es.drop_first());
    }
}

/// While paused and fully zoomed in, a press outside the buttons toggles a
/// cell and leaves the checkpoint equal to the live colony; speed and zoom
/// are untouched, so further such presses keep toggling.
pub proof fn lemma_toggle_press_saves(m: GameModel, px: int, py: int, w: int, h: int)
    requires
        !button_cell(cursor_cell(px, py)),
        !running_speed(m.speed),
        m.zoom_level == ZOOM_MIN as int,
    ensures
        press_m(m, px, py, w, h).saved_col == press_m(m, px, py, w, h).col,
        press_m(m, px, py, w, h).speed == m.speed,
        press_m(m, px, py, w, h).zoom_level == m.zoom_level,
        press_m(m, px, py, w, h).zoomed_out == m.zoomed_out,
{
}

/// After one or more toggle presses while paused and fully zoomed in, the
/// checkpoint holds exactly the live colony, and the machine is still
/// paused and zoomed in.
pub proof fn lemma_toggles_keep_checkpoint(m: GameModel, ps: Seq<(int, int)>, w: int, h: int)
    requires
        ps.len() >= 1,
        forall|i: int| 0 <= i < ps.len() ==> !button_cell(cursor_cell((#[trigger] ps[i]).0, ps[i].1)),
        !running_speed(m.speed),
        m.zoom_level == ZOOM_MIN as int,
    ensures
        presses_m(m, ps, w, h).saved_col == presses_m(m, ps, w, h).col,
        !running_speed(presses_m(m, ps, w, h).speed),
        presses_m(m, ps, w, h).zoom_level == m.zoom_level,
    decreases ps.len(),
{
    let m1 = press_m(m, ps[0].0, ps[0].1, w, h);
    lemma_toggle_press_saves(m, ps[0].0, ps[0].1, w, h);
    if ps.len() == 1 {
        reveal_with_fuel(presses_m, 2);
        assert(ps.drop_first().len() == 0);
        assert(presses_m(m, ps, w, h) == m1);
    } else {
        assert forall|i: int| 0 <= i < ps.drop_first().len() implies !button_cell(
            cursor_cell((#[trigger] ps.drop_first()[i]).0, ps.drop_first()[i].1),
        ) by {
            assert(ps.drop_first()[i] == ps[i + 1]);
        }
        lemma_toggles_keep_checkpoint(m1, ps.drop_first(), w, h);
    }
}

/// Toggle/save coupling: after any number of toggle presses while paused,
/// then any speed selection and any run of ticks, one rewind restores
/// exactly the toggled colony and pauses the machine.
pub proof fn lemma_checkpoint_coupling(
    m: GameModel,
    ps: Seq<(int, int)>,
    w: int,
    h: int,
    s: Speed,
    es: Seq<u32>,
)
    requires
        ps.len() >= 1,
        forall|i: int| 0 <= i < ps.len() ==> !button_cell(cursor_cell((#[trigger] ps[i]).0, ps[i].1)),
        !running_speed(m.speed),
        m.zoom_level == ZOOM_MIN as int,
    ensures
        ({
            let mn = presses_m(m, ps, w, h);
            let m2 = advance_seq(set_speed_m(mn, s), es);
            &&& rewind_m(m2).col == mn.col
            &&& rewind_m(m2).speed == Speed::Pause
        }),
{
    lemma_toggles_keep_checkpoint(m, ps, w, h);
    lemma_advance_seq_frame(set_speed_m(presses_m(m, ps, w, h), s), es);
}

/// A run of ticks applied one more tick at the end.
proof fn lemma_advance_seq_snoc(m: GameModel, es: Seq<u32>, e: u32)
    ensures
        advance_seq(m, es.push(e)) == advance_m(advance_seq(m, es), e as int),
    decreases es.len(),
{
    if es.len() == 0 {
        reveal_with_fuel(advance_seq, 2);
        assert(es.push(e)[0] == e);
        assert(es.push(e).drop_first() =~= Seq::<u32>::empty());
    } else {
        assert(es.push(e)[0] == es[0]);
        assert(es.push(e).drop_first() =~= es.drop_first().push(e));
        lemma_advance_seq_snoc(advance_m(m, es[0] as int), es.drop_first(), e);
    }
}

/// Zoomed out, a run of ticks only raises the zoom level, never past the
/// maximum; once enough time has elapsed it sits at the maximum.
pub proof fn lemma_zoom_rises(m: GameModel, es: Seq<u32>)
    requires
        m.zoomed_out,
        ZOOM_MIN as int <= m.zoom_level <= ZOOM_MAX as int,
    ensures
        advance_seq(m, es).zoomed_out,
        m.zoom_level <= advance_seq(m, es).zoom_level <= ZOOM_MAX as int,
        total_clamped(es) >= ZOOM_MAX as int - m.zoom_level ==> advance_seq(m, es).zoom_level
            == ZOOM_MAX as int,
    decreases es.len(),
{
    if es.len() > 0 {
        let m1 = advance_m(m, es[0] as int);
        lemma_zoom_rises(m1, es.drop_first());
    }
}

/// Zoomed in, a run of ticks only lowers the zoom level, never under the
/// minimum; once enough time has elapsed it sits at the minimum.
pub proof fn lemma_zoom_falls(m: GameModel, es: Seq<u32>)
    requires
        !m.zoomed_out,
        ZOOM_MIN as int <= m.zoom_level <= ZOOM_MAX as int,
    ensures
        !advance_seq(m, es).zoomed_out,
        ZOOM_MIN as int <= advance_seq(m, es).zoom_level <= m.zoom_level,
        total_clamped(es) >= m.zoom_level - ZOOM_MIN as int ==> advance_seq(m, es).zoom_level
            == ZOOM_MIN as int,
    decreases es.len(),
{
    if es.len() > 0 {
        let m1 = advance_m(m, es[0] as int);
        lemma_zoom_falls(m1, es.drop_first());
    }
}

/// Zoom convergence while the target is held zoomed out: along any run of
/// ticks the zoom level climbs monotonically, never passes the maximum,
/// and reaches it once enough time has elapsed.
#[verifier::rlimit(50)]
pub proof fn lemma_zoom_monotone_out(m: GameModel, es: Seq<u32>)
    requires
        m.zoomed_out,
        ZOOM_MIN as int <= m.zoom_level <= ZOOM_MAX as int,
    ensures
        forall|k: int|
            0 <= k <= es.len() ==> m.zoom_level <= (#[trigger] advance_seq(
                m,
                es.take(k),
            )).zoom_level <= ZOOM_MAX as int,
        forall|k: int|
            0 <= k < es.len() ==> advance_seq(m, es.take(k)).zoom_level <= (#[trigger] advance_seq(
                m,
                es.take(k + 1),
            )).zoom_level,
        total_clamped(es) >= ZOOM_MAX as int - m.zoom_level ==> advance_seq(m, es).zoom_level
            == ZOOM_MAX as int,
{
    assert forall|k: int|
        0 <= k <= es.len() implies m.zoom_level <= (#[trigger] advance_seq(
        m,
        es.take(k),
    )).zoom_level <= ZOOM_MAX as int by {
        lemma_zoom_rises(m, es.take(k));
    }
    assert forall|k: int|
        0 <= k < es.len() implies advance_seq(m, es.take(k)).zoom_level <= (#[trigger] advance_seq(
        m,
        es.take(k + 1),
    )).zoom_level by {
        lemma_zoom_rises(m, es.take(k));
        assert(es.take(k + 1) =~= es.take(k).push(es[k]));
        lemma_advance_seq_snoc(m, es.take(k), es[k]);
    }
    lemma_zoom_rises(m, es);
}

/// Zoom convergence while the target is held zoomed in, symmetrically down
/// to the minimum.
#[verifier::rlimit(50)]
pub proof fn lemma_zoom_monotone_in(m: GameModel, es: Seq<u32>)
    requires
        !m.zoomed_out,
        ZOOM_MIN as int <= m.zoom_level <= ZOOM_MAX as int,
    ensures
        forall|k: int|
            0 <= k <= es.len() ==> ZOOM_MIN as int <= (#[trigger] advance_seq(
                m,
                es.take(k),
            )).zoom_level <= m.zoom_level,
        forall|k: int|
            0 <= k < es.len() ==> advance_seq(m, es.take(k + 1)).zoom_level <= (#[trigger] advance_seq(
                m,
                es.take(k),
            )).zoom_level,
        total_clamped(es) >= m.zoom_level - ZOOM_MIN as int ==> advance_seq(m, es).zoom_level
            == ZOOM_MIN as int,
{
    assert forall|k: int|
        0 <= k <= es.len() implies ZOOM_MIN as int <= (#[trigger] advance_seq(
        m,
        es.take(k),
    )).zoom_level <= m.zoom_level by {
        lemma_zoom_falls(m, es.take(k));
    }
    assert forall|k: int|
        0 <= k < es.len() implies advance_seq(m, es.take(k + 1)).zoom_level <= (#[trigger] advance_seq(
        m,
        es.take(k),
    )).zoom_level by {
        lemma_zoom_falls(m, es.take(k));
        assert(es.take(k + 1) =~= es.take(k).push(es[k]));
        lemma_advance_seq_snoc(m, es.take(k), es[k]);
    }
    lemma_zoom_falls(m, es);
}

/// The command bound to each button slot of the top row.
pub open spec fn button_command(i: int) -> Command {
    if i == 0 {
        Command::FullscreenToggle
    } else if i == 1 {
        Command::Clear
    } else if i == 2 {
        Command::Rewind
    } else if i == 3 {
        Command::SetSpeed(Speed::Pause)
    } else if i == 4 {
        Command::SetSpeed(Speed::Slow)
    } else if i == 5 {
        Command::SetSpeed(Speed::Fast)
    } else {
        Command::ToggleZoom
    }
}

/// Button priority: a press whose cell lands in a button slot runs that
/// slot's command and nothing else -- in particular it never toggles a cell
/// and never touches the checkpoint, even while paused and fully zoomed in.
pub proof fn lemma_button_priority(m: GameModel, px: int, py: int, w: int, h: int)
    requires
        button_cell(cursor_cell(px, py)),
    ensures
        press_m(m, px, py, w, h) == handle_m(m, button_command(cursor_cell(px, py).0), w, h),
        press_m(m, px, py, w, h).saved_col == m.saved_col,
        press_m(m, px, py, w, h).saved_centre == m.saved_centre,
{
}

/// Clearing twice in a row is the same as clearing once.
pub proof fn lemma_clear_idempotent(m: GameModel)
    ensures
        clear_m(clear_m(m)) == clear_m(m),
{
    assert(clear_m(clear_m(m)) =~= clear_m(m));
}

} // verus!
