use life::colony::Colony;
use life::colony::generation;
use life::colony::neighbour_counts;
use life::colony::neighbours;
use life::colony::neighbours_nesw;
use life::colony::toggle;
use life::game::Command;
use life::game::HostRequest;
use life::game::LifeGame;
use life::game::Speed;
use life::sprites::SpriteId;
use life::sprites::button_sprite;
use life::sprites::cell_sprite;

fn colony_of(cells: &[(i32, i32)]) -> Colony {
    let mut col = Colony::new();
    for &c in cells {
        toggle(&mut col, c);
    }
    col
}

fn same_cells(col: &Colony, cells: &[(i32, i32)]) -> bool {
    col.len() == cells.len() && cells.iter().all(|c| col.contains(c))
}

#[test]
fn empty_generation_is_empty() {
    let col = Colony::new();
    let next = generation(&col);
    assert_eq!(next.len(), 0);
}

#[test]
fn block_is_still_life() {
    let block = colony_of(&[(0, 0), (1, 0), (0, 1), (1, 1)]);
    let next = generation(&block);
    assert!(same_cells(&next, &[(0, 0), (1, 0), (0, 1), (1, 1)]));
    let again = generation(&next);
    assert!(same_cells(&again, &[(0, 0), (1, 0), (0, 1), (1, 1)]));
}

#[test]
fn blinker_has_period_two() {
    let blinker = colony_of(&[(-1, 0), (0, 0), (1, 0)]);
    let next = generation(&blinker);
    assert!(same_cells(&next, &[(0, -1), (0, 0), (0, 1)]));
    assert!(!next.contains(&(-1, 0)));
    let back = generation(&next);
    assert!(same_cells(&back, &[(-1, 0), (0, 0), (1, 0)]));
}

#[test]
fn lone_cell_dies() {
    let col = colony_of(&[(3, -2)]);
    let next = generation(&col);
    assert_eq!(next.len(), 0);
}

#[test]
fn neighbours_lists_all_eight() {
    let n = neighbours(&(2, 3));
    assert_eq!(
        n,
        vec![
            (1, 2),
            (2, 2),
            (3, 2),
            (1, 3),
            (3, 3),
            (1, 4),
            (2, 4),
            (3, 4),
        ]
    );
}

#[test]
fn neighbour_counts_of_single_cell() {
    let col = colony_of(&[(5, 5)]);
    let counts = neighbour_counts(&col);
    assert_eq!(counts.len(), 8);
    for &(cell, n) in &counts {
        assert_eq!(n, 1);
        assert_ne!(cell, (5, 5));
        assert!((cell.0 - 5).abs() <= 1 && (cell.1 - 5).abs() <= 1);
    }
}

#[test]
fn neighbour_counts_of_pair() {
    let col = colony_of(&[(0, 0), (1, 0)]);
    let counts = neighbour_counts(&col);
    let count_of = |c: (i32, i32)| -> Option<u32> {
        counts.iter().find(|e| e.0 == c).map(|e| e.1)
    };
    // Between and beside the pair.
    assert_eq!(count_of((0, 1)), Some(2));
    assert_eq!(count_of((1, 1)), Some(2));
    assert_eq!(count_of((-1, 0)), Some(1));
    assert_eq!(count_of((2, 0)), Some(1));
    // Each of the pair sees only the other.
    assert_eq!(count_of((0, 0)), Some(1));
    assert_eq!(count_of((1, 0)), Some(1));
    // Far away: no entry.
    assert_eq!(count_of((4, 4)), None);
}

#[test]
fn generation_cells_obey_the_rule() {
    // An R-pentomino; check every cell of the next generation against the
    // neighbour counts of the old one.
    let col = colony_of(&[(0, 0), (1, 0), (-1, 1), (0, 1), (0, 2)]);
    let counts = neighbour_counts(&col);
    let next = generation(&col);
    for &(cell, n) in &counts {
        let expect = n == 3 || (n == 2 && col.contains(&cell));
        assert_eq!(next.contains(&cell), expect);
    }
    // Cells with no counted neighbours stay dead.
    assert!(!next.contains(&(10, 10)));
}

#[test]
fn toggle_inserts_then_removes() {
    let mut col = Colony::new();
    toggle(&mut col, (4, -7));
    assert!(col.contains(&(4, -7)));
    assert_eq!(col.len(), 1);
    toggle(&mut col, (4, -7));
    assert!(!col.contains(&(4, -7)));
    assert_eq!(col.len(), 0);
}

#[test]
fn colony_clone_matches() {
    let col = colony_of(&[(0, 0), (2, 2)]);
    let copy = col.clone();
    assert_eq!(copy.len(), 2);
    assert!(copy.contains(&(0, 0)));
    assert!(copy.contains(&(2, 2)));
}

#[test]
fn neighbours_nesw_reads_cardinals() {
    let col = colony_of(&[(0, 1), (1, 0)]);
    let (n, e, s, w) = neighbours_nesw(&col, &(0, 0));
    assert!(n);
    assert!(e);
    assert!(!s);
    assert!(!w);
    let (n2, e2, s2, w2) = neighbours_nesw(&col, &(1, 1));
    assert!(!n2);
    assert!(!e2);
    assert!(s2);
    assert!(w2);
}

#[test]
fn cell_sprites_follow_neighbours() {
    let lone = colony_of(&[(0, 0)]);
    assert_eq!(cell_sprite(&lone, &(0, 0)), SpriteId::CellsR0C0);
    let column = colony_of(&[(0, -1), (0, 0), (0, 1)]);
    assert_eq!(cell_sprite(&column, &(0, 0)), SpriteId::CellsR2C0);
    let row = colony_of(&[(-1, 0), (0, 0), (1, 0)]);
    assert_eq!(cell_sprite(&row, &(0, 0)), SpriteId::CellsR0C2);
    let crowd = colony_of(&[(0, 0), (0, 1), (1, 0), (0, -1), (-1, 0)]);
    assert_eq!(cell_sprite(&crowd, &(0, 0)), SpriteId::CellsR2C2);
}

#[test]
fn button_sprites_by_slot_and_state() {
    assert_eq!(button_sprite(0, false), SpriteId::ButtonsR0C0);
    assert_eq!(button_sprite(5, false), SpriteId::ButtonsR0C5);
    assert_eq!(button_sprite(6, false), SpriteId::ButtonsR0C6);
    assert_eq!(button_sprite(9, false), SpriteId::ButtonsR0C6);
    assert_eq!(button_sprite(0, true), SpriteId::ButtonsR1C0);
    assert_eq!(button_sprite(6, true), SpriteId::ButtonsR1C6);
}

#[test]
fn new_game_defaults() {
    let g = LifeGame::new();
    assert_eq!(g.speed(), Speed::Pause);
    assert!(!g.running());
    assert_eq!(g.zoom_level(), 1);
    assert!(!g.zoomed_out());
    assert_eq!(g.centre(), (0, 0));
    assert_eq!(g.accumulated_time(), 0);
    assert_eq!(g.colony().len(), 0);
}

#[test]
fn set_speed_commands() {
    let mut g = LifeGame::new();
    g.handle_command(Command::SetSpeed(Speed::Slow), 128, 128);
    assert_eq!(g.speed(), Speed::Slow);
    assert!(g.running());
    g.handle_command(Command::SetSpeed(Speed::Fast), 128, 128);
    assert_eq!(g.speed(), Speed::Fast);
    g.handle_command(Command::SetSpeed(Speed::Pause), 128, 128);
    assert!(!g.running());
}

fn press(g: &mut LifeGame, px: u32, py: u32) -> HostRequest {
    g.handle_command(Command::PointerPress(px, py), 128, 128)
}

#[test]
fn toggle_press_places_a_cell() {
    let mut g = LifeGame::new();
    // Cell (6, 6), centred on the 8x8-cell viewport: toggles (2, 2).
    press(&mut g, 100, 100);
    assert!(g.colony().contains(&(2, 2)));
    assert_eq!(g.colony().len(), 1);
    // Pressing again removes it.
    press(&mut g, 100, 100);
    assert_eq!(g.colony().len(), 0);
}

#[test]
fn advance_steps_at_slow_rate() {
    let mut g = LifeGame::new();
    // Blinker around (2, 2): toggled cells are the cursor cell minus half
    // the 8x8 viewport.
    press(&mut g, 80, 100);
    press(&mut g, 96, 100);
    press(&mut g, 112, 100);
    assert!(same_cells(g.colony(), &[(1, 2), (2, 2), (3, 2)]));
    g.handle_command(Command::SetSpeed(Speed::Slow), 128, 128);
    g.advance(19);
    // Not yet a full period: nothing stepped.
    assert_eq!(g.accumulated_time(), 19);
    assert!(same_cells(g.colony(), &[(1, 2), (2, 2), (3, 2)]));
    g.advance(1);
    // One step: the blinker flips vertical.
    assert_eq!(g.accumulated_time(), 0);
    assert!(same_cells(g.colony(), &[(2, 1), (2, 2), (2, 3)]));
}

#[test]
fn advance_runs_every_full_period() {
    let mut g = LifeGame::new();
    press(&mut g, 80, 100);
    press(&mut g, 96, 100);
    press(&mut g, 112, 100);
    g.handle_command(Command::SetSpeed(Speed::Fast), 128, 128);
    // Three fast periods in one tick: three generations, blinker vertical.
    g.advance(12);
    assert_eq!(g.accumulated_time(), 0);
    assert!(same_cells(g.colony(), &[(2, 1), (2, 2), (2, 3)]));
}

#[test]
fn advance_while_paused_steps_nothing() {
    let mut g = LifeGame::new();
    press(&mut g, 100, 100);
    g.advance(500);
    assert_eq!(g.accumulated_time(), 0);
    assert!(g.colony().contains(&(2, 2)));
}

#[test]
fn huge_elapsed_time_is_clamped() {
    let mut g = LifeGame::new();
    press(&mut g, 80, 100);
    press(&mut g, 96, 100);
    press(&mut g, 112, 100);
    g.handle_command(Command::SetSpeed(Speed::Slow), 128, 128);
    // Clamped to 600 jiffies: exactly 30 generations, an even number, so
    // the blinker is back in its first phase with no time left over.
    g.advance(1_000_000);
    assert_eq!(g.accumulated_time(), 0);
    assert!(same_cells(g.colony(), &[(1, 2), (2, 2), (3, 2)]));
}

#[test]
fn zoom_animates_towards_target() {
    let mut g = LifeGame::new();
    g.handle_command(Command::ToggleZoom, 128, 128);
    assert!(g.zoomed_out());
    // The level does not snap; it catches up over ticks.
    assert_eq!(g.zoom_level(), 1);
    g.advance(3);
    assert_eq!(g.zoom_level(), 4);
    g.advance(2);
    assert_eq!(g.zoom_level(), 6);
    g.advance(100);
    assert_eq!(g.zoom_level(), 10);
    g.handle_command(Command::ToggleZoom, 128, 128);
    assert!(!g.zoomed_out());
    g.advance(2);
    assert_eq!(g.zoom_level(), 8);
    g.advance(600);
    assert_eq!(g.zoom_level(), 1);
}

#[test]
fn clear_empties_and_pauses() {
    let mut g = LifeGame::new();
    press(&mut g, 100, 100);
    g.handle_command(Command::SetSpeed(Speed::Fast), 128, 128);
    g.handle_command(Command::Clear, 128, 128);
    assert_eq!(g.colony().len(), 0);
    assert_eq!(g.centre(), (0, 0));
    assert_eq!(g.speed(), Speed::Pause);
}

#[test]
fn clear_twice_equals_clear_once() {
    let mut g1 = LifeGame::new();
    press(&mut g1, 100, 100);
    let mut g2 = LifeGame::new();
    press(&mut g2, 100, 100);
    g1.handle_command(Command::Clear, 128, 128);
    g2.handle_command(Command::Clear, 128, 128);
    g2.handle_command(Command::Clear, 128, 128);
    assert_eq!(g1.colony().len(), g2.colony().len());
    assert_eq!(g1.centre(), g2.centre());
    assert_eq!(g1.speed(), g2.speed());
    assert_eq!(g1.zoom_level(), g2.zoom_level());
    assert_eq!(g1.accumulated_time(), g2.accumulated_time());
}

#[test]
fn toggles_save_and_rewind_restores() {
    let mut g = LifeGame::new();
    // Three toggles while paused: a blinker, auto-saved on each edit.
    press(&mut g, 80, 100);
    press(&mut g, 96, 100);
    press(&mut g, 112, 100);
    // Run a few generations.
    g.handle_command(Command::SetSpeed(Speed::Fast), 128, 128);
    g.advance(PERIOD_FAST_JIFFIES * 3);
    assert!(same_cells(g.colony(), &[(2, 1), (2, 2), (2, 3)]));
    // Rewind restores the three-toggle colony and pauses.
    g.handle_command(Command::Rewind, 128, 128);
    assert!(same_cells(g.colony(), &[(1, 2), (2, 2), (3, 2)]));
    assert_eq!(g.speed(), Speed::Pause);
    // The checkpoint survives a rewind: it can be repeated.
    g.handle_command(Command::SetSpeed(Speed::Fast), 128, 128);
    g.advance(PERIOD_FAST_JIFFIES);
    g.handle_command(Command::Rewind, 128, 128);
    assert!(same_cells(g.colony(), &[(1, 2), (2, 2), (3, 2)]));
}

const PERIOD_FAST_JIFFIES: u32 = 4;

#[test]
fn press_pans_while_running() {
    let mut g = LifeGame::new();
    press(&mut g, 100, 100);
    g.handle_command(Command::SetSpeed(Speed::Slow), 128, 128);
    let before = g.colony().len();
    press(&mut g, 160, 48);
    assert_eq!(g.centre(), (10, 3));
    assert_eq!(g.colony().len(), before);
}

#[test]
fn press_pans_while_zoomed() {
    let mut g = LifeGame::new();
    g.handle_command(Command::ToggleZoom, 128, 128);
    g.advance(5);
    assert!(g.zoom_level() > 1);
    press(&mut g, 160, 48);
    assert_eq!(g.centre(), (10, 3));
    assert_eq!(g.colony().len(), 0);
}

#[test]
fn button_press_never_toggles_a_cell() {
    let mut g = LifeGame::new();
    press(&mut g, 100, 100);
    assert_eq!(g.colony().len(), 1);
    // The pause button's slot is cell (3, 0); while paused and zoomed in a
    // plain cell press would toggle, but the button wins.
    let r = press(&mut g, 3 * 16 + 5, 7);
    assert_eq!(r, HostRequest::NoOp);
    assert_eq!(g.colony().len(), 1);
    assert_eq!(g.speed(), Speed::Pause);
}

#[test]
fn button_slots_run_their_commands() {
    let mut g = LifeGame::new();
    press(&mut g, 100, 100);
    // Slot 5: fast.
    press(&mut g, 5 * 16, 0);
    assert_eq!(g.speed(), Speed::Fast);
    // Slot 3: pause.
    press(&mut g, 3 * 16, 0);
    assert_eq!(g.speed(), Speed::Pause);
    // Slot 6: toggle zoom.
    press(&mut g, 6 * 16, 0);
    assert!(g.zoomed_out());
    press(&mut g, 6 * 16, 0);
    assert!(!g.zoomed_out());
    // Slot 1: clear.
    press(&mut g, 1 * 16, 0);
    assert_eq!(g.colony().len(), 0);
    assert_eq!(g.speed(), Speed::Pause);
}

#[test]
fn fullscreen_is_delegated_to_the_host() {
    let mut g = LifeGame::new();
    let r = g.handle_command(Command::FullscreenToggle, 128, 128);
    assert_eq!(r, HostRequest::ToggleFullscreen);
    // Slot 0 asks the same.
    let r2 = press(&mut g, 4, 9);
    assert_eq!(r2, HostRequest::ToggleFullscreen);
    // Neither touches the engine's state.
    assert_eq!(g.colony().len(), 0);
    assert_eq!(g.speed(), Speed::Pause);
    assert_eq!(g.centre(), (0, 0));
}

#[test]
fn cursor_maps_pixels_to_cells() {
    let g = LifeGame::new();
    assert_eq!(g.cursor_to_cell(0, 0), (0, 0));
    assert_eq!(g.cursor_to_cell(15, 15), (0, 0));
    assert_eq!(g.cursor_to_cell(16, 31), (1, 1));
    assert_eq!(g.cursor_to_cell(160, 48), (10, 3));
}

#[test]
fn scaled_dims_round_up() {
    let mut g = LifeGame::new();
    assert_eq!(g.scaled_dims(128, 128), (8, 8));
    assert_eq!(g.scaled_dims(100, 33), (7, 3));
    g.handle_command(Command::ToggleZoom, 128, 128);
    g.advance(100);
    assert_eq!(g.zoom_level(), 10);
    assert_eq!(g.scaled_dims(128, 128), (80, 80));
}

#[test]
fn save_keeps_centre_with_colony() {
    let mut g = LifeGame::new();
    // Toggle one cell, then run and pan, then rewind: the centre saved at
    // toggle time comes back too.
    press(&mut g, 100, 100);
    g.handle_command(Command::SetSpeed(Speed::Slow), 128, 128);
    press(&mut g, 160, 48);
    assert_eq!(g.centre(), (10, 3));
    g.handle_command(Command::Rewind, 128, 128);
    assert_eq!(g.centre(), (0, 0));
}
