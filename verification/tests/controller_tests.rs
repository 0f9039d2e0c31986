use life_sim::controller::{Config, Event, SimulationController};
use life_sim::error::GridError;
use life_sim::mapper::Position;

const PAUSE_KEY: u32 = 25;

fn config(width: usize) -> Config {
    Config { grid_width: width, cell_size: 10, tick_threshold: 1000, pause_key: PAUSE_KEY }
}

fn controller(width: usize) -> SimulationController {
    SimulationController::new(config(width)).unwrap()
}

fn press_at(controller: &mut SimulationController, x: i64, y: i64) -> Option<usize> {
    controller.pointer_moved(Position { x, y });
    controller.pointer_pressed()
}

/// A controller of a five by five grid with a blinker lying in the middle
/// row.
fn with_blinker() -> SimulationController {
    let mut controller = controller(5);
    assert_eq!(press_at(&mut controller, -10, 0), Some(11));
    assert_eq!(press_at(&mut controller, 0, 0), Some(12));
    assert_eq!(press_at(&mut controller, 10, 0), Some(13));
    controller
}

fn cells_of(alive: &[usize], count: usize) -> Vec<bool> {
    let mut cells = vec![false; count];
    for index in alive {
        cells[*index] = true;
    }
    cells
}

#[test]
fn a_field_of_a_total_size_is_shared_among_the_cells() {
    let config = Config::with_total_size(100, 1000, 1000, PAUSE_KEY);
    assert_eq!(config.grid_width, 100);
    assert_eq!(config.cell_size, 10);
    assert_eq!(config.tick_threshold, 1000);
    assert_eq!(config.pause_key, PAUSE_KEY);
    assert_eq!(Config::with_total_size(100, 1099, 0, 0).cell_size, 10);
    assert_eq!(Config::with_total_size(100, 99, 0, 0).cell_size, 0);
    assert_eq!(Config::with_total_size(1, u32::MAX, 0, 0).cell_size, u32::MAX);
    assert_eq!(Config::with_total_size(0, 1000, 0, 0).cell_size, 0);
    let controller = SimulationController::new(Config::with_total_size(50, 1000, 1, 2)).unwrap();
    assert_eq!(controller.width(), 50);
    assert_eq!(controller.cell_size(), 20);
    assert_eq!(controller.total_size(), 1000);
}

#[test]
fn a_new_controller_is_paused_with_a_dead_grid() {
    let controller = controller(100);
    assert!(controller.is_paused());
    assert_eq!(controller.elapsed(), 0);
    assert_eq!(controller.pointer(), Position { x: 0, y: 0 });
    assert_eq!(controller.width(), 100);
    assert_eq!(controller.cell_size(), 10);
    assert_eq!(controller.total_size(), 1000);
    assert_eq!(controller.grid().len(), 10_000);
    assert_eq!(controller.grid().cells(), &vec![false; 10_000]);
    assert_eq!(controller.is_alive(0), Ok(false));
    assert_eq!(controller.is_alive(9_999), Ok(false));
    assert_eq!(controller.is_alive(10_000), Err(GridError::OutOfRange));
}

#[test]
fn a_controller_of_no_cells_is_refused() {
    assert!(matches!(
        SimulationController::new(config(0)),
        Err(GridError::InvalidConfiguration)
    ));
}

#[test]
fn a_pointer_move_is_remembered_and_changes_nothing_else() {
    let mut controller = controller(4);
    controller.pointer_moved(Position { x: -3, y: 12 });
    assert_eq!(controller.pointer(), Position { x: -3, y: 12 });
    controller.pointer_moved(Position { x: 900, y: -900 });
    assert_eq!(controller.pointer(), Position { x: 900, y: -900 });
    assert!(controller.is_paused());
    assert_eq!(controller.elapsed(), 0);
    assert_eq!(controller.grid().cells(), &vec![false; 16]);
}

#[test]
fn a_press_flips_the_cell_under_the_pointer() {
    let mut controller = controller(100);
    assert_eq!(press_at(&mut controller, -495, 495), Some(0));
    assert_eq!(controller.is_alive(0), Ok(true));
    assert_eq!(press_at(&mut controller, 123, -77), Some(5762));
    assert_eq!(controller.is_alive(5762), Ok(true));
    assert_eq!(controller.pointer_pressed(), Some(5762));
    assert_eq!(controller.is_alive(5762), Ok(false));
    assert_eq!(controller.grid().cells(), &cells_of(&[0], 10_000));
    assert!(controller.is_paused());
}

#[test]
fn a_press_off_the_field_does_nothing() {
    let mut controller = with_blinker();
    let before = controller.grid().cells().clone();
    assert_eq!(press_at(&mut controller, 25, 0), None);
    assert_eq!(press_at(&mut controller, -25, 0), None);
    assert_eq!(press_at(&mut controller, 0, 25), None);
    assert_eq!(press_at(&mut controller, 0, -25), None);
    assert_eq!(press_at(&mut controller, 4000, 4000), None);
    assert_eq!(controller.grid().cells(), &before);
}

#[test]
fn only_the_pause_key_flips_between_paused_and_running() {
    let mut controller = controller(3);
    assert!(controller.key_pressed(PAUSE_KEY + 1));
    assert!(controller.key_pressed(0));
    assert!(controller.is_paused());
    assert!(!controller.key_pressed(PAUSE_KEY));
    assert!(!controller.is_paused());
    assert!(!controller.key_pressed(PAUSE_KEY - 1));
    assert!(!controller.is_paused());
    assert!(controller.key_pressed(PAUSE_KEY));
    assert!(controller.is_paused());
}

#[test]
fn while_paused_time_never_changes_the_grid() {
    let mut controller = with_blinker();
    let before = controller.grid().cells().clone();
    assert!(!controller.time_advanced(999));
    assert_eq!(controller.elapsed(), 999);
    assert!(!controller.time_advanced(1));
    assert_eq!(controller.elapsed(), 1000);
    assert!(!controller.time_advanced(1_000_000));
    assert_eq!(controller.elapsed(), 1_001_000);
    for _ in 0..50 {
        assert!(!controller.time_advanced(u128::MAX / 7));
        assert_eq!(controller.grid().cells(), &before);
    }
    assert_eq!(controller.elapsed(), u128::MAX);
    assert!(controller.is_paused());
}

#[test]
fn time_gathered_while_paused_counts_when_the_simulation_resumes() {
    let mut controller = with_blinker();
    assert!(!controller.time_advanced(1500));
    controller.key_pressed(PAUSE_KEY);
    assert!(controller.time_advanced(0));
    assert_eq!(controller.elapsed(), 0);
    assert_eq!(controller.grid().cells(), &cells_of(&[7, 12, 17], 25));
}

#[test]
fn time_beyond_the_cap_still_counts_as_reaching_the_threshold() {
    let mut controller = SimulationController::new(Config {
        grid_width: 5,
        cell_size: 10,
        tick_threshold: u128::MAX,
        pause_key: PAUSE_KEY,
    })
    .unwrap();
    assert!(!controller.time_advanced(u128::MAX - 1));
    assert!(!controller.time_advanced(5));
    assert_eq!(controller.elapsed(), u128::MAX);
    controller.key_pressed(PAUSE_KEY);
    assert!(controller.time_advanced(0));
    assert_eq!(controller.elapsed(), 0);
    assert!(!controller.time_advanced(u128::MAX - 1));
    assert!(controller.time_advanced(u128::MAX));
    assert_eq!(controller.elapsed(), 0);
}

#[test]
fn while_running_the_grid_advances_once_per_threshold_crossing() {
    let mut controller = with_blinker();
    let lying = cells_of(&[11, 12, 13], 25);
    let standing = cells_of(&[7, 12, 17], 25);
    controller.key_pressed(PAUSE_KEY);
    assert!(!controller.time_advanced(400));
    assert!(!controller.time_advanced(599));
    assert_eq!(controller.elapsed(), 999);
    assert_eq!(controller.grid().cells(), &lying);
    assert!(controller.time_advanced(1));
    assert_eq!(controller.elapsed(), 0);
    assert_eq!(controller.grid().cells(), &standing);
    assert!(!controller.time_advanced(999));
    assert_eq!(controller.grid().cells(), &standing);
    assert!(controller.time_advanced(1));
    assert_eq!(controller.grid().cells(), &lying);
}

#[test]
fn an_overshoot_is_dropped_and_not_carried_over() {
    let mut controller = with_blinker();
    let lying = cells_of(&[11, 12, 13], 25);
    let standing = cells_of(&[7, 12, 17], 25);
    controller.key_pressed(PAUSE_KEY);
    // Ten thresholds at once: one generation, not ten, and nothing left.
    assert!(controller.time_advanced(10_000));
    assert_eq!(controller.elapsed(), 0);
    assert_eq!(controller.grid().cells(), &standing);
    assert!(!controller.time_advanced(999));
    assert_eq!(controller.elapsed(), 999);
    assert_eq!(controller.grid().cells(), &standing);
    assert!(controller.time_advanced(u128::MAX));
    assert_eq!(controller.elapsed(), 0);
    assert_eq!(controller.grid().cells(), &lying);
    assert!(!controller.time_advanced(1));
    assert_eq!(controller.grid().cells(), &lying);
}

#[test]
fn a_threshold_of_zero_advances_on_every_report_while_running() {
    let mut controller = SimulationController::new(Config {
        grid_width: 5,
        cell_size: 10,
        tick_threshold: 0,
        pause_key: PAUSE_KEY,
    })
    .unwrap();
    assert!(!controller.time_advanced(0));
    controller.key_pressed(PAUSE_KEY);
    assert!(controller.time_advanced(0));
    assert!(controller.time_advanced(0));
    assert!(controller.time_advanced(3));
    assert_eq!(controller.elapsed(), 0);
}

#[test]
fn pausing_again_holds_the_grid() {
    let mut controller = with_blinker();
    let standing = cells_of(&[7, 12, 17], 25);
    controller.key_pressed(PAUSE_KEY);
    assert!(controller.time_advanced(1000));
    controller.key_pressed(PAUSE_KEY);
    assert!(!controller.time_advanced(5000));
    assert!(!controller.time_advanced(5000));
    assert_eq!(controller.grid().cells(), &standing);
    assert_eq!(controller.elapsed(), 10_000);
}

#[test]
fn cells_can_be_edited_while_running() {
    let mut controller = controller(5);
    controller.key_pressed(PAUSE_KEY);
    assert_eq!(press_at(&mut controller, -10, 0), Some(11));
    assert_eq!(press_at(&mut controller, 0, 0), Some(12));
    assert_eq!(press_at(&mut controller, 10, 0), Some(13));
    assert!(controller.time_advanced(1000));
    assert_eq!(controller.grid().cells(), &cells_of(&[7, 12, 17], 25));
}

#[test]
fn handle_makes_the_transition_of_each_event() {
    let mut controller = controller(5);
    controller.handle(Event::PointerMoved(Position { x: -10, y: 0 }));
    assert_eq!(controller.pointer(), Position { x: -10, y: 0 });
    controller.handle(Event::PointerPressed);
    controller.handle(Event::PointerMoved(Position { x: 0, y: 0 }));
    controller.handle(Event::PointerPressed);
    controller.handle(Event::PointerMoved(Position { x: 10, y: 0 }));
    controller.handle(Event::PointerPressed);
    controller.handle(Event::PointerMoved(Position { x: 100, y: 0 }));
    controller.handle(Event::PointerPressed);
    assert_eq!(controller.grid().cells(), &cells_of(&[11, 12, 13], 25));
    controller.handle(Event::TimeAdvanced(700));
    assert_eq!(controller.elapsed(), 700);
    controller.handle(Event::KeyPressed(PAUSE_KEY + 3));
    assert!(controller.is_paused());
    controller.handle(Event::KeyPressed(PAUSE_KEY));
    assert!(!controller.is_paused());
    controller.handle(Event::TimeAdvanced(700));
    assert_eq!(controller.elapsed(), 0);
    assert_eq!(controller.grid().cells(), &cells_of(&[7, 12, 17], 25));
    controller.handle(Event::TimeAdvanced(700));
    assert_eq!(controller.elapsed(), 700);
    assert_eq!(controller.grid().cells(), &cells_of(&[7, 12, 17], 25));
}
