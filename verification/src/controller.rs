//! The simulation controller: one owner for the grid, the pointer, the tick
//! accumulator and the pause flag, and the transitions that events cause.

use vstd::prelude::*;
use crate::error::GridError;
use crate::grid::{all_dead, toggled, width_fits, Grid};
use crate::mapper::{
    field_side, index_at, lemma_index_at_is_cell, position_to_index, total_size, Position,
};
use crate::rule::{next_cells, next_generation};

verus! {

/// What is fixed when the simulation starts.
#[derive(Clone, Copy, Debug)]
pub struct Config {
    /// Cells in a row of the grid, and rows.
    pub grid_width: usize,
    /// The side of a cell on the play-field, in units.
    pub cell_size: u32,
    /// The time, in nanoseconds, that must have gathered for a generation
    /// to advance.
    pub tick_threshold: u128,
    /// The key that pauses and resumes.
    pub pause_key: u32,
}

impl Config {
    /// The configuration of a play-field of `total_size` units a side,
    /// shared evenly among the cells of a row: a cell measures
    /// `total_size / grid_width` units, and what does not divide is left
    /// off the field.
    pub fn with_total_size(
        grid_width: usize,
        total_size: u32,
        tick_threshold: u128,
        pause_key: u32,
    ) -> (config: Config)
        ensures
            config.grid_width == grid_width,
            config.tick_threshold == tick_threshold,
            config.pause_key == pause_key,
            grid_width > 0 ==> config.cell_size == total_size as int / grid_width as int,
            grid_width == 0 ==> config.cell_size == 0,
    {
        let cell_size: u32 = if grid_width == 0 {
            0
        } else {
            (total_size as usize / grid_width) as u32
        };
        Config { grid_width, cell_size, tick_threshold, pause_key }
    }
}

/// What the host reports to the controller.
#[derive(Clone, Copy, Debug)]
pub enum Event {
    /// The pointer is now at this position.
    PointerMoved(Position),
    /// The pointer's button went down.
    PointerPressed,
    /// The key with this code went down.
    KeyPressed(u32),
    /// This many nanoseconds have passed since the last such report.
    TimeAdvanced(u128),
}

/// The controller's state as mathematics.
pub struct ControllerState {
    /// The cells, row by row.
    pub cells: Seq<bool>,
    /// Cells in a row.
    pub width: nat,
    /// Where the pointer was last seen.
    pub pointer: Position,
    /// Nanoseconds gathered since the last advance.
    pub elapsed: nat,
    /// Whether timed advances are held back.
    pub paused: bool,
    /// The side of a cell, in units.
    pub cell_size: nat,
    /// Nanoseconds that must gather for an advance.
    pub tick_threshold: nat,
    /// The key that pauses and resumes.
    pub pause_key: u32,
}

/// The most that the accumulator holds; time beyond it is not counted.
pub open spec fn elapsed_cap() -> nat {
    u128::MAX as nat
}

/// The state in which a simulation starts: paused, every cell dead, the
/// pointer at the centre and no time gathered.
pub open spec fn initial_state(config: Config) -> ControllerState {
    ControllerState {
        cells: all_dead(config.grid_width as nat),
        width: config.grid_width as nat,
        pointer: Position { x: 0, y: 0 },
        elapsed: 0,
        paused: true,
        cell_size: config.cell_size as nat,
        tick_threshold: config.tick_threshold as nat,
        pause_key: config.pause_key,
    }
}

/// After the pointer moved: only the remembered position changes.
pub open spec fn after_move(state: ControllerState, position: Position) -> ControllerState {
    ControllerState { pointer: position, ..state }
}

/// The cell under the pointer, if the pointer is strictly inside the field.
pub open spec fn pointed_cell(state: ControllerState) -> Option<int> {
    index_at(
        state.pointer.x as int,
        state.pointer.y as int,
        state.cell_size as int,
        state.width as int,
    )
}

/// After a press: the cell under the pointer is flipped; off the field
/// nothing happens.
pub open spec fn after_press(state: ControllerState) -> ControllerState {
    match pointed_cell(state) {
        Some(index) => ControllerState { cells: toggled(state.cells, index), ..state },
        None => state,
    }
}

/// After a key went down: the pause key flips between paused and running,
/// any other key does nothing.
pub open spec fn after_key(state: ControllerState, key: u32) -> ControllerState {
    if key == state.pause_key {
        ControllerState { paused: !state.paused, ..state }
    } else {
        state
    }
}

/// Whether a report of `delta` nanoseconds makes the generation advance:
/// the simulation is running and the time gathered reaches the threshold.
pub open spec fn tick_due(state: ControllerState, delta: nat) -> bool {
    !state.paused && state.elapsed + delta >= state.tick_threshold
}

/// After time passed: where a tick is due the next generation replaces the
/// grid and the accumulator starts again from zero, whatever the overshoot;
/// otherwise the time is added to the accumulator and nothing else changes.
pub open spec fn after_time(state: ControllerState, delta: nat) -> ControllerState {
    if tick_due(state, delta) {
        ControllerState {
            cells: next_cells(state.cells, state.width as int),
            elapsed: 0,
            ..state
        }
    } else if state.elapsed + delta <= elapsed_cap() {
        ControllerState { elapsed: state.elapsed + delta, ..state }
    } else {
        ControllerState { elapsed: elapsed_cap(), ..state }
    }
}

/// What holds of the state of every controller: the grid is a square of
/// at least one cell, and the numbers are ones that the machine holds.
pub open spec fn valid(state: ControllerState) -> bool {
    &&& state.width > 0
    &&& width_fits(state.width)
    &&& state.cells.len() == state.width * state.width
    &&& state.elapsed <= elapsed_cap()
    &&& state.tick_threshold <= elapsed_cap()
    &&& state.cell_size <= u32::MAX
}

/// The state after a run of time reports, one after the other.
pub open spec fn after_times(state: ControllerState, deltas: Seq<nat>) -> ControllerState
    decreases deltas.len(),
{
    if deltas.len() == 0 {
        state
    } else {
        after_time(after_times(state, deltas.drop_last()), deltas.last())
    }
}

/// The state that follows `state` on `event`.
pub open spec fn after_event(state: ControllerState, event: Event) -> ControllerState {
    match event {
        Event::PointerMoved(position) => after_move(state, position),
        Event::PointerPressed => after_press(state),
        Event::KeyPressed(key) => after_key(state, key),
        Event::TimeAdvanced(delta) => after_time(state, delta as nat),
    }
}

/// The simulation: the grid and what steers it.
#[derive(Debug)]
pub struct SimulationController {
    grid: Grid,
    pointer: Position,
    elapsed: u128,
    paused: bool,
    cell_size: u32,
    tick_threshold: u128,
    pause_key: u32,
}

impl View for SimulationController {
    type V = ControllerState;

    closed spec fn view(&self) -> ControllerState {
        ControllerState {
            cells: self.grid@,
            width: self.grid.spec_width(),
            pointer: self.pointer,
            elapsed: self.elapsed as nat,
            paused: self.paused,
            cell_size: self.cell_size as nat,
            tick_threshold: self.tick_threshold as nat,
            pause_key: self.pause_key,
        }
    }
}

impl SimulationController {
    /// What every controller satisfies: its state is a valid one.
    pub open spec fn wf(&self) -> bool {
        valid(self@)
    }

    /// A simulation in its initial state. A width of zero is refused.
    pub fn new(config: Config) -> (made: Result<SimulationController, GridError>)
        requires
            width_fits(config.grid_width as nat),
        ensures
            config.grid_width == 0 <==> made is Err,
            made matches Err(e) ==> e == GridError::InvalidConfiguration,
            made matches Ok(controller) ==> controller.wf() && controller@ == initial_state(config),
    {
        let grid: Grid = match Grid::new(config.grid_width) {
            Ok(grid) => grid,
            Err(e) => {
                return Err(e);
            },
        };
        Ok(
            SimulationController {
                grid,
                pointer: Position { x: 0, y: 0 },
                elapsed: 0,
                paused: true,
                cell_size: config.cell_size,
                tick_threshold: config.tick_threshold,
                pause_key: config.pause_key,
            },
        )
    }

    /// The grid, for reading.
    pub fn grid(&self) -> (grid: &Grid)
        ensures
            grid@ == self@.cells,
            grid.spec_width() == self@.width,
            self.wf() ==> grid.wf(),
    {
        &self.grid
    }

    /// Whether the cell at `index` is alive. An index that is no cell's is
    /// refused.
    pub fn is_alive(&self, index: usize) -> (state: Result<bool, GridError>)
        ensures
            index < self@.cells.len() ==> state == Ok::<bool, GridError>(self@.cells[index as int]),
            index >= self@.cells.len() ==> state == Err::<bool, GridError>(GridError::OutOfRange),
    {
        self.grid.is_alive(index)
    }

    /// Whether timed advances are held back.
    pub fn is_paused(&self) -> (paused: bool)
        ensures
            paused == self@.paused,
    {
        self.paused
    }

    /// Where the pointer was last seen.
    pub fn pointer(&self) -> (position: Position)
        ensures
            position == self@.pointer,
    {
        self.pointer
    }

    /// The nanoseconds gathered since the last advance.
    pub fn elapsed(&self) -> (gathered: u128)
        ensures
            gathered == self@.elapsed,
    {
        self.elapsed
    }

    /// The number of cells in a row of the grid.
    pub fn width(&self) -> (width: usize)
        ensures
            width == self@.width,
    {
        self.grid.width()
    }

    /// The side of a cell on the play-field, in units.
    pub fn cell_size(&self) -> (cell_size: u32)
        ensures
            cell_size == self@.cell_size,
    {
        self.cell_size
    }

    /// The side of the play-field, in units.
    pub fn total_size(&self) -> (side: u64)
        requires
            self.wf(),
        ensures
            side == field_side(self@.cell_size as int, self@.width as int),
    {
        total_size(self.cell_size, self.grid.width())
    }

    /// Remembers where the pointer is.
    pub fn pointer_moved(&mut self, position: Position)
        ensures
            old(self).wf() ==> final(self).wf(),
            final(self)@ == after_move(old(self)@, position),
    {
        self.pointer = position;
    }

    /// Flips the cell under the pointer and reports its index; does
    /// nothing and reports none when the pointer is off the field.
    pub fn pointer_pressed(&mut self) -> (flipped: Option<usize>)
        requires
            old(self).wf(),
        ensures
            final(self).wf(),
            final(self)@ == after_press(old(self)@),
            match flipped {
                Some(index) => pointed_cell(old(self)@) == Some(index as int),
                None => pointed_cell(old(self)@) is None,
            },
    {
        let width: usize = self.grid.width();
        match position_to_index(self.pointer, self.cell_size, width) {
            Some(index) => {
                self.grid.toggle(index).unwrap();
                Some(index)
            },
            None => None,
        }
    }

    /// Flips between paused and running if `key` is the pause key; any
    /// other key does nothing. Reports whether the simulation is paused
    /// afterwards.
    pub fn key_pressed(&mut self, key: u32) -> (paused: bool)
        ensures
            old(self).wf() ==> final(self).wf(),
            final(self)@ == after_key(old(self)@, key),
            paused == final(self)@.paused,
    {
        if key == self.pause_key {
            self.paused = !self.paused;
        }
        self.paused
    }

    /// Adds `delta` nanoseconds to the accumulator and, if the simulation
    /// is running and the threshold is reached, advances one generation
    /// and empties the accumulator. Reports whether a generation advanced.
    pub fn time_advanced(&mut self, delta: u128) -> (advanced: bool)
        requires
            old(self).wf(),
        ensures
            final(self).wf(),
            final(self)@ == after_time(old(self)@, delta as nat),
            advanced == tick_due(old(self)@, delta as nat),
    {
        let gathered: u128 = self.elapsed.saturating_add(delta);
        if !self.paused && gathered >= self.tick_threshold {
            let next: Vec<bool> = next_generation(&self.grid);
            self.grid.replace(next).unwrap();
            self.elapsed = 0;
            true
        } else {
            self.elapsed = gathered;
            false
        }
    }

    /// Takes one event from the host and makes the transition it causes.
    pub fn handle(&mut self, event: Event)
        requires
            old(self).wf(),
        ensures
            final(self).wf(),
            final(self)@ == after_event(old(self)@, event),
    {
        match event {
            Event::PointerMoved(position) => {
                self.pointer_moved(position);
            },
            Event::PointerPressed => {
                let _ = self.pointer_pressed();
            },
            Event::KeyPressed(key) => {
                let _ = self.key_pressed(key);
            },
            Event::TimeAdvanced(delta) => {
                let _ = self.time_advanced(delta);
            },
        }
    }
}

/// While the simulation is paused no report of time changes the grid,
/// however many reports come and however much time they bring.
pub proof fn lemma_paused_holds_grid(state: ControllerState, deltas: Seq<nat>)
    requires
        state.paused,
    ensures
        after_times(state, deltas).paused,
        after_times(state, deltas).cells == state.cells,
    decreases deltas.len(),
{
    if deltas.len() > 0 {
        lemma_paused_holds_grid(state, deltas.drop_last());
    }
}

/// While the simulation runs, a report that brings the gathered time to
/// the threshold advances exactly one generation and empties the
/// accumulator, by however much the threshold is passed; what was over is
/// not carried along, so a following report of less than the threshold
/// advances nothing.
pub proof fn lemma_one_advance_per_crossing(state: ControllerState, delta: nat, later: nat)
    requires
        valid(state),
        !state.paused,
        state.elapsed + delta >= state.tick_threshold,
        later < state.tick_threshold,
    ensures
        after_time(state, delta).cells == next_cells(state.cells, state.width as int),
        after_time(state, delta).elapsed == 0,
        after_time(after_time(state, delta), later).cells == after_time(state, delta).cells,
        after_time(after_time(state, delta), later).elapsed == later,
{
}

/// Between advances the accumulator never falls, and its cap never hides
/// that the threshold was reached: after a report that advanced nothing,
/// the accumulator is at or above the threshold exactly when the time
/// gathered is, and below the cap it is the time gathered.
pub proof fn lemma_cap_keeps_threshold(state: ControllerState, delta: nat)
    requires
        valid(state),
        !tick_due(state, delta),
    ensures
        after_time(state, delta).elapsed >= state.elapsed,
        after_time(state, delta).elapsed >= state.tick_threshold <==> state.elapsed + delta
            >= state.tick_threshold,
        state.elapsed + delta <= elapsed_cap() ==> after_time(state, delta).elapsed
            == state.elapsed + delta,
        !state.paused ==> after_time(state, delta).elapsed == state.elapsed + delta,
{
}

/// Every transition leads from a valid state to a valid state.
pub proof fn lemma_valid_is_kept(state: ControllerState, event: Event)
    requires
        valid(state),
    ensures
        valid(after_event(state, event)),
{
    lemma_index_at_is_cell(
        state.pointer.x as int,
        state.pointer.y as int,
        state.cell_size as int,
        state.width as int,
    );
}

} // verus!
