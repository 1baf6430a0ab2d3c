//! A cell grid for rendering one frame of the tag game: each player is
//! painted into the grid cell its position scales to, more important marks
//! overwriting less important ones. Turning the grid into text is left to
//! the caller.

use vstd::arithmetic::div_mod::lemma_div_is_ordered;
use vstd::arithmetic::div_mod::lemma_div_multiples_vanish;
use vstd::arithmetic::mul::lemma_mul_inequality;
use vstd::prelude::*;

use crate::environment::TagPlayerAction;
use crate::environment::TagPlayerVisibleState;
use crate::geometry::PlayArea;
use crate::geometry::Vec2;
use crate::simulation::Simulation;

verus! {

/// What should be drawn in a cell, least important first.
#[derive(Clone, Copy, Debug, PartialEq, Eq, PartialOrd, Ord, Structural)]
pub enum DrawCell {
    /// Nothing here.
    Empty,
    /// A player here is not it.
    Runner,
    /// A player here is it.
    It,
    /// A player here was it and just tagged another player.
    YoureIt,
}

impl DrawCell {
    /// Importance of the mark; higher ranks overwrite lower ones.
    pub open spec fn spec_rank(self) -> int {
        match self {
            DrawCell::Empty => 0,
            DrawCell::Runner => 1,
            DrawCell::It => 2,
            DrawCell::YoureIt => 3,
        }
    }

    pub fn rank(&self) -> (r: u8)
        ensures
            r as int == self.spec_rank(),
    {
        match self {
            DrawCell::Empty => 0,
            DrawCell::Runner => 1,
            DrawCell::It => 2,
            DrawCell::YoureIt => 3,
        }
    }
}

/// The grid cell a coordinate scales to: the coordinate's share of the
/// area's extent, in cells.
pub open spec fn cell_of(extent: int, cells: int, coord: int) -> int {
    coord * (cells - 1) / extent
}

/// The grid after painting one mark at a position: the more important of
/// the new mark and what the cell already holds.
pub open spec fn paint(
    area: PlayArea,
    width: int,
    height: int,
    grid: Seq<DrawCell>,
    position: Vec2,
    cell: DrawCell,
) -> Seq<DrawCell> {
    let cx = cell_of(area.max_x as int, width, position.x as int);
    let cy = cell_of(area.max_y as int, height, position.y as int);
    let i = cy * width + cx;
    let current = grid[i];
    grid.update(
        i,
        if cell.spec_rank() > current.spec_rank() {
            cell
        } else {
            current
        },
    )
}

/// The mark a player leaves: who just tagged beats who is it beats a
/// plain runner.
pub open spec fn cell_for(state: TagPlayerVisibleState, action: TagPlayerAction) -> DrawCell {
    if action is Tag {
        DrawCell::YoureIt
    } else if state.spec_is_it() {
        DrawCell::It
    } else {
        DrawCell::Runner
    }
}

/// The grid after painting the first `k` players with their actions.
pub open spec fn render_upto(
    area: PlayArea,
    width: int,
    height: int,
    grid: Seq<DrawCell>,
    states: Seq<TagPlayerVisibleState>,
    actions: Seq<TagPlayerAction>,
    k: int,
) -> Seq<DrawCell>
    decreases k,
{
    if k <= 0 {
        grid
    } else {
        paint(
            area,
            width,
            height,
            render_upto(area, width, height, grid, states, actions, k - 1),
            states[k - 1].position,
            cell_for(states[k - 1], actions[k - 1]),
        )
    }
}

/// Ascii-art canvas for a tag game, one `DrawCell` per grid cell, stored
/// row by row.
#[derive(Debug)]
pub struct TagCanvas {
    area: PlayArea,
    width: usize,
    height: usize,
    grid: Vec<DrawCell>,
}

impl TagCanvas {
    pub closed spec fn spec_area(self) -> PlayArea {
        self.area
    }

    pub closed spec fn spec_width(self) -> int {
        self.width as int
    }

    pub closed spec fn spec_height(self) -> int {
        self.height as int
    }

    pub closed spec fn spec_grid(self) -> Seq<DrawCell> {
        self.grid@
    }

    /// The canvas draws an area anchored at the origin into a grid of
    /// bounded, positive dimensions.
    pub open spec fn wf(self) -> bool {
        &&& self.spec_area().wf()
        &&& self.spec_area().min_x == 0
        &&& self.spec_area().min_y == 0
        &&& self.spec_area().max_x > 0
        &&& self.spec_area().max_y > 0
        &&& 0 < self.spec_width() <= 4096
        &&& 0 < self.spec_height() <= 4096
        &&& self.spec_grid().len() == self.spec_width() * self.spec_height()
    }

    /// New empty canvas for drawing a particular playing field.
    pub fn new(area: PlayArea, width: usize, height: usize) -> (r: TagCanvas)
        requires
            area.wf(),
            area.min_x == 0,
            area.min_y == 0,
            area.max_x > 0,
            area.max_y > 0,
            0 < width <= 4096,
            0 < height <= 4096,
        ensures
            r.wf(),
            r.spec_area() == area,
            r.spec_width() == width,
            r.spec_height() == height,
            forall|i: int| 0 <= i < r.spec_grid().len() ==> r.spec_grid()[i] == DrawCell::Empty,
    {
        proof {
            assert(width * height <= 16777216) by (nonlinear_arith)
                requires
                    0 < width <= 4096,
                    0 < height <= 4096,
            ;
        }
        let cells = width * height;
        let mut grid: Vec<DrawCell> = Vec::new();
        let mut i: usize = 0;
        while i < cells
            invariant
                i <= cells,
                cells == width * height,
                grid@.len() == i,
                forall|j: int| 0 <= j < i ==> grid@[j] == DrawCell::Empty,
            decreases cells - i,
        {
            grid.push(DrawCell::Empty);
            i = i + 1;
        }
        TagCanvas { area, width, height, grid }
    }

    pub fn width(&self) -> (r: usize)
        ensures
            r == self.spec_width(),
    {
        self.width
    }

    pub fn height(&self) -> (r: usize)
        ensures
            r == self.spec_height(),
    {
        self.height
    }

    /// The mark currently drawn in a cell.
    pub fn cell(&self, x: usize, y: usize) -> (r: DrawCell)
        requires
            self.wf(),
            x < self.spec_width(),
            y < self.spec_height(),
        ensures
            r == self.spec_grid()[y * self.spec_width() + x],
    {
        proof {
            lemma_cell_index_in_grid(self.spec_width(), self.spec_height(), x as int, y as int);
        }
        self.grid[y * self.width + x]
    }

    /// Set what should be rendered in a cell; only overwrites marks less
    /// important than the new one.
    pub fn set(&mut self, position: Vec2, cell: DrawCell)
        requires
            old(self).wf(),
            old(self).spec_area().contains_spec(position),
        ensures
            final(self).wf(),
            final(self).spec_area() == old(self).spec_area(),
            final(self).spec_width() == old(self).spec_width(),
            final(self).spec_height() == old(self).spec_height(),
            final(self).spec_grid() == paint(
                old(self).spec_area(),
                old(self).spec_width(),
                old(self).spec_height(),
                old(self).spec_grid(),
                position,
                cell,
            ),
    {
        proof {
            lemma_cell_of_in_range(
                self.spec_area().max_x as int,
                self.spec_width(),
                position.x as int,
            );
            lemma_cell_of_in_range(
                self.spec_area().max_y as int,
                self.spec_height(),
                position.y as int,
            );
        }
        let x = ((position.x as u64) * (self.width as u64 - 1) / (self.area.max_x as u64))
            as usize;
        let y = ((position.y as u64) * (self.height as u64 - 1) / (self.area.max_y as u64))
            as usize;
        proof {
            lemma_cell_index_in_grid(self.spec_width(), self.spec_height(), x as int, y as int);
        }
        let i = y * self.width + x;
        let current = self.grid[i];
        if cell.rank() > current.rank() {
            self.grid[i] = cell;
        } else {
            proof {
                assert(self.grid@ =~= paint(
                    self.spec_area(),
                    self.spec_width(),
                    self.spec_height(),
                    self.grid@,
                    position,
                    cell,
                ));
            }
        }
    }
}

/// A coordinate within the extent scales to a cell index within the grid
/// dimension.
proof fn lemma_cell_of_in_range(extent: int, cells: int, coord: int)
    requires
        0 < extent <= 1_000_000_000,
        0 < cells <= 4096,
        0 <= coord <= extent,
    ensures
        0 <= cell_of(extent, cells, coord) < cells,
        0 <= coord * (cells - 1) <= 4_100_000_000_000,
{
    assert(0 <= coord * (cells - 1) <= 4_100_000_000_000) by (nonlinear_arith)
        requires
            0 <= coord <= 1_000_000_000,
            0 < cells <= 4096,
    ;
    lemma_mul_inequality(coord, extent, cells - 1);
    lemma_div_is_ordered(0, coord * (cells - 1), extent);
    lemma_div_is_ordered(coord * (cells - 1), extent * (cells - 1), extent);
    lemma_div_multiples_vanish(cells - 1, extent);
    assert(coord * (cells - 1) >= 0) by (nonlinear_arith)
        requires
            coord >= 0,
            cells >= 1,
    ;
}

/// A cell coordinate pair maps into the flat grid.
proof fn lemma_cell_index_in_grid(width: int, height: int, x: int, y: int)
    by (nonlinear_arith)
    requires
        0 < width <= 4096,
        0 < height <= 4096,
        0 <= x < width,
        0 <= y < height,
    ensures
        0 <= y * width + x < width * height,
        y * width + x < 16777216,
{
}

/// Render the current state of the simulation and the actions to the
/// canvas: one mark per player paired with its action.
pub fn render_frame(simulation: &Simulation, actions: &[TagPlayerAction], canvas: &mut TagCanvas)
    requires
        old(canvas).wf(),
        old(canvas).spec_area() == simulation.spec_environment().spec_area(),
        simulation.spec_environment().wf(),
    ensures
        final(canvas).wf(),
        final(canvas).spec_area() == old(canvas).spec_area(),
        final(canvas).spec_width() == old(canvas).spec_width(),
        final(canvas).spec_height() == old(canvas).spec_height(),
        ({
            let states = simulation.spec_environment().states();
            let n = if states.len() <= actions@.len() {
                states.len() as int
            } else {
                actions@.len() as int
            };
            final(canvas).spec_grid() == render_upto(
                old(canvas).spec_area(),
                old(canvas).spec_width(),
                old(canvas).spec_height(),
                old(canvas).spec_grid(),
                states,
                actions@,
                n,
            )
        }),
{
    let ghost area = canvas.spec_area();
    let ghost width = canvas.spec_width();
    let ghost height = canvas.spec_height();
    let ghost grid0 = canvas.spec_grid();
    let ghost states = simulation.spec_environment().states();
    let players = simulation.player_state();
    let n = if players.len() <= actions.len() {
        players.len()
    } else {
        actions.len()
    };
    let mut i: usize = 0;
    while i < n
        invariant
            i <= n,
            n <= players@.len(),
            n <= actions@.len(),
            players@ == states,
            states == simulation.spec_environment().states(),
            simulation.spec_environment().wf(),
            area == simulation.spec_environment().spec_area(),
            canvas.wf(),
            canvas.spec_area() == area,
            canvas.spec_width() == width,
            canvas.spec_height() == height,
            canvas.spec_grid() == render_upto(area, width, height, grid0, states, actions@, i as int),
        decreases n - i,
    {
        let player = &players[i];
        let action = &actions[i];
        let cell = if matches!(action, TagPlayerAction::Tag { .. }) {
            DrawCell::YoureIt
        } else if player.is_it() {
            DrawCell::It
        } else {
            DrawCell::Runner
        };
        canvas.set(player.position, cell);
        i = i + 1;
    }
}

} // verus!
