use tag_sim::environment::TagPlayerVisibleState;
use tag_sim::environment::TagStatus;
use tag_sim::geometry::PlayArea;
use tag_sim::geometry::Vec2;
use tag_sim::simulation::Simulation;
use tag_sim::viewer::render_frame;
use tag_sim::viewer::DrawCell;
use tag_sim::viewer::TagCanvas;
use tag_sim::agent::TagPlayerAgent;

/// Fixed-point coordinate units per world unit.
const U: i64 = 1000;

fn v(x: i64, y: i64) -> Vec2 {
    Vec2 { x, y }
}

fn hundred_area() -> PlayArea {
    PlayArea::from_points(v(0, 0), v(100 * U, 100 * U))
}

#[test]
fn canvas_scales_positions_to_cells() {
    let mut canvas = TagCanvas::new(hundred_area(), 25, 25);
    assert_eq!(canvas.cell(0, 0), DrawCell::Empty);
    canvas.set(v(0, 0), DrawCell::Runner);
    assert_eq!(canvas.cell(0, 0), DrawCell::Runner);
    canvas.set(v(100 * U, 100 * U), DrawCell::It);
    assert_eq!(canvas.cell(24, 24), DrawCell::It);
    canvas.set(v(50 * U, 50 * U), DrawCell::Runner);
    assert_eq!(canvas.cell(12, 12), DrawCell::Runner);
}

#[test]
fn canvas_keeps_the_more_important_mark() {
    let mut canvas = TagCanvas::new(hundred_area(), 25, 25);
    canvas.set(v(0, 0), DrawCell::It);
    canvas.set(v(0, 0), DrawCell::Runner);
    assert_eq!(canvas.cell(0, 0), DrawCell::It);
    canvas.set(v(0, 0), DrawCell::YoureIt);
    assert_eq!(canvas.cell(0, 0), DrawCell::YoureIt);
}

#[test]
fn frame_marks_tagger_it_and_runners() {
    let mut sim = Simulation::new(
        hundred_area(),
        vec![
            (
                TagPlayerAgent,
                TagPlayerVisibleState {
                    position: v(0, 0),
                    status: TagStatus::It { tagged_by: 0 },
                },
            ),
            (
                TagPlayerAgent,
                TagPlayerVisibleState { position: v(500, 0), status: TagStatus::NotIt },
            ),
            (
                TagPlayerAgent,
                TagPlayerVisibleState { position: v(100 * U, 100 * U), status: TagStatus::NotIt },
            ),
        ],
    );
    sim.step();
    let mut canvas = TagCanvas::new(sim.environment().area(), 25, 25);
    render_frame(&sim, sim.actions(), &mut canvas);
    // player 0 tagged player 1 and is drawn as the one who just tagged;
    // freshly-it player 1 shares that cell and its lesser mark is absorbed
    assert_eq!(canvas.cell(0, 0), DrawCell::YoureIt);
    // player 2 fled the far corner and is drawn as a plain runner
    assert_eq!(canvas.cell(23, 23), DrawCell::Runner);
    let mut runners: usize = 0;
    let mut its: usize = 0;
    for y in 0..25 {
        for x in 0..25 {
            match canvas.cell(x, y) {
                DrawCell::Runner => runners += 1,
                DrawCell::It => its += 1,
                _ => {}
            }
        }
    }
    assert_eq!(runners, 1);
    assert_eq!(its, 0);
}
