use tag_sim::agent::TagPlayerAgent;
use tag_sim::agent::MAX_SPEED;
use tag_sim::environment::TagEnvironment;
use tag_sim::environment::TagPlayerAction;
use tag_sim::environment::TagPlayerVisibleState;
use tag_sim::environment::TagStatus;
use tag_sim::geometry::PlayArea;
use tag_sim::geometry::Vec2;
use tag_sim::simulation::Simulation;

/// Fixed-point coordinate units per world unit.
const U: i64 = 1000;

fn v(x: i64, y: i64) -> Vec2 {
    Vec2 { x, y }
}

fn state(x: i64, y: i64, status: TagStatus) -> TagPlayerVisibleState {
    TagPlayerVisibleState { position: v(x, y), status }
}

fn hundred_area() -> PlayArea {
    PlayArea::from_points(v(0, 0), v(100 * U, 100 * U))
}

#[test]
fn step_pursues_and_flees() {
    let mut sim = Simulation::new(
        hundred_area(),
        vec![
            (TagPlayerAgent, state(0, 0, TagStatus::It { tagged_by: 0 })),
            (TagPlayerAgent, state(50 * U, 0, TagStatus::NotIt)),
        ],
    );
    sim.step();
    // the it player runs straight toward the runner, the runner flees
    // straight away; both at full speed
    assert_eq!(sim.actions().len(), 2);
    assert_eq!(
        sim.actions()[0],
        TagPlayerAction::Run { stretch: v(MAX_SPEED, 0) }
    );
    assert_eq!(
        sim.actions()[1],
        TagPlayerAction::Run { stretch: v(MAX_SPEED, 0) }
    );
    assert_eq!(sim.player_state()[0].position, v(MAX_SPEED, 0));
    assert_eq!(sim.player_state()[1].position, v(50 * U + MAX_SPEED, 0));
}

#[test]
fn step_tags_within_arm_length() {
    let mut sim = Simulation::new(
        hundred_area(),
        vec![
            (TagPlayerAgent, state(0, 0, TagStatus::It { tagged_by: 0 })),
            (TagPlayerAgent, state(500, 0, TagStatus::NotIt)),
        ],
    );
    sim.step();
    assert_eq!(sim.actions()[0], TagPlayerAction::Tag { player_id: 1 });
    // after the tag, exactly the target is it and remembers its tagger
    assert_eq!(sim.player_state()[0].status, TagStatus::NotIt);
    assert_eq!(
        sim.player_state()[1].status,
        TagStatus::It { tagged_by: 0 }
    );
    let it_count = sim
        .player_state()
        .iter()
        .filter(|s| s.is_it())
        .count();
    assert_eq!(it_count, 1);
}

#[test]
fn degenerate_angle_defaults_to_positive_x() {
    // the it player stands exactly on the fleeing player: the flee
    // direction has no angle and defaults to angle zero
    let e = TagEnvironment::new(
        hundred_area(),
        vec![
            state(50 * U, 50 * U, TagStatus::It { tagged_by: 0 }),
            state(50 * U, 50 * U, TagStatus::NotIt),
        ],
    );
    let action = TagPlayerAgent.act(1, &e).unwrap();
    assert_eq!(action, TagPlayerAction::Run { stretch: v(MAX_SPEED, 0) });
}

#[test]
fn lone_it_player_cannot_act() {
    let e = TagEnvironment::new(
        hundred_area(),
        vec![state(0, 0, TagStatus::It { tagged_by: 0 })],
    );
    assert!(TagPlayerAgent.act(0, &e).is_err());
}

#[test]
fn flee_is_redirected_at_the_wall() {
    // the runner is pushed against the right wall; fleeing straight right
    // would leave the area, so the displacement turns along the wall
    let e = TagEnvironment::new(
        hundred_area(),
        vec![
            state(90 * U, 50 * U, TagStatus::It { tagged_by: 0 }),
            state(99 * U, 50 * U, TagStatus::NotIt),
        ],
    );
    let action = TagPlayerAgent.act(1, &e).unwrap();
    match action {
        TagPlayerAction::Run { stretch } => {
            let end = v(99 * U + stretch.x, 50 * U + stretch.y);
            assert!(e.area().contains(&end));
            assert_ne!(stretch, v(MAX_SPEED, 0));
            let got = stretch.x * stretch.x + stretch.y * stretch.y;
            let want = (MAX_SPEED * MAX_SPEED) as i64;
            assert!(want - 6000 <= got && got <= want);
        }
        TagPlayerAction::Tag { .. } => panic!("a runner never tags"),
    }
}
