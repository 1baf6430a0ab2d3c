use tag_sim::environment::TagEnvironment;
use tag_sim::environment::TagError;
use tag_sim::environment::TagPlayerAction;
use tag_sim::environment::TagPlayerVisibleState;
use tag_sim::environment::TagStatus;
use tag_sim::geometry::PlayArea;
use tag_sim::geometry::Vec2;

/// Fixed-point coordinate units per world unit.
const U: i64 = 1000;

fn v(x: i64, y: i64) -> Vec2 {
    Vec2 { x, y }
}

fn state(x: i64, y: i64, status: TagStatus) -> TagPlayerVisibleState {
    TagPlayerVisibleState { position: v(x, y), status }
}

fn hundred_area() -> PlayArea {
    PlayArea::from_points(v(0, 0), v(100 * U, 100 * U))
}

#[test]
fn apply_run() {
    let mut e = TagEnvironment::new(
        hundred_area(),
        vec![
            state(0, 0, TagStatus::NotIt),
            state(1 * U, 1 * U, TagStatus::It { tagged_by: 1 }),
        ],
    );
    assert_eq!(e.get_state(0).position, v(0, 0));
    assert_eq!(e.get_state(1).position, v(1 * U, 1 * U));
    e.apply_action(
        1,
        &TagPlayerAction::Run { stretch: v(10 * U, 10 * U) },
    );
    assert_eq!(e.get_state(0).position, v(0, 0));
    assert_eq!(e.get_state(1).position, v(11 * U, 11 * U));
    e.apply_action(
        0,
        &TagPlayerAction::Run { stretch: v(20 * U, 20 * U) },
    );
    assert_eq!(e.get_state(0).position, v(20 * U, 20 * U));
    assert_eq!(e.get_state(1).position, v(11 * U, 11 * U));
}

#[test]
fn apply_run_out_of_area() {
    let mut e = TagEnvironment::new(
        hundred_area(),
        vec![state(95 * U, 0, TagStatus::NotIt)],
    );
    assert_eq!(e.get_state(0).position, v(95 * U, 0));
    e.apply_action(
        0,
        &TagPlayerAction::Run { stretch: v(10 * U, 10 * U) },
    );
    assert_eq!(e.get_state(0).position, v(100 * U, 10 * U));
}

#[test]
fn apply_tag() {
    let mut e = TagEnvironment::new(
        hundred_area(),
        vec![
            state(0, 0, TagStatus::NotIt),
            state(1 * U, 1 * U, TagStatus::It { tagged_by: 1 }),
        ],
    );
    assert!(!e.get_state(0).is_it());
    assert!(e.get_state(1).is_it());
    e.apply_action(1, &TagPlayerAction::Tag { player_id: 0 });
    assert!(e.get_state(0).is_it());
    assert!(!e.get_state(1).is_it());
    // exactly one player is it, and the tagger is recorded
    assert_eq!(e.get_state(0).status, TagStatus::It { tagged_by: 1 });
    assert_eq!(e.get_state(1).status, TagStatus::NotIt);
}

#[test]
fn test_closest_player() {
    let e = TagEnvironment::new(
        hundred_area(),
        vec![
            state(0, 0, TagStatus::NotIt),
            state(5 * U, 0, TagStatus::NotIt),
            state(10 * U, 10 * U, TagStatus::It { tagged_by: 2 }),
        ],
    );
    assert_eq!(e.closest_player_except(0, None).unwrap().0, 1);
    assert_eq!(e.closest_player_except(1, None).unwrap().0, 0);
    assert_eq!(e.closest_player_except(2, None).unwrap().0, 1);
    assert_eq!(e.closest_player_except(0, Some(1)).unwrap().0, 2);
    assert_eq!(e.closest_player_except(1, Some(0)).unwrap().0, 2);
    assert_eq!(e.closest_player_except(2, Some(1)).unwrap().0, 0);
}

#[test]
fn closest_player_distances() {
    // players at (0,0), (5,0), (10,10): the nearest to player 0 is player 1
    // at squared distance 5^2, not player 2 at squared distance 200
    let e = TagEnvironment::new(
        hundred_area(),
        vec![
            state(0, 0, TagStatus::NotIt),
            state(5 * U, 0, TagStatus::NotIt),
            state(10 * U, 10 * U, TagStatus::NotIt),
        ],
    );
    assert_eq!(e.closest_player_except(0, None).unwrap(), (1, 5 * U * 5 * U));
    assert_eq!(
        e.closest_player_except(0, Some(1)).unwrap(),
        (2, 2 * 10 * U * 10 * U)
    );
}

#[test]
fn closest_player_ties_go_to_lower_id() {
    let e = TagEnvironment::new(
        hundred_area(),
        vec![
            state(5 * U, 5 * U, TagStatus::NotIt),
            state(5 * U, 8 * U, TagStatus::NotIt),
            state(5 * U, 2 * U, TagStatus::NotIt),
        ],
    );
    assert_eq!(e.closest_player_except(0, None).unwrap().0, 1);
}

#[test]
fn closest_player_needs_a_candidate() {
    let e = TagEnvironment::new(
        hundred_area(),
        vec![state(0, 0, TagStatus::It { tagged_by: 0 })],
    );
    assert_eq!(
        e.closest_player_except(0, None),
        Err(TagError::NotEnoughPlayers)
    );
    let two = TagEnvironment::new(
        hundred_area(),
        vec![
            state(0, 0, TagStatus::NotIt),
            state(1 * U, 0, TagStatus::NotIt),
        ],
    );
    assert_eq!(
        two.closest_player_except(0, Some(1)),
        Err(TagError::NotEnoughPlayers)
    );
}

#[test]
fn batch_clamps_every_position() {
    let mut e = TagEnvironment::new(
        hundred_area(),
        vec![
            state(99 * U, 99 * U, TagStatus::It { tagged_by: 0 }),
            state(1 * U, 1 * U, TagStatus::NotIt),
        ],
    );
    e.apply_actions(&[
        TagPlayerAction::Run { stretch: v(5 * U, 5 * U) },
        TagPlayerAction::Run { stretch: v(-5 * U, -5 * U) },
    ]);
    let area = e.area();
    for s in e.player_state() {
        assert!(area.contains(&s.position));
    }
    assert_eq!(e.get_state(0).position, v(100 * U, 100 * U));
    assert_eq!(e.get_state(1).position, v(0, 0));
}

#[test]
fn get_it_finds_the_first_it_player() {
    let e = TagEnvironment::new(
        hundred_area(),
        vec![
            state(0, 0, TagStatus::NotIt),
            state(1 * U, 0, TagStatus::It { tagged_by: 0 }),
            state(2 * U, 0, TagStatus::NotIt),
        ],
    );
    assert_eq!(e.get_it(), Some(1));
    let nobody = TagEnvironment::new(hundred_area(), vec![state(0, 0, TagStatus::NotIt)]);
    assert_eq!(nobody.get_it(), None);
}

#[test]
fn status_converts_to_tagger_id() {
    assert_eq!(Option::<usize>::from(TagStatus::NotIt), None);
    assert_eq!(Option::<usize>::from(TagStatus::It { tagged_by: 3 }), Some(3));
}
