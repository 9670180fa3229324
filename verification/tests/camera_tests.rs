use raycaster::fixed::{Rotation, Vec2, FP_ONE};
use raycaster::renderer::Renderer;

fn room5() -> Renderer {
    let mut map = vec![0u32; 25];
    for x in 0..5usize {
        for y in 0..5usize {
            if x == 0 || x == 4 || y == 0 || y == 4 {
                map[x + y * 5] = 0xFF0000FF;
            }
        }
    }
    Renderer::new(map, 5, 5)
}

#[test]
fn new_has_classic_defaults() {
    let r = Renderer::new(vec![0u32; 25], 5, 5);
    assert_eq!(r.position, Vec2 { x: 2 * FP_ONE, y: 2 * FP_ONE });
    assert_eq!(r.direction, Vec2 { x: -FP_ONE, y: 0 });
    assert_eq!(r.camera_plane, Vec2 { x: 0, y: 43254 });
}

#[test]
fn try_new_validates_dimensions() {
    assert!(raycaster::renderer::Renderer::try_new(vec![0u32; 25], 5, 5).is_some());
    assert!(raycaster::renderer::Renderer::try_new(vec![0u32; 24], 5, 5).is_none());
    assert!(raycaster::renderer::Renderer::try_new(vec![0u32; 6], 2, 3).is_none());
    assert!(raycaster::renderer::Renderer::try_new(vec![0u32; 2], 2, 1).is_none());
}

#[test]
fn set_position_clamps_each_axis() {
    let mut r = room5();
    r.set_position(Vec2 { x: -5, y: 10_000_000_000 });
    assert_eq!(r.position, Vec2 { x: 0, y: 5 * FP_ONE });
    r.set_position(Vec2 { x: 3 * FP_ONE / 2, y: 7 * FP_ONE / 2 });
    assert_eq!(r.position, Vec2 { x: 3 * FP_ONE / 2, y: 7 * FP_ONE / 2 });
}

#[test]
fn add_position_moves_along_facing() {
    let mut r = room5();
    r.add_position(5243);
    assert_eq!(r.position, Vec2 { x: 2 * FP_ONE - 5243, y: 2 * FP_ONE });
    r.add_position(-5243);
    assert_eq!(r.position, Vec2 { x: 2 * FP_ONE, y: 2 * FP_ONE });
}

#[test]
fn add_position_never_leaves_map() {
    let mut r = room5();
    for _ in 0..300 {
        r.add_position(raycaster::renderer::SPEED_MAX);
        assert!(r.position.x >= 0 && r.position.x <= 5 * FP_ONE);
        assert!(r.position.y >= 0 && r.position.y <= 5 * FP_ONE);
    }
    for _ in 0..300 {
        r.add_position(-raycaster::renderer::SPEED_MAX);
        assert!(r.position.x >= 0 && r.position.x <= 5 * FP_ONE);
        assert!(r.position.y >= 0 && r.position.y <= 5 * FP_ONE);
    }
}

#[test]
fn rotation_constructor_rejects_expanding_pairs() {
    assert!(Rotation::new(FP_ONE, FP_ONE).is_none());
    assert!(Rotation::new(FP_ONE + 1, 0).is_none());
    assert!(Rotation::new(FP_ONE, 0).is_some());
    assert!(Rotation::new(65454, 3275).is_some());
}

#[test]
fn quarter_turn_round_trip_is_exact() {
    let mut r = room5();
    let left = Rotation::new(0, FP_ONE).unwrap();
    r.add_rotation(left);
    assert_eq!(r.direction, Vec2 { x: 0, y: -FP_ONE });
    assert_eq!(r.camera_plane, Vec2 { x: -43254, y: 0 });
    r.add_rotation(left.inverse());
    assert_eq!(r.direction, Vec2 { x: -FP_ONE, y: 0 });
    assert_eq!(r.camera_plane, Vec2 { x: 0, y: 43254 });
}

#[test]
fn small_rotation_round_trip_is_close() {
    let mut r = room5();
    let rot = Rotation::new(65454, 3275).unwrap();
    r.add_rotation(rot);
    r.add_rotation(rot.inverse());
    assert!((r.direction.x - (-FP_ONE)).abs() <= 8);
    assert!(r.direction.y.abs() <= 8);
    assert!(r.camera_plane.x.abs() <= 8);
    assert!((r.camera_plane.y - 43254).abs() <= 8);
}

#[test]
fn rotation_keeps_direction_plane_dot_product() {
    let mut r = room5();
    let dot0 = r.direction.x * r.camera_plane.x + r.direction.y * r.camera_plane.y;
    r.add_rotation(Rotation::new(0, FP_ONE).unwrap());
    let dot1 = r.direction.x * r.camera_plane.x + r.direction.y * r.camera_plane.y;
    assert_eq!(dot0, dot1);
}

#[test]
fn apply_input_steps_like_the_single_commands() {
    let mut a = room5();
    let mut b = room5();
    a.apply_input(true, false, true, false);
    b.add_position(raycaster::renderer::MOVE_STEP);
    b.add_rotation(
        Rotation::new(raycaster::renderer::ROT_STEP_COS, raycaster::renderer::ROT_STEP_SIN)
            .unwrap(),
    );
    assert_eq!(a.position, b.position);
    assert_eq!(a.direction, b.direction);
    assert_eq!(a.camera_plane, b.camera_plane);
    a.apply_input(false, false, false, false);
    assert_eq!(a.direction, b.direction);
}
