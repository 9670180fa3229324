use raycaster::fixed::{Rotation, Vec2, FP_ONE};
use raycaster::renderer::{map_from_bytes, Renderer};
use raycaster::ui::UI;
use raycaster::{HEIGHT, WIDTH};

fn room5() -> Renderer {
    let mut map = vec![0u32; 25];
    for x in 0..5usize {
        for y in 0..5usize {
            if x == 0 || x == 4 || y == 0 || y == 4 {
                map[x + y * 5] = 0xFF0000FF;
            }
        }
    }
    let mut r = Renderer::new(map, 5, 5);
    r.set_position(Vec2 { x: 5 * FP_ONE / 2, y: 5 * FP_ONE / 2 });
    r
}

fn room3() -> Renderer {
    let mut map = vec![0x808080FFu32; 9];
    map[1 + 1 * 3] = 0;
    let mut r = Renderer::new(map, 3, 3);
    r.set_position(Vec2 { x: 3 * FP_ONE / 2, y: 3 * FP_ONE / 2 });
    r
}

#[test]
fn flat_wall_has_no_fisheye() {
    // Camera at the room center facing west: every column's perpendicular
    // distance to the facing wall is exactly 1.5 tiles, so every slice is
    // identical.
    let r = room5();
    for x in [0usize, 1, 79, 160, 300, 319] {
        let l = r.cast_column(WIDTH, HEIGHT, x);
        assert_eq!(l.start, 30);
        assert_eq!(l.end, 150);
        assert_eq!((l.color.r, l.color.g, l.color.b, l.color.a), (0xFF, 0, 0, 0xFF));
    }
}

#[test]
fn side_shading_halves_channels() {
    let mut r = room3();
    let west = r.cast_column(8, 6, 4);
    assert_eq!((west.color.r, west.color.g, west.color.b), (0x80, 0x80, 0x80));
    assert_eq!(west.color.a, 0xFF);
    r.add_rotation(Rotation::new(0, FP_ONE).unwrap());
    let north = r.cast_column(8, 6, 4);
    assert_eq!((north.color.r, north.color.g, north.color.b), (0x40, 0x40, 0x40));
    assert_eq!(north.color.a, 0xFF);
}

#[test]
fn seam_rows_show_background() {
    let r = room5();
    let mut frame = vec![0u8; 4 * WIDTH * HEIGHT];
    r.render_frame(&mut frame, WIDTH, HEIGHT);
    let bg = [0x30u8, 0x2c, 0x2e, 0xff];
    let wall = [0xFFu8, 0x00, 0x00, 0xFF];
    for x in [0usize, 7, 319] {
        let at = |y: usize| {
            let i = 4 * (y * WIDTH + x);
            [frame[i], frame[i + 1], frame[i + 2], frame[i + 3]]
        };
        assert_eq!(at(30), bg);
        assert_eq!(at(31), wall);
        assert_eq!(at(149), wall);
        assert_eq!(at(150), bg);
    }
}

#[test]
fn small_room_end_to_end() {
    // 3x3 map, solid border, camera at the center facing west: every column
    // terminates at distance 0.5 on the west wall and all slices agree.
    let r = room3();
    for x in 0..8usize {
        let l = r.cast_column(8, 6, x);
        assert_eq!(l.start, 0);
        assert_eq!(l.end, 5);
    }
    let mut frame = vec![0u8; 4 * 8 * 6];
    r.render_frame(&mut frame, 8, 6);
    for x in 0..8usize {
        for y in 0..6usize {
            let i = 4 * (y * 8 + x);
            let px = [frame[i], frame[i + 1], frame[i + 2], frame[i + 3]];
            if y == 0 || y == 5 {
                assert_eq!(px, [0x30, 0x2c, 0x2e, 0xff]);
            } else {
                assert_eq!(px, [0x80, 0x80, 0x80, 0xFF]);
            }
        }
    }
}

#[test]
fn escaped_ray_renders_background() {
    let r = Renderer::new(vec![0u32; 9], 3, 3);
    let l = r.cast_column(8, 6, 4);
    assert_eq!(l.start, 0);
    assert_eq!(l.end, 0);
    let mut frame = vec![0u8; 4 * 8 * 6];
    r.render_frame(&mut frame, 8, 6);
    for i in 0..48usize {
        assert_eq!([frame[4 * i], frame[4 * i + 1], frame[4 * i + 2], frame[4 * i + 3]], [
            0x30, 0x2c, 0x2e, 0xff
        ]);
    }
}

#[test]
fn wall_boundary_camera_fills_column() {
    let mut r = room3();
    r.set_position(Vec2 { x: FP_ONE, y: 3 * FP_ONE / 2 });
    let l = r.cast_column(8, 6, 4);
    assert_eq!(l.start, 0);
    assert_eq!(l.end, 5);
}

#[test]
fn render_matches_render_frame_dimensions() {
    let mut r = room5();
    let mut frame = vec![0u8; 4 * WIDTH * HEIGHT];
    r.render(&mut frame);
    let i = 4 * (90 * WIDTH + 160);
    assert_eq!([frame[i], frame[i + 1], frame[i + 2], frame[i + 3]], [0xFF, 0, 0, 0xFF]);
}

#[test]
fn ui_overlay_covers_lower_band() {
    let ui = UI;
    let mut frame = vec![0u8; 4 * WIDTH * HEIGHT];
    ui.render(&mut frame);
    let row30 = 4 * (30 * WIDTH + 5);
    assert_eq!(frame[row30], 0);
    let row31 = 4 * (31 * WIDTH + 5);
    assert_eq!(
        [frame[row31], frame[row31 + 1], frame[row31 + 2], frame[row31 + 3]],
        [0x4f, 0x54, 0x6b, 0xff]
    );
    let last = 4 * (179 * WIDTH + 319);
    assert_eq!(frame[last], 0x4f);
}

#[test]
fn map_from_bytes_builds_big_endian_cells() {
    let bytes = vec![0xAAu8, 0xBB, 0xCC, 0xDD, 0x00, 0x00, 0x00, 0x01, 0x99];
    let cells = map_from_bytes(&bytes);
    assert_eq!(cells, vec![0xAABBCCDDu32, 1]);
}
