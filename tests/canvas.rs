use window_framework::{Canvas, CanvasError, CoordinateSystem, Rgba};

const RED: Rgba = (255, 0, 0, 255);
const BLUE: Rgba = (0, 0, 255, 255);
const BLACK: Rgba = (0, 0, 0, 0);

fn px(buf: &[u8], width: usize, x: usize, y: usize) -> Rgba {
    let i = (y * width + x) * 4;
    (buf[i], buf[i + 1], buf[i + 2], buf[i + 3])
}

#[test]
fn new_rejects_wrong_buffer_length() {
    let mut buf = vec![0u8; 4 * 4 * 4 - 1];
    let r = Canvas::new(&mut buf, 4, 4, 4, 4, CoordinateSystem::TopLeft, false, BLACK);
    assert!(matches!(r, Err(CanvasError::BufferLength)));
    let mut buf = vec![0u8; 4 * 4 * 4 + 4];
    let r = Canvas::new(&mut buf, 4, 4, 4, 4, CoordinateSystem::TopLeft, false, BLACK);
    assert!(matches!(r, Err(CanvasError::BufferLength)));
}

#[test]
fn new_rejects_zero_logical_size() {
    let mut buf = vec![0u8; 4 * 4 * 4];
    let r = Canvas::new(&mut buf, 4, 4, 0, 4, CoordinateSystem::TopLeft, false, BLACK);
    assert!(matches!(r, Err(CanvasError::ZeroLogicalSize)));
    let r = Canvas::new(&mut buf, 4, 4, 4, 0, CoordinateSystem::TopLeft, false, BLACK);
    assert!(matches!(r, Err(CanvasError::ZeroLogicalSize)));
}

#[test]
fn new_reports_length_before_zero_size() {
    let mut buf = vec![0u8; 3];
    let r = Canvas::new(&mut buf, 4, 4, 0, 0, CoordinateSystem::TopLeft, false, BLACK);
    assert!(matches!(r, Err(CanvasError::BufferLength)));
}

#[test]
fn accessors_report_logical_size_and_system() {
    let mut buf = vec![0u8; 8 * 6 * 4];
    let c = Canvas::new(&mut buf, 8, 6, 4, 3, CoordinateSystem::Center, false, BLACK).unwrap();
    assert_eq!(c.width(), 4);
    assert_eq!(c.height(), 3);
    assert_eq!(c.coordinate_system(), CoordinateSystem::Center);
    assert_eq!(CoordinateSystem::default(), CoordinateSystem::TopLeft);
}

#[test]
fn set_then_get_round_trips() {
    for system in [CoordinateSystem::TopLeft, CoordinateSystem::Center] {
        let mut buf = vec![0u8; 6 * 4 * 4];
        let mut c = Canvas::new(&mut buf, 6, 4, 3, 2, system, false, BLACK).unwrap();
        let points: Vec<(i32, i32)> = match system {
            CoordinateSystem::TopLeft => vec![(0, 0), (2, 1), (1, 0)],
            CoordinateSystem::Center => vec![(0, 0), (-1, 1), (1, 0)],
        };
        for (k, &(x, y)) in points.iter().enumerate() {
            let color = (k as u8 + 1, 2, 3, 4);
            assert!(c.set_pixel(x, y, color));
            assert_eq!(c.get_pixel(x, y), Some(color));
        }
    }
}

#[test]
fn set_pixel_outside_is_clipped() {
    let mut buf = vec![7u8; 4 * 4 * 4];
    let before = buf.clone();
    {
        let mut c = Canvas::new(&mut buf, 4, 4, 4, 4, CoordinateSystem::TopLeft, false, BLACK).unwrap();
        for &(x, y) in &[(-1, 0), (0, -1), (4, 0), (0, 4), (i32::MAX, i32::MAX), (i32::MIN, 0)] {
            assert!(!c.set_pixel(x, y, RED));
            assert_eq!(c.get_pixel(x, y), None);
        }
    }
    assert_eq!(buf, before);
    let mut buf = vec![7u8; 4 * 4 * 4];
    {
        let mut c = Canvas::new(&mut buf, 4, 4, 4, 4, CoordinateSystem::Center, false, BLACK).unwrap();
        // Center of a 4x4 grid is (2, 2): x reaches -2..=1, y reaches -1..=2.
        for &(x, y) in &[(-3, 0), (2, 0), (0, 3), (0, -2), (i32::MAX, 0), (0, i32::MIN)] {
            assert!(!c.set_pixel(x, y, RED));
        }
        assert!(c.set_pixel(-2, 2, RED));
        assert!(c.set_pixel(1, -1, RED));
    }
    assert_eq!(px(&buf, 4, 0, 0), RED);
    assert_eq!(px(&buf, 4, 3, 3), RED);
}

#[test]
fn top_left_corners_map_to_first_and_last_pixel() {
    let (w, h) = (5usize, 3usize);
    let mut buf = vec![0u8; w * h * 4];
    {
        let mut c = Canvas::new(&mut buf, w as u32, h as u32, w as u32, h as u32, CoordinateSystem::TopLeft, false, BLACK).unwrap();
        assert!(c.set_pixel(0, 0, RED));
        assert!(c.set_pixel(w as i32 - 1, h as i32 - 1, BLUE));
    }
    assert_eq!(&buf[0..4], &[255, 0, 0, 255]);
    assert_eq!(&buf[buf.len() - 4..], &[0, 0, 255, 255]);
    assert!(buf[4..buf.len() - 4].iter().all(|&b| b == 0));
}

#[test]
fn center_transform_ten_by_ten() {
    let mut buf = vec![0u8; 10 * 10 * 4];
    {
        let mut c = Canvas::new(&mut buf, 10, 10, 10, 10, CoordinateSystem::Center, false, BLACK).unwrap();
        assert!(c.set_pixel(0, 0, RED));
    }
    assert_eq!(px(&buf, 10, 5, 5), RED);
    assert_eq!(buf.iter().filter(|&&b| b != 0).count(), 2);

    let mut buf = vec![0u8; 10 * 10 * 4];
    {
        let mut c = Canvas::new(&mut buf, 10, 10, 10, 10, CoordinateSystem::Center, false, BLACK).unwrap();
        assert!(c.set_pixel(1, 1, BLUE));
    }
    assert_eq!(px(&buf, 10, 6, 4), BLUE);
    assert_eq!(buf.iter().filter(|&&b| b != 0).count(), 2);
}

#[test]
fn clear_sets_every_physical_pixel() {
    for system in [CoordinateSystem::TopLeft, CoordinateSystem::Center] {
        let mut buf: Vec<u8> = (0..64).map(|i| i as u8).collect();
        {
            let mut c = Canvas::new(&mut buf, 4, 4, 2, 2, system, false, BLACK).unwrap();
            c.clear((1, 2, 3, 4));
        }
        for y in 0..4 {
            for x in 0..4 {
                assert_eq!(px(&buf, 4, x, y), (1, 2, 3, 4));
            }
        }
    }
}

#[test]
fn clear_covers_pixels_a_truncated_grid_leaves_out() {
    let mut buf = vec![9u8; 5 * 3 * 4];
    {
        let mut c = Canvas::new(&mut buf, 5, 3, 2, 2, CoordinateSystem::TopLeft, false, BLACK).unwrap();
        c.clear(RED);
    }
    assert!(buf.chunks(4).all(|p| p == [255, 0, 0, 255]));
}

#[test]
fn scaled_set_pixel_fills_block() {
    let mut buf = vec![0u8; 4 * 4 * 4];
    {
        let mut c = Canvas::new(&mut buf, 4, 4, 2, 2, CoordinateSystem::TopLeft, false, BLACK).unwrap();
        assert!(c.set_pixel(0, 0, RED));
    }
    for y in 0..4 {
        for x in 0..4 {
            let expected = if x < 2 && y < 2 { RED } else { BLACK };
            assert_eq!(px(&buf, 4, x, y), expected, "pixel ({x}, {y})");
        }
    }
}

#[test]
fn get_pixel_reads_top_left_of_block() {
    let mut buf = vec![0u8; 4 * 4 * 4];
    buf[(1 * 4 + 3) * 4] = 99; // physical (3, 1), inside logical (1, 0), not its top-left
    let c = Canvas::new(&mut buf, 4, 4, 2, 2, CoordinateSystem::TopLeft, false, BLACK).unwrap();
    assert_eq!(c.get_pixel(1, 0), Some(BLACK));
}

#[test]
fn grid_drawn_over_world_pixels() {
    let grid: Rgba = (255, 255, 255, 255);
    let mut buf = vec![0u8; 4 * 4 * 4];
    {
        let mut c = Canvas::new(&mut buf, 4, 4, 2, 2, CoordinateSystem::TopLeft, true, grid).unwrap();
        c.clear(RED);
        c.fill_rect(0, 0, 2, 2, BLUE);
        c.draw_grid();
    }
    for y in 0..4 {
        for x in 0..4 {
            let on_line = x == 0 || x == 2 || y == 0 || y == 2;
            let expected = if on_line { grid } else { BLUE };
            assert_eq!(px(&buf, 4, x, y), expected, "pixel ({x}, {y})");
        }
    }
}

#[test]
fn grid_with_one_scale_above_one() {
    let grid: Rgba = (1, 1, 1, 1);
    let mut buf = vec![0u8; 4 * 2 * 4];
    {
        // scale 2 along X, 1 along Y
        let mut c = Canvas::new(&mut buf, 4, 2, 2, 2, CoordinateSystem::TopLeft, true, grid).unwrap();
        c.draw_grid();
    }
    // every row is a boundary when the Y scale is 1
    assert!(buf.chunks(4).all(|p| p == [1, 1, 1, 1]));
}

#[test]
fn grid_is_noop_when_hidden_or_unscaled() {
    let grid: Rgba = (1, 1, 1, 1);
    let mut buf = vec![5u8; 4 * 4 * 4];
    {
        let mut c = Canvas::new(&mut buf, 4, 4, 2, 2, CoordinateSystem::TopLeft, false, grid).unwrap();
        c.draw_grid();
    }
    assert!(buf.iter().all(|&b| b == 5));
    {
        let mut c = Canvas::new(&mut buf, 4, 4, 4, 4, CoordinateSystem::TopLeft, true, grid).unwrap();
        c.draw_grid();
    }
    assert!(buf.iter().all(|&b| b == 5));
}

#[test]
fn grid_lines_only_at_block_boundaries_with_remainder() {
    let grid: Rgba = (1, 1, 1, 1);
    // 7 physical columns, 3 logical: scale 2, lines at 0, 2, 4, 6
    let mut buf = vec![0u8; 7 * 2 * 4];
    {
        let mut c = Canvas::new(&mut buf, 7, 2, 3, 1, CoordinateSystem::TopLeft, true, grid).unwrap();
        c.draw_grid();
    }
    for y in 0..2 {
        for x in 0..7 {
            let expected = if x % 2 == 0 || y == 0 { grid } else { BLACK };
            assert_eq!(px(&buf, 7, x, y), expected, "pixel ({x}, {y})");
        }
    }
}

#[test]
fn fill_rect_equals_individual_set_pixels() {
    let cases: [(i32, i32, u32, u32); 4] = [(1, 1, 3, 2), (-2, -1, 4, 3), (4, 3, 5, 5), (0, 0, 0, 3)];
    for system in [CoordinateSystem::TopLeft, CoordinateSystem::Center] {
        for &(x, y, w, h) in &cases {
            let mut filled: Vec<u8> = (0..6 * 4 * 4).map(|i| i as u8).collect();
            let mut forward = filled.clone();
            let mut backward = filled.clone();
            {
                let mut c = Canvas::new(&mut filled, 6, 4, 6, 4, system, false, BLACK).unwrap();
                c.fill_rect(x, y, w, h, RED);
            }
            {
                let mut c = Canvas::new(&mut forward, 6, 4, 6, 4, system, false, BLACK).unwrap();
                for dy in 0..h as i32 {
                    for dx in 0..w as i32 {
                        c.set_pixel(x + dx, y + dy, RED);
                    }
                }
            }
            {
                let mut c = Canvas::new(&mut backward, 6, 4, 6, 4, system, false, BLACK).unwrap();
                for dx in (0..w as i32).rev() {
                    for dy in (0..h as i32).rev() {
                        c.set_pixel(x + dx, y + dy, RED);
                    }
                }
            }
            assert_eq!(filled, forward);
            assert_eq!(filled, backward);
        }
    }
}

#[test]
fn fill_rect_anchors_top_left_in_center_system() {
    let mut buf = vec![0u8; 4 * 4 * 4];
    {
        let mut c = Canvas::new(&mut buf, 4, 4, 4, 4, CoordinateSystem::Center, false, BLACK).unwrap();
        // logical (0, 0) is buffer (2, 2); y + dy grows upward
        c.fill_rect(0, 0, 2, 2, RED);
    }
    for y in 0..4 {
        for x in 0..4 {
            let expected = if (x == 2 || x == 3) && (y == 2 || y == 1) { RED } else { BLACK };
            assert_eq!(px(&buf, 4, x, y), expected, "pixel ({x}, {y})");
        }
    }
}

#[test]
fn fill_rect_clips_at_extreme_coordinates() {
    let mut buf = vec![0u8; 3 * 3 * 4];
    {
        let mut c = Canvas::new(&mut buf, 3, 3, 3, 3, CoordinateSystem::TopLeft, false, BLACK).unwrap();
        c.fill_rect(i32::MAX - 1, 0, 4, 1, RED);
        c.fill_rect(-2, -2, 3, 3, BLUE);
    }
    assert_eq!(px(&buf, 3, 0, 0), BLUE);
    assert_eq!(buf.iter().filter(|&&b| b != 0).count(), 2);
}

#[test]
fn logical_grid_finer_than_frame_writes_nothing() {
    // 2x2 physical, 4x4 logical: the scale truncates to 0
    let mut buf = vec![3u8; 2 * 2 * 4];
    {
        let mut c = Canvas::new(&mut buf, 2, 2, 4, 4, CoordinateSystem::TopLeft, false, BLACK).unwrap();
        assert!(c.set_pixel(3, 3, RED));
        assert_eq!(c.get_pixel(3, 3), Some((3, 3, 3, 3)));
    }
    assert!(buf.iter().all(|&b| b == 3));
}
