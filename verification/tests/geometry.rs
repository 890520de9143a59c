use embedded_graphics_framebuffer::DeviceGeometry;

fn geometry(width_px: u32, height_px: u32, line_length_bytes: u32, bits_per_pixel: u32) -> DeviceGeometry {
    DeviceGeometry { width_px, height_px, line_length_bytes, bits_per_pixel }
}

#[test]
fn frame_size_is_stride_times_rows() {
    assert_eq!(geometry(4, 2, 16, 32).frame_size(), 32);
    assert_eq!(geometry(1920, 1080, 7680, 32).frame_size(), 8_294_400);
    assert_eq!(geometry(9, 0, 16, 32).frame_size(), 0);
    assert_eq!(geometry(9, 5, 0, 32).frame_size(), 0);
}

#[test]
fn frame_size_of_the_largest_geometry_fits() {
    let size = geometry(1, u32::MAX, u32::MAX, 8).frame_size();
    assert_eq!(size, 18_446_744_065_119_617_025);
}

#[test]
fn locate_gives_the_packed_offset() {
    let four_bytes = geometry(4, 2, 16, 32);
    assert_eq!(four_bytes.locate(0, 0, 32), Some(0));
    assert_eq!(four_bytes.locate(1, 1, 32), Some(20));
    assert_eq!(four_bytes.locate(3, 1, 32), Some(28));
    let three_bytes = geometry(640, 480, 1920, 24);
    assert_eq!(three_bytes.locate(10, 2, 921_600), Some((10 + 2 * 640) * 3));
    let padded = geometry(2, 2, 12, 32);
    assert_eq!(padded.locate(0, 1, 24), Some(8));
}

#[test]
fn locate_drops_points_off_the_surface() {
    let g = geometry(4, 2, 16, 32);
    assert_eq!(g.locate(-1, 0, 32), None);
    assert_eq!(g.locate(0, -1, 32), None);
    assert_eq!(g.locate(4, 0, 32), None);
    assert_eq!(g.locate(0, 2, 32), None);
    assert_eq!(g.locate(i32::MIN, i32::MIN, 32), None);
    assert_eq!(g.locate(i32::MAX, i32::MAX, 32), None);
    assert_eq!(g.locate(0, 0, usize::MAX), Some(0));
    assert_eq!(g.locate(4, 1, usize::MAX), None);
}

#[test]
fn locate_asks_for_three_bytes_inside_the_frame() {
    let g = geometry(4, 2, 16, 32);
    assert_eq!(g.locate(0, 0, 0), None);
    assert_eq!(g.locate(0, 0, 2), None);
    assert_eq!(g.locate(0, 0, 3), Some(0));
    assert_eq!(g.locate(3, 1, 30), None);
    assert_eq!(g.locate(3, 1, 31), Some(28));
}

#[test]
fn locate_on_a_surface_wider_than_any_coordinate() {
    let g = geometry(u32::MAX, u32::MAX, 0, 8);
    assert_eq!(g.locate(i32::MAX, 0, usize::MAX), Some(i32::MAX as usize));
    assert_eq!(g.locate(5, 0, 8), Some(5));
    assert_eq!(g.locate(6, 0, 8), None);
    let deep = geometry(u32::MAX, u32::MAX, 0, u32::MAX);
    assert_eq!(deep.locate(i32::MAX, i32::MAX, usize::MAX), None);
    assert_eq!(deep.locate(0, 0, 3), Some(0));
}

#[test]
fn geometries_compare_by_their_fields() {
    assert_eq!(geometry(4, 2, 16, 32), geometry(4, 2, 16, 32));
    assert_ne!(geometry(4, 2, 16, 32), geometry(4, 2, 16, 24));
}
