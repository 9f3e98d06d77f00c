use superview::filter::{render_map, superview_width, x_map_value, Axis, FilterConfig};

fn text(bytes: Vec<u8>) -> String {
    String::from_utf8(bytes).unwrap()
}

fn cfg(width: u32, height: u32, target_width: u32) -> FilterConfig {
    FilterConfig { width, height, target_width }
}

#[test]
fn same_width_x_map_is_identity() {
    let c = cfg(8, 2, 8);
    assert_eq!(text(render_map(&c, Axis::X)), "P2 8 2 65535\n0 1 2 3 4 5 6 7 \n0 1 2 3 4 5 6 7 \n");
    let c = cfg(1920, 1, 1920);
    for x in 0..1920u32 {
        assert_eq!(x_map_value(&c, x), x as i64);
    }
}

#[test]
fn y_map_passes_row_index() {
    let c = cfg(2, 3, 4);
    assert_eq!(text(render_map(&c, Axis::Y)), "P2 4 3 65535\n0 0 0 0 \n1 1 1 1 \n2 2 2 2 \n");
}

#[test]
fn x_map_exact_values_when_widening() {
    let c = cfg(4, 1, 8);
    let row: Vec<i64> = (0..8u32).map(|x| x_map_value(&c, x)).collect();
    assert_eq!(row, vec![0, 0, 0, 1, 2, 2, 3, 3]);
    assert_eq!(text(render_map(&c, Axis::X)), "P2 8 1 65535\n0 0 0 1 2 2 3 3 \n");
}

#[test]
fn x_map_truncates_toward_zero_and_may_be_negative() {
    // unrounded value -7.82
    assert_eq!(x_map_value(&cfg(1, 1, 100), 10), -7);
    // unrounded value -0.3125 truncates to 0, not -1
    assert_eq!(x_map_value(&cfg(2, 1, 8), 1), 0);
    let t = text(render_map(&cfg(1, 1, 100), Axis::X));
    assert!(t.contains(" -7 "));
}

#[test]
fn x_map_narrower_target_is_kept() {
    let c = cfg(8, 1, 4);
    let row: Vec<i64> = (0..4u32).map(|x| x_map_value(&c, x)).collect();
    assert_eq!(row, vec![0, 2, 4, 5]);
}

#[test]
fn x_map_mirror_columns_sum_to_source_width() {
    let c = cfg(1920, 1, 2560);
    for x in 1..2560u32 {
        let s = x_map_value(&c, x) + x_map_value(&c, 2560 - x);
        assert!(s == 1920 || s == 1919, "x = {}", x);
    }
}

#[test]
fn image_layout_matches_dimensions() {
    let c = cfg(5, 3, 6);
    for axis in [Axis::X, Axis::Y] {
        let t = text(render_map(&c, axis));
        let mut lines = t.split('\n');
        assert_eq!(lines.next().unwrap(), "P2 6 3 65535");
        let rows: Vec<&str> = lines.collect();
        assert_eq!(rows.len(), 4);
        assert_eq!(rows[3], "");
        for r in &rows[..3] {
            let values: Vec<i64> = r.split_whitespace().map(|v| v.parse().unwrap()).collect();
            assert_eq!(values.len(), 6);
        }
    }
}

#[test]
fn target_width_for_1920_is_2560() {
    assert_eq!(superview_width(1920), 2560);
    let c = FilterConfig::for_source(1920, 1080);
    assert_eq!((c.width, c.height, c.target_width), (1920, 1080, 2560));
    for axis in [Axis::X, Axis::Y] {
        let t = text(render_map(&c, axis));
        let mut lines = t.lines();
        assert_eq!(lines.next().unwrap(), "P2 2560 1080 65535");
        let rows: Vec<&str> = lines.collect();
        assert_eq!(rows.len(), 1080);
        assert!(rows.iter().all(|r| r.split_whitespace().count() == 2560));
    }
}

#[test]
fn target_width_rounds_down_to_even() {
    assert_eq!(superview_width(1440), 1920);
    assert_eq!(superview_width(1000), 1332);
    assert_eq!(superview_width(3), 4);
    assert_eq!(superview_width(1), 0);
    assert_eq!(superview_width(0), 0);
    assert_eq!(superview_width(u32::MAX), 4294967294);
}

#[test]
fn empty_maps_have_header_only() {
    assert_eq!(text(render_map(&cfg(0, 0, 0), Axis::X)), "P2 0 0 65535\n");
    assert_eq!(text(render_map(&cfg(4, 2, 0), Axis::Y)), "P2 0 2 65535\n\n\n");
}
