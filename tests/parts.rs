use mesh_builder::catalog::{GeometryCatalog, PaletteEntry, PaletteRecord};
use mesh_builder::encode::{encode_normal, encode_position, push_group, round_fix, select_index_buffer, IndexBuffer, MaterialGroup};
use mesh_builder::greedy::quad_vertices;
use mesh_builder::rects::{greedy_rectangles, Rect};
use mesh_builder::visibility::is_flush;
use mesh_builder::FaceDir;

#[test]
fn position_quantization_round_trips() {
    for p in [-31.99f32, -7.25, -0.5, 0.0, 0.3, 1.0, 12.345, 31.99] {
        let fixed = (p * 65536.0).round() as i64;
        let q = encode_position(fixed);
        assert!((q as f32 / 1024.0 - p).abs() <= 1.0 / 1024.0, "{p}");
    }
    assert_eq!(encode_position(65536 + 32768), 1536);
    assert_eq!(encode_position(-96), -2);
    assert_eq!(encode_position(32), 1);
    assert_eq!(encode_position(31), 0);
    assert_eq!(encode_position(40 * 65536), i16::MAX);
    assert_eq!(encode_position(-40 * 65536), i16::MIN);
}

#[test]
fn normal_quantization() {
    assert_eq!(encode_normal(65536), 127);
    assert_eq!(encode_normal(-65536), -127);
    assert_eq!(encode_normal(32768), 64);
    assert_eq!(encode_normal(0), 0);
    assert_eq!(encode_normal(i32::MAX), 127);
    assert_eq!(encode_normal(i32::MIN), -128);
    assert_eq!(round_fix(32768), 1);
    assert_eq!(round_fix(-32768), -1);
    assert_eq!(round_fix(32767), 0);
}

#[test]
fn index_width_at_the_boundary() {
    let idx = vec![0u32, 5, 65534];
    assert!(matches!(select_index_buffer(&idx, 65535), IndexBuffer::U16(v) if v == vec![0u16, 5, 65534]));
    assert!(matches!(select_index_buffer(&idx, 65536), IndexBuffer::U32(v) if v == idx));
}

#[test]
fn groups_coalesce_runs_of_one_material() {
    let mut gs: Vec<MaterialGroup> = Vec::new();
    push_group(&mut gs, 0, 6, 1);
    push_group(&mut gs, 6, 3, 1);
    push_group(&mut gs, 9, 3, 2);
    push_group(&mut gs, 12, 6, 1);
    let got: Vec<(u32, u32, u32)> = gs.iter().map(|g| (g.start, g.count, g.material_index)).collect();
    assert_eq!(got, vec![(0, 9, 1), (9, 3, 2), (12, 6, 1)]);
}

#[test]
fn direction_tables() {
    let dirs = [FaceDir::PosX, FaceDir::NegX, FaceDir::PosY, FaceDir::NegY, FaceDir::PosZ, FaceDir::NegZ];
    let own: Vec<u32> = dirs.iter().map(|d| d.occlusion_face_index()).collect();
    let opp: Vec<u32> = dirs.iter().map(|d| d.opposite_occlusion_index()).collect();
    assert_eq!(own, vec![1, 0, 3, 2, 5, 4]);
    assert_eq!(opp, vec![0, 1, 2, 3, 4, 5]);
    assert_eq!(FaceDir::NegZ.delta(), (0, 0, -1));
    assert_eq!(FaceDir::PosY.normal(), (0, 127, 0));
    assert_eq!(FaceDir::from_delta(0, -1, 0), Some(FaceDir::NegY));
    assert_eq!(FaceDir::from_delta(1, 1, 0), None);
    for (i, d) in dirs.iter().enumerate() {
        assert_eq!(FaceDir::from_index(i), *d);
    }
}

#[test]
fn greedy_rectangles_scan_in_row_order() {
    // row 0: X X .   row 1: X X X
    let mask = vec![true, true, false, true, true, true];
    let r = greedy_rectangles(mask, 3, 2);
    assert_eq!(
        r,
        vec![Rect { u: 0, v: 0, width: 2, height: 2 }, Rect { u: 2, v: 1, width: 1, height: 1 }]
    );
    // width is preferred over height: a 2x2 block with an extra cell below
    let mask = vec![true, true, true, true, true, false];
    let r = greedy_rectangles(mask, 2, 3);
    assert_eq!(
        r,
        vec![Rect { u: 0, v: 0, width: 2, height: 2 }, Rect { u: 0, v: 2, width: 1, height: 1 }]
    );
    assert!(greedy_rectangles(vec![false; 4], 2, 2).is_empty());
    assert_eq!(greedy_rectangles(vec![true; 12], 4, 3), vec![Rect { u: 0, v: 0, width: 4, height: 3 }]);
}

#[test]
fn quad_corner_table() {
    assert_eq!(quad_vertices(FaceDir::PosY, 1, 2, 3, 4, 5), ((1, 3, 3), (1, 3, 8), (5, 3, 8), (5, 3, 3)));
    assert_eq!(quad_vertices(FaceDir::NegX, 0, 0, 0, 2, 3), ((0, 0, 0), (0, 0, 3), (0, 2, 3), (0, 2, 0)));
    assert_eq!(quad_vertices(FaceDir::PosZ, 0, 0, 0, 2, 3), ((0, 0, 1), (2, 0, 1), (2, 3, 1), (0, 3, 1)));
    assert_eq!(quad_vertices(FaceDir::PosX, 0, 0, 0, 2, 3), ((1, 0, 0), (1, 2, 0), (1, 2, 3), (1, 0, 3)));
}

fn cross(a: (i64, i64, i64), b: (i64, i64, i64)) -> (i64, i64, i64) {
    (a.1 * b.2 - a.2 * b.1, a.2 * b.0 - a.0 * b.2, a.0 * b.1 - a.1 * b.0)
}

fn sub(a: (i64, i64, i64), b: (i64, i64, i64)) -> (i64, i64, i64) {
    (a.0 - b.0, a.1 - b.1, a.2 - b.2)
}

#[test]
fn quads_wind_counter_clockwise_seen_from_outside() {
    let dirs = [FaceDir::PosX, FaceDir::NegX, FaceDir::PosY, FaceDir::NegY, FaceDir::PosZ, FaceDir::NegZ];
    for d in dirs {
        let (w, h) = (2, 5);
        let (c0, c1, c2, c3) = quad_vertices(d, 7, -3, 4, w, h);
        let (nx, ny, nz) = d.delta();
        let area = (w * h * nx as i64, w * h * ny as i64, w * h * nz as i64);
        assert_eq!(cross(sub(c1, c0), sub(c2, c0)), area, "{d:?}");
        assert_eq!(cross(sub(c2, c0), sub(c3, c0)), area, "{d:?}");
    }
}

#[test]
fn flush_planes() {
    assert!(is_flush(65536, FaceDir::PosX));
    assert!(is_flush(65536 - 655, FaceDir::PosY));
    assert!(!is_flush(65536 - 656, FaceDir::PosY));
    assert!(is_flush(32768, FaceDir::PosZ));
    assert!(is_flush(0, FaceDir::NegX));
    assert!(is_flush(32768, FaceDir::NegY));
    assert!(!is_flush(65536, FaceDir::NegZ));
    assert!(!is_flush(0, FaceDir::PosX));
}

#[test]
fn catalog_update_applies_defaults_and_last_record_wins() {
    let mut c = GeometryCatalog::new();
    c.update(vec![
        PaletteRecord { index: 2, occlusion_flags: None, category: None, geometries: vec![] },
        PaletteRecord { index: 0, occlusion_flags: Some(5), category: Some("water".to_string()), geometries: vec![] },
        PaletteRecord { index: 0, occlusion_flags: Some(9), category: Some("glass".to_string()), geometries: vec![] },
    ]);
    assert_eq!(c.entries.len(), 3);
    let e2 = c.entries[2].as_ref().unwrap();
    assert_eq!(e2.occlusion_flags, 0);
    assert_eq!(e2.category, "solid");
    assert!(c.entries[1].is_none());
    let e0 = c.entries[0].as_ref().unwrap();
    assert_eq!((e0.occlusion_flags, e0.category.as_str()), (9, "glass"));
    assert!(c.entry(1).is_none());
    assert!(c.entry(-1).is_none());
    assert!(c.entry(3).is_none());
    c.update(vec![]);
    assert!(c.entries.is_empty());
}

#[test]
fn palette_entry_counts_vertices() {
    let e = PaletteEntry::new(4, 63, vec![0; 9], vec![], vec![], vec![0, 1, 2], 7);
    assert_eq!((e.index, e.occlusion_flags, e.material_index, e.vertex_count), (4, 63, 7, 3));
}
