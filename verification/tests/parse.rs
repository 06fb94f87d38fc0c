use softraster::fixed::SCALE;
use softraster::parser::{parse_obj, ParseError};
use softraster::raster::draw_triangles;
use softraster::vector::{ColoredTriangle, Model, Transform, Vector3};
use softraster::RGBA;

#[test]
fn parse_obj_reads_vertices_and_faces() {
    let src = "v 0.5 -0.25 1\nv 1 2 3\nv -1 -2 -3\nf 1 2 3\n";
    let tris = parse_obj(src).unwrap();
    assert_eq!(tris.len(), 1);
    let t = &tris[0];
    assert_eq!(t.a.x, SCALE / 2);
    assert_eq!(t.a.y, -SCALE / 4);
    assert_eq!(t.a.z, SCALE);
    assert_eq!(t.b.x, SCALE);
    assert_eq!(t.b.y, 2 * SCALE);
    assert_eq!(t.b.z, 3 * SCALE);
    assert_eq!(t.c.x, -SCALE);
    assert_eq!(t.c.y, -2 * SCALE);
    assert_eq!(t.c.z, -3 * SCALE);
}

#[test]
fn parse_obj_takes_index_before_slash() {
    let src = "v 1 0 0\nv 0 1 0\nv 0 0 1\nf 1/4/7 2/5/8 3/6/9\n";
    let tris = parse_obj(src).unwrap();
    assert_eq!(tris.len(), 1);
    assert_eq!(tris[0].a.x, SCALE);
    assert_eq!(tris[0].b.y, SCALE);
    assert_eq!(tris[0].c.z, SCALE);
}

#[test]
fn parse_obj_skips_unrelated_lines() {
    let src = "# a comment\nvt 0.1 0.2\nvn 0 0 1\nv 1 1 1\n\nv 1 1\nv 1 1 1 1\ns off\n";
    let tris = parse_obj(src).unwrap();
    assert_eq!(tris.len(), 0);
}

#[test]
fn parse_obj_empty_input() {
    let tris = parse_obj("").unwrap();
    assert_eq!(tris.len(), 0);
}

#[test]
fn parse_obj_crlf_lines() {
    let src = "v 1 0 0\r\nv 0 1 0\r\nv 0 0 1\r\nf 1 2 3\r\n";
    let tris = parse_obj(src).unwrap();
    assert_eq!(tris.len(), 1);
}

#[test]
fn bad_face_index_aborts_construction() {
    // A face that references a vertex that was never read must abort,
    // not substitute a default vertex.
    let src = "v 0 0 0\nv 1 0 0\nf 1 2 3\n";
    assert_eq!(parse_obj(src), Err(ParseError::InvalidFaceIndex));
}

#[test]
fn face_index_zero_aborts_construction() {
    let src = "v 0 0 0\nv 1 0 0\nv 0 1 0\nf 0 1 2\n";
    assert_eq!(parse_obj(src), Err(ParseError::InvalidFaceIndex));
}

#[test]
fn bad_vertex_number_aborts_construction() {
    let src = "v x y z\n";
    assert_eq!(parse_obj(src), Err(ParseError::InvalidVertex));
}

#[test]
fn vertex_out_of_range_aborts_construction() {
    // Beyond the library's coordinate range (2^24 world units).
    let src = "v 99999999 0 0\n";
    assert_eq!(parse_obj(src), Err(ParseError::InvalidVertex));
}

#[test]
fn error_after_valid_lines_still_aborts() {
    let src = "v 1 0 0\nv 0 1 0\nv 0 0 1\nf 1 2 3\nv bad 0 0\n";
    assert_eq!(parse_obj(src), Err(ParseError::InvalidVertex));
}

#[test]
fn parse_transform_draw_pipeline() {
    let black = RGBA { r: 0, g: 0, b: 0, a: 255 };
    let red = RGBA { r: 255, g: 0, b: 0, a: 255 };
    // A camera-facing square half a unit wide, pushed three units out.
    let src = "v -0.5 -0.5 0\nv 0.5 -0.5 0\nv 0.5 0.5 0\nv -0.5 0.5 0\nf 1 2 3\nf 1 3 4\n";
    let faces = parse_obj(src).unwrap();
    assert_eq!(faces.len(), 2);
    let model = Model {
        triangles: faces
            .into_iter()
            .map(|t| ColoredTriangle { triangle: t, color: red })
            .collect(),
        transform: Transform {
            position: Vector3 { x: 0, y: 0, z: -3 * SCALE },
            direction: Vector3 { x: 0, y: 0, z: 0 },
        },
    };
    let placed = model.apply_transform();
    let mut buf = vec![black; 720 * 720];
    draw_triangles(&mut buf, &placed, 60 * SCALE, 720, 720).unwrap();
    // The square faces the camera; one of the two windings survives
    // culling, so the screen center is painted.
    assert_eq!(buf[360 * 720 + 360], red);
    assert!(buf.iter().filter(|p| **p == red).count() > 1000);
}

#[test]
fn fractional_vertices_truncate_toward_zero() {
    // 0.1 in fixed point: floor(0.1 * 65536) = 6553.
    let tris = parse_obj("v 0.1 -0.1 2.75\nv 0 0 0\nv 0 0 0\nf 1 2 3\n").unwrap();
    assert_eq!(tris[0].a.x, 6553);
    assert_eq!(tris[0].a.y, -6553);
    assert_eq!(tris[0].a.z, 2 * SCALE + 3 * SCALE / 4);
}
