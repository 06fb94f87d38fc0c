use softraster::RGBA;
use softraster::fixed::{SCALE, div_trunc, fx_div, fx_mul};
use softraster::raster::{draw_triangles, world_to_screen, RenderError};
use softraster::trig::{cos_fx, sin_fx, PI_FX, TWO_PI_FX};
use softraster::vector::{
    get_quaternion, ColoredTriangle, Model, Transform, Triangle3, Vector2, Vector3,
};

const BLACK: RGBA = RGBA { r: 0, g: 0, b: 0, a: 255 };
const RED: RGBA = RGBA { r: 255, g: 0, b: 0, a: 255 };
const GREEN: RGBA = RGBA { r: 0, g: 255, b: 0, a: 255 };

const FOV60: i64 = 60 * SCALE;

fn buffer(w: usize, h: usize) -> Vec<RGBA> {
    vec![BLACK; w * h]
}

fn v(x: f64, y: f64, z: f64) -> Vector3 {
    Vector3 {
        x: (x * SCALE as f64) as i64,
        y: (y * SCALE as f64) as i64,
        z: (z * SCALE as f64) as i64,
    }
}

fn tri(a: Vector3, b: Vector3, c: Vector3, color: RGBA) -> ColoredTriangle {
    ColoredTriangle { triangle: Triangle3 { a, b, c }, color }
}

#[test]
fn identity_basis_applies_identity() {
    let (i, j, k) = get_quaternion(0, 0);
    assert_eq!((i.x, i.y, i.z), (SCALE, 0, 0));
    assert_eq!((j.x, j.y, j.z), (0, SCALE, 0));
    assert_eq!((k.x, k.y, k.z), (0, 0, SCALE));
    let p = Vector3 { x: 12345, y: -67890, z: 1 << 30 };
    let r = p.transform(&i, &j, &k);
    assert_eq!((r.x, r.y, r.z), (p.x, p.y, p.z));
}

#[test]
fn projection_is_deterministic() {
    let p = v(0.3, -0.4, -2.0);
    let (s1, d1) = world_to_screen(&p, FOV60, 720);
    let (s2, d2) = world_to_screen(&p, FOV60, 720);
    assert_eq!((s1.x, s1.y), (s2.x, s2.y));
    assert_eq!(d1, d2);
}

#[test]
fn projection_centers_origin_ray() {
    // A point straight ahead lands exactly at the screen center and
    // keeps its camera-space z as depth.
    let p = v(0.0, 0.0, -2.0);
    let (s, d) = world_to_screen(&p, FOV60, 720);
    assert_eq!((s.x, s.y), (360, 360));
    assert_eq!(d, -2 * SCALE);
}

#[test]
fn projection_flips_sign_in_front_of_camera() {
    // Dividing by a negative z flips the offsets; mirrored points stay
    // mirrored about the center.
    let (sp, _) = world_to_screen(&v(1.0, 0.5, -2.0), FOV60, 720);
    let (sn, _) = world_to_screen(&v(-1.0, -0.5, -2.0), FOV60, 720);
    assert_eq!(sp.x + sn.x, 720);
    assert_eq!(sp.y + sn.y, 720);
    assert!(sp.x < 360);
    assert!(sp.y > 360);
}

#[test]
fn behind_camera_triangle_writes_nothing() {
    let mut buf = buffer(64, 64);
    let tris = vec![
        tri(v(-0.5, -0.5, 2.0), v(0.5, -0.5, -2.0), v(0.0, 0.5, -2.0), RED),
        tri(v(-0.5, -0.5, 0.0), v(0.5, -0.5, -2.0), v(0.0, 0.5, -2.0), GREEN),
        tri(v(-0.5, -0.5, 1.0), v(0.5, -0.5, 3.0), v(0.0, 0.5, 2.0), RED),
    ];
    draw_triangles(&mut buf, &tris, FOV60, 64, 64).unwrap();
    assert!(buf.iter().all(|p| *p == BLACK));
}

#[test]
fn backfacing_triangle_writes_nothing() {
    // Swapping two vertices makes the projected signed area negative.
    let mut buf = buffer(720, 720);
    let tris = vec![tri(
        v(0.5, -0.5, -2.0),
        v(-0.5, -0.5, -2.0),
        v(0.0, 0.5, -2.0),
        RED,
    )];
    draw_triangles(&mut buf, &tris, FOV60, 720, 720).unwrap();
    assert!(buf.iter().all(|p| *p == BLACK));
}

#[test]
fn nonpositive_fov_aborts_draw() {
    let mut buf = buffer(16, 16);
    let tris = vec![tri(v(-0.5, -0.5, -2.0), v(0.5, -0.5, -2.0), v(0.0, 0.5, -2.0), RED)];
    assert_eq!(
        draw_triangles(&mut buf, &tris, 0, 16, 16),
        Err(RenderError::NonPositiveFov)
    );
    assert_eq!(
        draw_triangles(&mut buf, &tris, -FOV60, 16, 16),
        Err(RenderError::NonPositiveFov)
    );
    assert!(buf.iter().all(|p| *p == BLACK));
}

#[test]
fn triangle_fill_matches_projected_area() {
    // The scenario triangle: expect a filled region whose pixel count
    // matches the projected area and whose centroid sits at the
    // projected centroid, centered horizontally.
    let a = v(-0.5, -0.5, -2.0);
    let b = v(0.5, -0.5, -2.0);
    let c = v(0.0, 0.5, -2.0);
    let mut buf = buffer(720, 720);
    let tris = vec![tri(a, b, c, RED)];
    draw_triangles(&mut buf, &tris, FOV60, 720, 720).unwrap();

    let (sa, _) = world_to_screen(&a, FOV60, 720);
    let (sb, _) = world_to_screen(&b, FOV60, 720);
    let (sc, _) = world_to_screen(&c, FOV60, 720);
    let double_area = ((sc.x - sa.x) as i64) * ((sb.y - sa.y) as i64)
        - ((sc.y - sa.y) as i64) * ((sb.x - sa.x) as i64);
    assert!(double_area > 0);
    let expected = double_area / 2;

    let mut count: i64 = 0;
    let mut sum_x: i64 = 0;
    let mut sum_y: i64 = 0;
    for y in 0..720usize {
        for x in 0..720usize {
            if buf[y * 720 + x] == RED {
                count += 1;
                sum_x += x as i64;
                sum_y += y as i64;
            }
        }
    }
    // Pixel count within the perimeter's worth of the analytic area.
    assert!((count - expected).abs() < 1200, "count {count} expected {expected}");
    let cx = sum_x / count;
    let cy = sum_y / count;
    let ecx = ((sa.x + sb.x + sc.x) / 3) as i64;
    let ecy = ((sa.y + sb.y + sc.y) / 3) as i64;
    assert!((cx - ecx).abs() <= 4, "cx {cx} expected {ecx}");
    assert!((cy - ecy).abs() <= 4, "cy {cy} expected {ecy}");
    // Near the screen center: exactly centered horizontally, above it
    // vertically by about a sixth of the screen.
    assert!((cx - 360).abs() <= 4);
    assert!((cy - 360).abs() <= 60);
}

#[test]
fn nearer_triangle_wins_either_order() {
    let near = tri(v(-0.3, -0.3, -2.0), v(0.3, -0.3, -2.0), v(0.0, 0.3, -2.0), GREEN);
    let far = tri(v(-0.8, -0.8, -3.0), v(0.8, -0.8, -3.0), v(0.0, 0.8, -3.0), RED);

    let mut buf1 = buffer(720, 720);
    draw_triangles(&mut buf1, &vec![far.clone(), near.clone()], FOV60, 720, 720).unwrap();
    let mut buf2 = buffer(720, 720);
    draw_triangles(&mut buf2, &vec![near, far], FOV60, 720, 720).unwrap();

    assert_eq!(buf1, buf2);
    // A pixel covered by both shows the nearer (greater z) color.
    assert_eq!(buf1[330 * 720 + 360], GREEN);
    // A pixel covered only by the far triangle shows its color.
    assert_eq!(buf1[210 * 720 + 360], RED);
}

#[test]
fn equal_depth_keeps_first_triangle() {
    // The depth test overwrites only on strictly greater depth, so at
    // an exact tie the triangle rasterized first keeps the pixel.
    let t1 = tri(v(-0.5, -0.5, -2.0), v(0.5, -0.5, -2.0), v(0.0, 0.5, -2.0), RED);
    let mut t2 = t1.clone();
    t2.color = GREEN;
    let mut buf = buffer(720, 720);
    draw_triangles(&mut buf, &vec![t1, t2], FOV60, 720, 720).unwrap();
    assert_eq!(buf[350 * 720 + 360], RED);
    assert!(buf.iter().all(|p| *p != GREEN));
}

#[test]
fn shared_edge_no_gap_no_double_paint() {
    // A quad split along a horizontal edge: each pixel strictly
    // interior to the shared edge is painted by exactly one triangle.
    let a = v(-0.5, 0.0, -2.0);
    let b = v(0.5, 0.0, -2.0);
    let c = v(0.0, 0.5, -2.0);
    let d = v(0.0, -0.5, -2.0);
    // Both triangles wound so their projected areas are positive.
    let upper = tri(a, b, c, RED);
    let lower = tri(b, a, d, GREEN);
    {
        let mut bu = buffer(720, 720);
        draw_triangles(&mut bu, &vec![upper.clone()], FOV60, 720, 720).unwrap();
        let mut bl = buffer(720, 720);
        draw_triangles(&mut bl, &vec![lower.clone()], FOV60, 720, 720).unwrap();
        let mut both = 0usize;
        let mut on_edge_once = 0usize;
        for i in 0..720 * 720 {
            let pu = bu[i] != BLACK;
            let pl = bl[i] != BLACK;
            if pu && pl {
                both += 1;
            }
        }
        // No pixel is claimed by both triangles.
        assert_eq!(both, 0);
        // The shared edge projects onto row 360; strictly between the
        // endpoints every pixel of that row is painted exactly once.
        let (sa, _) = world_to_screen(&a, FOV60, 720);
        let (sb, _) = world_to_screen(&b, FOV60, 720);
        assert_eq!(sa.y, 360);
        assert_eq!(sb.y, 360);
        let lo = sa.x.min(sb.x) + 1;
        let hi = sa.x.max(sb.x) - 1;
        for x in lo..=hi {
            let i = 360 * 720 + x as usize;
            let painted = (bu[i] != BLACK) as u8 + (bl[i] != BLACK) as u8;
            assert_eq!(painted, 1, "pixel column {x}");
            on_edge_once += 1;
        }
        assert!(on_edge_once > 100);
    }
    // Drawn together the union shows no seam: the whole edge row
    // between the endpoints is painted.
    let mut bb = buffer(720, 720);
    draw_triangles(&mut bb, &vec![upper, lower], FOV60, 720, 720).unwrap();
    let (sa, _) = world_to_screen(&a, FOV60, 720);
    let (sb, _) = world_to_screen(&b, FOV60, 720);
    for x in (sa.x.min(sb.x) + 1)..=(sa.x.max(sb.x) - 1) {
        assert_ne!(bb[360 * 720 + x as usize], BLACK);
    }
}

#[test]
fn apply_transform_identity_translation() {
    let t = tri(v(1.0, 2.0, -3.0), v(-1.0, 0.5, -2.0), v(0.0, -1.0, -4.0), RED);
    let model = Model {
        triangles: vec![t.clone()],
        transform: Transform {
            position: Vector3 { x: 0, y: 0, z: 0 },
            direction: Vector3 { x: 0, y: 0, z: 0 },
        },
    };
    let out = model.apply_transform();
    assert_eq!(out.len(), 1);
    assert_eq!(out[0].triangle.a, t.triangle.a);
    assert_eq!(out[0].triangle.b, t.triangle.b);
    assert_eq!(out[0].triangle.c, t.triangle.c);
    assert_eq!(out[0].color, RED);

    let moved = Model {
        triangles: vec![t.clone()],
        transform: Transform {
            position: Vector3 { x: SCALE, y: -SCALE, z: -5 * SCALE },
            direction: Vector3 { x: 0, y: 0, z: 0 },
        },
    };
    let out = moved.apply_transform();
    assert_eq!(out[0].triangle.a.x, t.triangle.a.x + SCALE);
    assert_eq!(out[0].triangle.a.y, t.triangle.a.y - SCALE);
    assert_eq!(out[0].triangle.a.z, t.triangle.a.z - 5 * SCALE);
}

#[test]
fn model_from_triangles_has_identity_transform() {
    let t = tri(v(1.0, 0.0, -1.0), v(0.0, 1.0, -1.0), v(0.0, 0.0, -1.0), RED);
    let m = Model::from(vec![t]);
    assert_eq!(m.triangles.len(), 1);
    assert_eq!(m.transform.position, Vector3 { x: 0, y: 0, z: 0 });
    assert_eq!(m.transform.direction, Vector3 { x: 0, y: 0, z: 0 });
}

#[test]
fn quarter_turn_yaw_swaps_axes() {
    // yaw = pi/2: the x axis rotates onto (cos, 0, sin) ~ (0, 0, 1).
    let (i, _j, k) = get_quaternion(PI_FX / 2, 0);
    assert!(i.x.abs() < 64);
    assert!((i.z - SCALE).abs() < 64);
    assert!((k.x + SCALE).abs() < 64);
    assert!(k.z.abs() < 64);
}

#[test]
fn trig_exact_at_zero_and_periodic() {
    assert_eq!(sin_fx(0), 0);
    assert_eq!(cos_fx(0), SCALE);
    assert_eq!(sin_fx(123456), sin_fx(123456 + TWO_PI_FX));
    assert_eq!(cos_fx(-987654), cos_fx(-987654 + TWO_PI_FX));
    assert!((sin_fx(PI_FX / 2) - SCALE).abs() < 32);
    assert!((cos_fx(PI_FX) + SCALE).abs() < 64);
    assert!(sin_fx(PI_FX).abs() < 64);
}

#[test]
fn fixed_point_ops_truncate_toward_zero() {
    assert_eq!(fx_mul(2 * SCALE, 3 * SCALE), 6 * SCALE);
    assert_eq!(fx_mul(-2 * SCALE, 3 * SCALE), -6 * SCALE);
    assert_eq!(fx_div(-3 * SCALE, 2 * SCALE), -3 * SCALE / 2);
    assert_eq!(div_trunc(-7, 2), -3);
    assert_eq!(div_trunc(7, -2), -3);
    assert_eq!(div_trunc(-7, -2), 3);
}

#[test]
fn vector3_ops() {
    let p = Vector3 { x: 2 * SCALE, y: -3 * SCALE, z: SCALE / 2 };
    let q = Vector3 { x: SCALE, y: SCALE, z: SCALE };
    let s = p.add(q);
    assert_eq!((s.x, s.y, s.z), (3 * SCALE, -2 * SCALE, 3 * SCALE / 2));
    let m = p.mul(2 * SCALE);
    assert_eq!((m.x, m.y, m.z), (4 * SCALE, -6 * SCALE, SCALE));
}

#[test]
fn vector2_ops() {
    let p = Vector2 { x: 3, y: -4 };
    let q = Vector2 { x: 2, y: 5 };
    assert_eq!(p.dot(&q), 3 * 2 - 4 * 5);
    let r = p.perpendicular_clockwise();
    assert_eq!((r.x, r.y), (-4, -3));
    let s = p.add(q);
    assert_eq!((s.x, s.y), (5, 1));
    let d = p.sub(&q);
    assert_eq!((d.x, d.y), (1, -9));
}
