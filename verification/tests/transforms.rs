use frame_transforms::animation::{AnimationState, TWO_PI};
use frame_transforms::camera::{look_at_matrix, Vec3};
use frame_transforms::fixed::SCALE;
use frame_transforms::matrix::{compose, identity, scale_translate_matrix, zero_matrix, Mat4};
use frame_transforms::projection::perspective_matrix;
use frame_transforms::rotation::{model_matrix, rotation_matrix, Axis};

#[test]
fn advance_keeps_angles_in_range() {
    let mut state = AnimationState::new(vec![0, 1_000_000, 6_283_184]);
    let step = 500_000;
    for _ in 0..20 {
        state.advance(step);
        for i in 0..state.len() {
            let a = state.angle(i);
            assert!(0 <= a && a < TWO_PI);
        }
    }
}

#[test]
fn advance_adds_step_to_every_angle() {
    let mut state = AnimationState::new(vec![0, 1_000_000, 6_283_184]);
    state.advance(500_000);
    assert_eq!(state.angle(0), 500_000);
    assert_eq!(state.angle(1), 1_500_000);
    // 6_283_184 + 500_000 passes the full turn and resets to zero
    assert_eq!(state.angle(2), 0);
}

#[test]
fn advance_matches_modular_sum_before_wrap() {
    // six calls add up to 6_000_000 == (0 + 6 * 1_000_000) mod TWO_PI
    let mut state = AnimationState::new(vec![0]);
    for _ in 0..6 {
        state.advance(1_000_000);
    }
    assert_eq!(state.angle(0) as i128, (6 * 1_000_000i128) % (TWO_PI as i128));
}

#[test]
fn advance_wraps_to_zero_on_exact_full_turn() {
    let mut state = AnimationState::new(vec![6_000_000]);
    state.advance(283_185);
    // 6_000_000 + 283_185 == TWO_PI exactly, and TWO_PI mod TWO_PI == 0
    assert_eq!(state.angle(0), 0);
}

#[test]
fn advance_on_empty_state_does_nothing() {
    let mut state = AnimationState::new(vec![]);
    state.advance(20_000);
    assert_eq!(state.len(), 0);
}

#[test]
fn advance_with_near_full_turn_step_stays_in_range() {
    let mut state = AnimationState::new(vec![0]);
    let step = TWO_PI - 1;
    state.advance(step);
    assert_eq!(state.angle(0), TWO_PI - 1);
    state.advance(step);
    assert_eq!(state.angle(0), 0);
    state.advance(step);
    assert_eq!(state.angle(0), TWO_PI - 1);
}

#[test]
fn model_matrix_matches_explicit_composition() {
    let normalizer = scale_translate_matrix(SCALE, 0, 0, 2 * SCALE);
    let (cx, sx) = (600_000, 800_000);
    let (cy, sy) = (-800_000, 600_000);
    let (cz, sz) = (SCALE, 0);
    let m = model_matrix(cx, sx, cy, sy, cz, sz, &normalizer);
    let rx = rotation_matrix(Axis::X, cx, sx);
    let ry = rotation_matrix(Axis::Y, cy, sy);
    let rz = rotation_matrix(Axis::Z, cz, sz);
    let explicit = compose(&compose(&compose(&rx, &ry), &rz), &normalizer);
    assert_eq!(m.e, explicit.e);
}

#[test]
fn rotation_by_zero_angle_is_identity() {
    let id = identity();
    for axis in [Axis::X, Axis::Y, Axis::Z] {
        let m = rotation_matrix(axis, SCALE, 0);
        assert_eq!(m.e, id.e);
    }
}

fn transpose_of(m: &Mat4) -> Mat4 {
    let mut e = [[0i64; 4]; 4];
    for c in 0..4 {
        for r in 0..4 {
            e[c][r] = m.e[r][c];
        }
    }
    Mat4 { e }
}

#[test]
fn rotation_transpose_is_inverse() {
    // cosine 0.6 and sine 0.8 lie exactly on the unit circle
    let id = identity();
    for axis in [Axis::X, Axis::Y, Axis::Z] {
        let m = rotation_matrix(axis, 600_000, 800_000);
        let t = transpose_of(&m);
        assert_eq!(compose(&t, &m).e, id.e);
        assert_eq!(compose(&m, &t).e, id.e);
    }
}

#[test]
fn rotation_determinant_is_one() {
    for axis in [Axis::X, Axis::Y, Axis::Z] {
        let m = rotation_matrix(axis, 600_000, 800_000);
        let e = |c: usize, r: usize| m.e[c][r] as i128;
        let det3 = e(0, 0) * (e(1, 1) * e(2, 2) - e(2, 1) * e(1, 2))
            - e(1, 0) * (e(0, 1) * e(2, 2) - e(2, 1) * e(0, 2))
            + e(2, 0) * (e(0, 1) * e(1, 2) - e(1, 1) * e(0, 2));
        let s = SCALE as i128;
        assert_eq!(det3, s * s * s);
    }
}

#[test]
fn perspective_entries_match_formula() {
    // aspect 1, fov pi/3, near 0.1, far 1024
    let fov = std::f64::consts::PI / 3.0;
    let focal = ((1.0 / (fov / 2.0).tan()) * 1e6) as i64;
    let m = perspective_matrix(1_000_000, focal, 100_000, 1_024_000_000);

    let f = 1.0 / (fov / 2.0).tan();
    let near = 0.1;
    let far = 1024.0;
    assert!((m.e[0][0] as f64 / 1e6 - f).abs() < 1e-5);
    assert!((m.e[1][1] as f64 / 1e6 - f).abs() < 1e-5);
    assert!((m.e[2][2] as f64 / 1e6 - (far + near) / (far - near)).abs() < 1e-5);
    assert!((m.e[3][2] as f64 / 1e6 - (-(2.0 * far * near) / (far - near))).abs() < 1e-5);
    assert_eq!(m.e[2][3], SCALE);
    assert_eq!(m.e[3][3], 0);
    assert_eq!(m.e[0][1], 0);
    assert_eq!(m.e[1][0], 0);
}

#[test]
fn look_at_canonical_frame_is_identity() {
    let eye = Vec3::new(0, 0, 0);
    let dir = Vec3::new(0, 0, SCALE);
    let up = Vec3::new(0, SCALE, 0);
    let m = look_at_matrix(&eye, &dir, &up);
    assert_eq!(m.e, identity().e);
}

#[test]
fn look_at_ignores_direction_magnitude() {
    let eye = Vec3::new(500_000, 200_000, 300_000);
    let up = Vec3::new(0, SCALE, 0);
    // the squared length of (0.6, 0.8, 0) is exactly one
    let dir = Vec3::new(600_000, 800_000, 0);
    let scaled = Vec3::new(3 * 600_000, 3 * 800_000, 0);
    let a = look_at_matrix(&eye, &dir, &up);
    let b = look_at_matrix(&eye, &scaled, &up);
    assert_eq!(a.e, b.e);
}

#[test]
fn look_at_ignores_up_magnitude() {
    let eye = Vec3::new(500_000, 200_000, 300_000);
    let dir = Vec3::new(0, 0, SCALE);
    let up = Vec3::new(0, SCALE, 0);
    let scaled = Vec3::new(0, 7 * SCALE, 0);
    let a = look_at_matrix(&eye, &dir, &up);
    let b = look_at_matrix(&eye, &dir, &scaled);
    assert_eq!(a.e, b.e);
}

#[test]
fn look_at_translation_is_negated_projection() {
    let eye = Vec3::new(500_000, 200_000, 300_000);
    let dir = Vec3::new(0, 0, SCALE);
    let up = Vec3::new(0, SCALE, 0);
    let m = look_at_matrix(&eye, &dir, &up);
    // the basis is the canonical frame, so the translation column is
    // simply the negated eye position
    assert_eq!(m.e[3], [-500_000, -200_000, -300_000, SCALE]);
}

#[test]
fn model_matrix_at_zero_angles_is_the_normalizer() {
    // scale 1 with translation (0, 0, 2), as the render loop uses
    let normalizer = scale_translate_matrix(SCALE, 0, 0, 2 * SCALE);
    let m = model_matrix(SCALE, 0, SCALE, 0, SCALE, 0, &normalizer);
    assert_eq!(m.e, normalizer.e);
    assert_eq!(m.e[3], [0, 0, 2 * SCALE, SCALE]);
    assert_eq!(m.e[0], [SCALE, 0, 0, 0]);
}

#[test]
fn compose_with_identity_leaves_matrix_unchanged() {
    let normalizer = scale_translate_matrix(SCALE, 0, 0, 2 * SCALE);
    assert_eq!(compose(&identity(), &normalizer).e, normalizer.e);
    assert_eq!(compose(&normalizer, &identity()).e, normalizer.e);
}

#[test]
fn compose_scales_then_translates() {
    // doubling transform times a translation by one half
    let double = scale_translate_matrix(2 * SCALE, 0, 0, 0);
    let shift = scale_translate_matrix(SCALE, 500_000, 0, 0);
    let m = compose(&double, &shift);
    assert_eq!(m.e[0], [2 * SCALE, 0, 0, 0]);
    assert_eq!(m.e[1], [0, 2 * SCALE, 0, 0]);
    assert_eq!(m.e[2], [0, 0, 2 * SCALE, 0]);
    // the translation is scaled by two as well
    assert_eq!(m.e[3], [1_000_000, 0, 0, SCALE]);
}

#[test]
fn zero_matrix_is_all_zeros() {
    let z = zero_matrix();
    assert_eq!(z.e, [[0i64; 4]; 4]);
}

#[test]
fn rotation_places_cosine_and_sine() {
    let c = 600_000;
    let s = 800_000;
    let mx = rotation_matrix(Axis::X, c, s);
    assert_eq!(mx.e[1], [0, c, s, 0]);
    assert_eq!(mx.e[2], [0, -s, c, 0]);
    let my = rotation_matrix(Axis::Y, c, s);
    assert_eq!(my.e[0], [c, 0, s, 0]);
    assert_eq!(my.e[2], [-s, 0, c, 0]);
    let mz = rotation_matrix(Axis::Z, c, s);
    assert_eq!(mz.e[0], [c, s, 0, 0]);
    assert_eq!(mz.e[1], [-s, c, 0, 0]);
}
