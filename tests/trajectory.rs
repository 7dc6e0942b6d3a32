use num_complex::Complex;
use sse_solver::trajectory::{integrate, solve};

fn initial_state(n_states: usize) -> Vec<Complex<f64>> {
    let mut state = vec![Complex { re: 0f64, im: 0f64 }; n_states];
    state[0] = Complex { re: 1f64, im: 0f64 };
    state
}

fn renormalize(state: &Vec<Complex<f64>>) -> Vec<Complex<f64>> {
    let norm = state.iter().map(|c| c.norm_sqr()).sum::<f64>().sqrt();
    state.iter().map(|c| c / Complex { re: norm, im: 0f64 }).collect()
}

/// One Euler step with a diagonal Hamiltonian and no noise operators:
/// `psi + (-i dt H psi)`.
fn coherent_step(diag: &[f64], dt: f64, state: &Vec<Complex<f64>>) -> Vec<Complex<f64>> {
    state
        .iter()
        .zip(diag.iter())
        .map(|(c, h)| c * Complex { re: 0f64, im: -dt } * h + c)
        .collect()
}

#[test]
fn test_initial_state_is_initial() {
    let n_states = 10;
    let diag: Vec<f64> = (0..n_states).map(|k| k as f64 + 0.5).collect();
    let initial = initial_state(n_states);
    let micro = |s: &Vec<Complex<f64>>, _k: usize| coherent_step(&diag, 0.0, s);
    let rows = solve(initial.clone(), 1, 1, &micro, &renormalize);
    assert_eq!(rows.len(), 1);
    assert_eq!(rows[0], initial);
}

#[test]
fn test_zero_timestep() {
    let n_states = 10;
    let diag: Vec<f64> = (0..n_states).map(|k| 2.0 * k as f64 - 3.0).collect();
    let initial = initial_state(n_states);
    let micro = |s: &Vec<Complex<f64>>, _k: usize| coherent_step(&diag, 0.0, s);
    let n_out = 3;
    let rows = solve(initial.clone(), n_out, 10, &micro, &renormalize);
    assert_eq!(rows.len(), n_out);
    for i in 0..n_out {
        assert_eq!(rows[i], initial);
    }
}

#[test]
fn first_row_is_not_renormalized() {
    let initial = vec![Complex { re: 3f64, im: 0f64 }, Complex { re: 0f64, im: 4f64 }];
    let micro = |s: &Vec<Complex<f64>>, _k: usize| s.clone();
    let rows = solve(initial.clone(), 2, 1, &micro, &renormalize);
    assert_eq!(rows[0], initial);
    assert!((rows[1][0].re - 0.6).abs() < 1e-12);
    assert!((rows[1][1].im - 0.8).abs() < 1e-12);
}

#[test]
fn later_rows_have_unit_norm() {
    let diag = [1.0, -2.0, 0.25];
    let initial = renormalize(&vec![
        Complex { re: 1f64, im: 0f64 },
        Complex { re: 0f64, im: 1f64 },
        Complex { re: 1f64, im: 1f64 },
    ]);
    let micro = |s: &Vec<Complex<f64>>, _k: usize| coherent_step(&diag, 0.1, s);
    let rows = solve(initial, 5, 3, &micro, &renormalize);
    assert_eq!(rows.len(), 5);
    for row in rows.iter().skip(1) {
        assert_eq!(row.len(), 3);
        let norm: f64 = row.iter().map(|c| c.norm_sqr()).sum::<f64>().sqrt();
        assert!((norm - 1.0).abs() < 1e-12);
    }
}

#[test]
fn zero_rows_requested_gives_empty_trajectory() {
    let micro = |s: &i64, _k: usize| s + 1;
    let renorm = |s: &i64| *s;
    let rows = solve(5i64, 0, 4, &micro, &renorm);
    assert!(rows.is_empty());
}

#[test]
fn micro_steps_are_numbered_across_the_run() {
    // Each micro-step records its index; rows must see indices 0..step, step..2*step, ...
    let micro = |s: &Vec<usize>, k: usize| {
        let mut out = s.clone();
        out.push(k);
        out
    };
    let renorm = |s: &Vec<usize>| s.clone();
    let rows = solve(Vec::new(), 3, 2, &micro, &renorm);
    assert_eq!(rows, vec![vec![], vec![0, 1], vec![0, 1, 2, 3]]);
}

#[test]
fn renormalization_follows_each_sample_interval() {
    let micro = |s: &i64, _k: usize| s * 3;
    let renorm = |s: &i64| s - 1;
    let rows = solve(1i64, 4, 2, &micro, &renorm);
    // 1 -> 9 - 1 = 8 -> 72 - 1 = 71 -> 639 - 1 = 638
    assert_eq!(rows, vec![1, 8, 71, 638]);
}

#[test]
fn zero_sample_interval_only_renormalizes() {
    let micro = |s: &i64, _k: usize| s * 100;
    let renorm = |s: &i64| s + 1;
    let rows = solve(0i64, 3, 0, &micro, &renorm);
    assert_eq!(rows, vec![0, 1, 2]);
}

#[test]
fn integrate_applies_each_micro_step_once() {
    let micro = |s: &u64, k: usize| s * 10 + k as u64;
    assert_eq!(integrate(0u64, 3, 3, &micro), 345);
    assert_eq!(integrate(7u64, 0, 0, &micro), 7);
}
