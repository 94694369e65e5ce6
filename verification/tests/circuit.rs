use num_complex::Complex;
use quantum_emulator::bits::dimension;
use quantum_emulator::{
    state_probabilities, Arithmetic, Circuit, CircuitError, Coefficient, ErrorKind, Gate, GateType,
};
use std::f64::consts::PI;

type C = Complex<f64>;

fn plus(a: C, b: C) -> C {
    a + b
}

fn times(a: C, b: C) -> C {
    a * b
}

fn arithmetic() -> Arithmetic<C, fn(C, C) -> C, fn(C, C) -> C> {
    Arithmetic { zero: Complex::new(0.0, 0.0), one: Complex::new(1.0, 0.0), plus, times }
}

fn evaluate(c: Coefficient<f64>) -> C {
    let r = 1.0 / 2.0_f64.sqrt();
    match c {
        Coefficient::Zero => Complex::new(0.0, 0.0),
        Coefficient::One => Complex::new(1.0, 0.0),
        Coefficient::MinusOne => Complex::new(-1.0, 0.0),
        Coefficient::I => Complex::new(0.0, 1.0),
        Coefficient::MinusI => Complex::new(0.0, -1.0),
        Coefficient::InvSqrt2 => Complex::new(r, 0.0),
        Coefficient::MinusInvSqrt2 => Complex::new(-r, 0.0),
        Coefficient::ExpQuarterPi => Complex::from_polar(1.0, PI / 4.0),
        Coefficient::CosHalf(t) => Complex::new((t / 2.0).cos(), 0.0),
        Coefficient::SinHalf(t) => Complex::new((t / 2.0).sin(), 0.0),
        Coefficient::MinusSinHalf(t) => -Complex::new((t / 2.0).sin(), 0.0),
        Coefficient::MinusISinHalf(t) => Complex::new(0.0, -(t / 2.0).sin()),
        Coefficient::ExpMinusHalf(t) => Complex::from_polar(1.0, -t / 2.0),
        Coefficient::ExpPlusHalf(t) => Complex::from_polar(1.0, t / 2.0),
    }
}

fn norm_sqr(z: C) -> f64 {
    z.norm_sqr()
}

fn gate(gate_type: GateType<f64>, qubits: &[usize]) -> Gate<f64> {
    Gate { gate_type, qubits: qubits.to_vec() }
}

fn circuit(n_qubits: usize, gates: Vec<Gate<f64>>) -> Circuit<f64> {
    Circuit { n_qubits, gates }
}

fn run(n_qubits: usize, gates: Vec<Gate<f64>>) -> Vec<C> {
    circuit(n_qubits, gates).get_state_vector(&arithmetic(), &evaluate).unwrap()
}

fn c(re: f64, im: f64) -> C {
    Complex::new(re, im)
}

fn assert_state(actual: &[C], expected: &[C]) {
    assert_eq!(actual.len(), expected.len());
    for i in 0..actual.len() {
        assert!((actual[i] - expected[i]).norm() < 1e-9, "amplitude {}: {}", i, actual[i]);
    }
}

fn basis(dim: usize, index: usize) -> Vec<C> {
    (0..dim).map(|i| if i == index { c(1., 0.) } else { c(0., 0.) }).collect()
}

fn total_probability(state: &[C]) -> f64 {
    state.iter().map(|z| z.norm_sqr()).sum()
}

#[test]
fn state_stays_normalized() {
    let gates = vec![
        gate(GateType::H, &[0]),
        gate(GateType::Rx(0.7), &[1]),
        gate(GateType::CNOT, &[0, 2]),
        gate(GateType::T, &[2]),
        gate(GateType::Ry(-1.3), &[0]),
        gate(GateType::SWAP, &[1, 2]),
        gate(GateType::Rz(2.1), &[1]),
        gate(GateType::Y, &[2]),
        gate(GateType::S, &[0]),
        gate(GateType::Z, &[1]),
        gate(GateType::X, &[2]),
        gate(GateType::H, &[1]),
    ];
    for len in 0..=gates.len() {
        let state = run(3, gates[..len].to_vec());
        assert!((total_probability(&state) - 1.0).abs() < 1e-9);
    }
}

#[test]
fn empty_circuit_is_the_all_zeros_state() {
    for n in 0..5 {
        let empty = circuit(n, vec![]);
        let state = empty.get_state_vector(&arithmetic(), &evaluate).unwrap();
        assert_eq!(state, basis(1 << n, 0));
        let labels = empty.get_basis_vectors();
        assert_eq!(labels[0], "0".repeat(n));
        let p = empty.get_state_probabilities(&arithmetic(), &evaluate, &norm_sqr).unwrap();
        assert_eq!(p[0], 1.0);
        assert!(p[1..].iter().all(|x| *x == 0.0));
    }
}

#[test]
fn pauli_x_twice_is_the_identity() {
    for q in 0..3 {
        let prepare = vec![gate(GateType::H, &[1]), gate(GateType::Ry(0.4), &[0])];
        let mut twice = prepare.clone();
        twice.push(gate(GateType::X, &[q]));
        twice.push(gate(GateType::X, &[q]));
        assert_state(&run(3, twice), &run(3, prepare));
    }
}

#[test]
fn hadamard_twice_is_the_identity() {
    for q in 0..3 {
        let prepare = vec![gate(GateType::X, &[2]), gate(GateType::Rx(1.1), &[0])];
        let mut twice = prepare.clone();
        twice.push(gate(GateType::H, &[q]));
        twice.push(gate(GateType::H, &[q]));
        assert_state(&run(3, twice), &run(3, prepare));
    }
}

#[test]
fn cnot_truth_table() {
    let unchanged = run(2, vec![gate(GateType::CNOT, &[0, 1])]);
    assert_state(&unchanged, &basis(4, 0));

    let prepared = run(2, vec![gate(GateType::X, &[0])]);
    assert_state(&prepared, &basis(4, 2));
    let flipped = run(2, vec![gate(GateType::X, &[0]), gate(GateType::CNOT, &[0, 1])]);
    assert_state(&flipped, &basis(4, 3));
    let p = state_probabilities(&flipped, &norm_sqr);
    assert_eq!(p, vec![0.0, 0.0, 0.0, 1.0]);

    let target_only = run(2, vec![gate(GateType::X, &[1]), gate(GateType::CNOT, &[0, 1])]);
    assert_state(&target_only, &basis(4, 1));
    let both = run(
        2,
        vec![gate(GateType::X, &[0]), gate(GateType::X, &[1]), gate(GateType::CNOT, &[0, 1])],
    );
    assert_state(&both, &basis(4, 2));
}

#[test]
fn swap_exchanges_two_qubits() {
    let swapped = circuit(2, vec![gate(GateType::X, &[0]), gate(GateType::SWAP, &[0, 1])]);
    let state = swapped.get_state_vector(&arithmetic(), &evaluate).unwrap();
    let labels = swapped.get_basis_vectors();
    let at = labels.iter().position(|l| l == "01").unwrap();
    assert_state(&state, &basis(4, at));

    let prepared = circuit(2, vec![gate(GateType::X, &[0])]);
    let before = prepared.get_state_vector(&arithmetic(), &evaluate).unwrap();
    let was = labels.iter().position(|l| l == "10").unwrap();
    assert_state(&before, &basis(4, was));
}

#[test]
fn hadamard_makes_an_even_superposition() {
    let q = 1.0 / 2.0_f64.sqrt();
    let state = run(1, vec![gate(GateType::H, &[0])]);
    assert_state(&state, &[c(q, 0.), c(q, 0.)]);
    let p = state_probabilities(&state, &norm_sqr);
    assert!((p[0] - 0.5).abs() < 1e-12);
    assert!((p[1] - 0.5).abs() < 1e-12);
    assert!((state[0].norm() - state[1].norm()).abs() < 1e-15);
}

#[test]
fn bell_state() {
    let q = 1.0 / 2.0_f64.sqrt();
    let state = run(2, vec![gate(GateType::H, &[0]), gate(GateType::CNOT, &[0, 1])]);
    assert_state(&state, &[c(q, 0.), c(0., 0.), c(0., 0.), c(q, 0.)]);
}

#[test]
fn later_gates_act_on_what_earlier_gates_left() {
    let q = 1.0 / 2.0_f64.sqrt();
    let x_then_h = run(1, vec![gate(GateType::X, &[0]), gate(GateType::H, &[0])]);
    assert_state(&x_then_h, &[c(q, 0.), c(-q, 0.)]);
    let h_then_x = run(1, vec![gate(GateType::H, &[0]), gate(GateType::X, &[0])]);
    assert_state(&h_then_x, &[c(q, 0.), c(q, 0.)]);
    let h_then_z = run(1, vec![gate(GateType::H, &[0]), gate(GateType::Z, &[0])]);
    assert_state(&h_then_z, &[c(q, 0.), c(-q, 0.)]);
}

#[test]
fn phases_show_on_a_qubit_that_is_one() {
    let q = 1.0 / 2.0_f64.sqrt();
    assert_state(&run(1, vec![gate(GateType::X, &[0]), gate(GateType::Z, &[0])]), &[c(0., 0.), c(-1., 0.)]);
    assert_state(&run(1, vec![gate(GateType::X, &[0]), gate(GateType::S, &[0])]), &[c(0., 0.), c(0., 1.)]);
    assert_state(&run(1, vec![gate(GateType::X, &[0]), gate(GateType::T, &[0])]), &[c(0., 0.), c(q, q)]);
    assert_state(&run(1, vec![gate(GateType::Y, &[0])]), &[c(0., 0.), c(0., 1.)]);
    assert_state(&run(1, vec![gate(GateType::X, &[0]), gate(GateType::Y, &[0])]), &[c(0., -1.), c(0., 0.)]);
}

#[test]
fn rotations_of_the_zero_state() {
    let q = 1.0 / 2.0_f64.sqrt();
    assert_state(&run(1, vec![gate(GateType::Rx(PI), &[0])]), &[c(0., 0.), c(0., -1.)]);
    assert_state(&run(1, vec![gate(GateType::Ry(PI / 2.0), &[0])]), &[c(q, 0.), c(q, 0.)]);
    assert_state(&run(1, vec![gate(GateType::Rz(PI / 2.0), &[0])]), &[c(q, -q), c(0., 0.)]);
    assert_state(
        &run(1, vec![gate(GateType::X, &[0]), gate(GateType::Rz(PI / 2.0), &[0])]),
        &[c(0., 0.), c(q, q)],
    );
}

#[test]
fn gate_on_the_last_of_three_qubits() {
    let state = run(3, vec![gate(GateType::X, &[2])]);
    assert_state(&state, &basis(8, 1));
    let state = run(3, vec![gate(GateType::X, &[1])]);
    assert_state(&state, &basis(8, 2));
    let state = run(3, vec![gate(GateType::X, &[0])]);
    assert_state(&state, &basis(8, 4));
}

#[test]
fn basis_vectors_are_binary_numerals() {
    assert_eq!(circuit(0, vec![]).get_basis_vectors(), vec![""]);
    assert_eq!(circuit(1, vec![]).get_basis_vectors(), vec!["0", "1"]);
    assert_eq!(
        circuit(3, vec![]).get_basis_vectors(),
        vec!["000", "001", "010", "011", "100", "101", "110", "111"]
    );
    let labels = circuit(5, vec![]).get_basis_vectors();
    assert_eq!(labels.len(), 32);
    for (i, label) in labels.iter().enumerate() {
        assert_eq!(*label, format!("{:05b}", i));
    }
}

#[test]
fn probabilities_are_squared_magnitudes() {
    let p = state_probabilities(&vec![c(0.6, 0.0), c(0.0, -0.8)], &norm_sqr);
    assert!((p[0] - 0.36).abs() < 1e-15);
    assert!((p[1] - 0.64).abs() < 1e-15);
    let p = circuit(2, vec![gate(GateType::H, &[0]), gate(GateType::H, &[1])])
        .get_state_probabilities(&arithmetic(), &evaluate, &norm_sqr)
        .unwrap();
    assert_eq!(p.len(), 4);
    for x in p {
        assert!((x - 0.25).abs() < 1e-12);
    }
}

#[test]
fn unitary_matrix_sends_all_zeros_to_the_final_state() {
    let gates = vec![
        gate(GateType::H, &[0]),
        gate(GateType::CNOT, &[0, 1]),
        gate(GateType::Rx(0.3), &[1]),
        gate(GateType::SWAP, &[0, 1]),
    ];
    let circ = circuit(2, gates);
    let u = circ.get_unitary_matrix(&arithmetic(), &evaluate).unwrap();
    assert_eq!((u.rows(), u.cols()), (4, 4));
    let state = circ.get_state_vector(&arithmetic(), &evaluate).unwrap();
    let column: Vec<C> = (0..4).map(|i| u.get(i, 0).unwrap()).collect();
    assert_state(&column, &state);
    let applied = u.times_vector(&basis(4, 0), &arithmetic());
    assert_state(&applied, &state);
}

#[test]
fn unitary_matrix_multiplies_later_gates_on_the_left() {
    let q = 1.0 / 2.0_f64.sqrt();
    let u = circuit(1, vec![gate(GateType::X, &[0]), gate(GateType::H, &[0])])
        .get_unitary_matrix(&arithmetic(), &evaluate)
        .unwrap()
        .into_rows();
    // H · X
    assert_state(&u[0], &[c(q, 0.), c(q, 0.)]);
    assert_state(&u[1], &[c(-q, 0.), c(q, 0.)]);
    let id = circuit(2, vec![]).get_unitary_matrix(&arithmetic(), &evaluate).unwrap().into_rows();
    for i in 0..4 {
        assert_eq!(id[i], basis(4, i));
    }
}

#[test]
fn qubit_out_of_range_is_rejected() {
    for n in 1..4 {
        let circ = circuit(n, vec![gate(GateType::H, &[0]), gate(GateType::X, &[n])]);
        let expected = CircuitError { kind: ErrorKind::MalformedOperation, position: 1 };
        assert_eq!(circ.validate(), Err(expected));
        assert_eq!(circ.get_state_vector(&arithmetic(), &evaluate), Err(expected));
        assert_eq!(circ.get_unitary_matrix(&arithmetic(), &evaluate).err(), Some(expected));
        assert_eq!(
            circ.get_state_probabilities(&arithmetic(), &evaluate, &norm_sqr),
            Err(expected)
        );
    }
}

#[test]
fn first_malformed_gate_is_named() {
    let circ = circuit(
        2,
        vec![
            gate(GateType::X, &[1]),
            gate(GateType::CNOT, &[1, 1]),
            gate(GateType::SWAP, &[0, 5]),
        ],
    );
    assert_eq!(
        circ.validate(),
        Err(CircuitError { kind: ErrorKind::MalformedOperation, position: 1 })
    );
    assert_eq!(circuit(2, vec![gate(GateType::X, &[1])]).validate(), Ok(()));
    assert_eq!(
        circuit(0, vec![gate(GateType::X, &[0])]).validate(),
        Err(CircuitError { kind: ErrorKind::MalformedOperation, position: 0 })
    );
}

#[test]
fn dimension_is_a_power_of_two() {
    assert_eq!(dimension(0), Some(1));
    assert_eq!(dimension(1), Some(2));
    assert_eq!(dimension(10), Some(1024));
    assert_eq!(dimension(usize::BITS as usize - 1), Some(1 << (usize::BITS - 1)));
    assert_eq!(dimension(usize::BITS as usize), None);
    assert_eq!(dimension(1000), None);
}
