use nalgebra::DMatrix;
use num_complex::Complex;
use quantum_emulator::{
    get_cnot_matrix, get_swap_matrix, Arithmetic, Coefficient, ErrorKind, Gate, GateType, Matrix,
};
use std::f64::consts::PI;

type C = Complex<f64>;

fn plus(a: C, b: C) -> C {
    a + b
}

fn times(a: C, b: C) -> C {
    a * b
}

fn arithmetic() -> Arithmetic<C, fn(C, C) -> C, fn(C, C) -> C> {
    Arithmetic { zero: Complex::new(0.0, 0.0), one: Complex::new(1.0, 0.0), plus, times }
}

fn evaluate(c: Coefficient<f64>) -> C {
    let r = 1.0 / 2.0_f64.sqrt();
    match c {
        Coefficient::Zero => Complex::new(0.0, 0.0),
        Coefficient::One => Complex::new(1.0, 0.0),
        Coefficient::MinusOne => Complex::new(-1.0, 0.0),
        Coefficient::I => Complex::new(0.0, 1.0),
        Coefficient::MinusI => Complex::new(0.0, -1.0),
        Coefficient::InvSqrt2 => Complex::new(r, 0.0),
        Coefficient::MinusInvSqrt2 => Complex::new(-r, 0.0),
        Coefficient::ExpQuarterPi => Complex::from_polar(1.0, PI / 4.0),
        Coefficient::CosHalf(t) => Complex::new((t / 2.0).cos(), 0.0),
        Coefficient::SinHalf(t) => Complex::new((t / 2.0).sin(), 0.0),
        Coefficient::MinusSinHalf(t) => -Complex::new((t / 2.0).sin(), 0.0),
        Coefficient::MinusISinHalf(t) => Complex::new(0.0, -(t / 2.0).sin()),
        Coefficient::ExpMinusHalf(t) => Complex::from_polar(1.0, -t / 2.0),
        Coefficient::ExpPlusHalf(t) => Complex::from_polar(1.0, t / 2.0),
    }
}

fn symbol(c: Coefficient<f64>) -> Coefficient<f64> {
    c
}

fn c(re: f64, im: f64) -> C {
    Complex::new(re, im)
}

fn close(a: C, b: C) -> bool {
    (a - b).norm() < 1e-12
}

fn unitary(kind: GateType<f64>) -> Vec<Vec<C>> {
    kind.unitary_matrix(&evaluate).unwrap().into_rows()
}

fn assert_matrix(actual: Vec<Vec<C>>, expected: [[C; 2]; 2]) {
    assert_eq!(actual.len(), 2);
    for i in 0..2 {
        assert_eq!(actual[i].len(), 2);
        for j in 0..2 {
            assert!(close(actual[i][j], expected[i][j]), "cell ({}, {})", i, j);
        }
    }
}

fn reals(m: &Matrix<C>) -> Vec<Vec<f64>> {
    m.duplicate()
        .into_rows()
        .into_iter()
        .map(|row| {
            row.into_iter()
                .map(|z| {
                    assert_eq!(z.im, 0.0);
                    z.re
                })
                .collect()
        })
        .collect()
}

fn gate(gate_type: GateType<f64>, qubits: &[usize]) -> Gate<f64> {
    Gate { gate_type, qubits: qubits.to_vec() }
}

#[test]
fn pauli_matrices() {
    assert_matrix(unitary(GateType::X), [[c(0., 0.), c(1., 0.)], [c(1., 0.), c(0., 0.)]]);
    assert_matrix(unitary(GateType::Y), [[c(0., 0.), c(0., -1.)], [c(0., 1.), c(0., 0.)]]);
    assert_matrix(unitary(GateType::Z), [[c(1., 0.), c(0., 0.)], [c(0., 0.), c(-1., 0.)]]);
}

#[test]
fn phase_matrices() {
    let q = 0.5_f64.sqrt();
    assert_matrix(unitary(GateType::S), [[c(1., 0.), c(0., 0.)], [c(0., 0.), c(0., 1.)]]);
    assert_matrix(unitary(GateType::T), [[c(1., 0.), c(0., 0.)], [c(0., 0.), c(q, q)]]);
}

#[test]
fn hadamard_matrix() {
    let q = 0.5_f64.sqrt();
    assert_matrix(unitary(GateType::H), [[c(q, 0.), c(q, 0.)], [c(q, 0.), c(-q, 0.)]]);
}

#[test]
fn rotation_matrices() {
    let theta = PI / 3.0;
    let (cos, sin) = (3.0_f64.sqrt() / 2.0, 0.5);
    assert_matrix(
        unitary(GateType::Rx(theta)),
        [[c(cos, 0.), c(0., -sin)], [c(0., -sin), c(cos, 0.)]],
    );
    assert_matrix(
        unitary(GateType::Ry(theta)),
        [[c(cos, 0.), c(-sin, 0.)], [c(sin, 0.), c(cos, 0.)]],
    );
    assert_matrix(
        unitary(GateType::Rz(theta)),
        [[c(cos, -sin), c(0., 0.)], [c(0., 0.), c(cos, sin)]],
    );
}

#[test]
fn formulas_of_each_kind() {
    let table: Vec<(GateType<f64>, [Coefficient<f64>; 4])> = vec![
        (
            GateType::X,
            [Coefficient::Zero, Coefficient::One, Coefficient::One, Coefficient::Zero],
        ),
        (
            GateType::Y,
            [Coefficient::Zero, Coefficient::MinusI, Coefficient::I, Coefficient::Zero],
        ),
        (
            GateType::Z,
            [Coefficient::One, Coefficient::Zero, Coefficient::Zero, Coefficient::MinusOne],
        ),
        (
            GateType::S,
            [Coefficient::One, Coefficient::Zero, Coefficient::Zero, Coefficient::I],
        ),
        (
            GateType::H,
            [
                Coefficient::InvSqrt2,
                Coefficient::InvSqrt2,
                Coefficient::InvSqrt2,
                Coefficient::MinusInvSqrt2,
            ],
        ),
        (
            GateType::T,
            [Coefficient::One, Coefficient::Zero, Coefficient::Zero, Coefficient::ExpQuarterPi],
        ),
        (
            GateType::Rx(0.25),
            [
                Coefficient::CosHalf(0.25),
                Coefficient::MinusISinHalf(0.25),
                Coefficient::MinusISinHalf(0.25),
                Coefficient::CosHalf(0.25),
            ],
        ),
        (
            GateType::Ry(0.5),
            [
                Coefficient::CosHalf(0.5),
                Coefficient::MinusSinHalf(0.5),
                Coefficient::SinHalf(0.5),
                Coefficient::CosHalf(0.5),
            ],
        ),
        (
            GateType::Rz(0.75),
            [
                Coefficient::ExpMinusHalf(0.75),
                Coefficient::Zero,
                Coefficient::Zero,
                Coefficient::ExpPlusHalf(0.75),
            ],
        ),
    ];
    for (kind, cells) in table {
        let m = kind.unitary_matrix(&symbol).unwrap().into_rows();
        assert_eq!(m, vec![vec![cells[0], cells[1]], vec![cells[2], cells[3]]]);
    }
}

#[test]
fn two_qubit_kinds_have_no_single_qubit_matrix() {
    assert_eq!(GateType::<f64>::CNOT.unitary_matrix(&evaluate).err(), Some(ErrorKind::InvalidGateShape));
    assert_eq!(GateType::<f64>::SWAP.unitary_matrix(&evaluate).err(), Some(ErrorKind::InvalidGateShape));
    assert!(!GateType::<f64>::CNOT.single_qubit());
    assert!(!GateType::<f64>::SWAP.single_qubit());
    assert!(GateType::Rz(1.0).single_qubit());
}

#[test]
fn cnot_matrix_control_first() {
    let m = get_cnot_matrix(2, 0, 1, &arithmetic()).unwrap();
    assert_eq!(
        reals(&m),
        vec![
            vec![1., 0., 0., 0.],
            vec![0., 1., 0., 0.],
            vec![0., 0., 0., 1.],
            vec![0., 0., 1., 0.],
        ]
    );
}

#[test]
fn cnot_matrix_control_last() {
    let m = get_cnot_matrix(2, 1, 0, &arithmetic()).unwrap();
    assert_eq!(
        reals(&m),
        vec![
            vec![1., 0., 0., 0.],
            vec![0., 0., 0., 1.],
            vec![0., 0., 1., 0.],
            vec![0., 1., 0., 0.],
        ]
    );
}

#[test]
fn cnot_matrix_in_three_qubits() {
    // Control qubit 0, target qubit 2: 100 <-> 101 and 110 <-> 111.
    let m = reals(&get_cnot_matrix(3, 0, 2, &arithmetic()).unwrap());
    let image = [0, 1, 2, 3, 5, 4, 7, 6];
    for i in 0..8 {
        for j in 0..8 {
            assert_eq!(m[j][i], if j == image[i] { 1.0 } else { 0.0 });
        }
    }
}

#[test]
fn cnot_matrix_refuses_bad_qubits() {
    let a = arithmetic();
    assert_eq!(get_cnot_matrix(2, 0, 2, &a).err(), Some(ErrorKind::MalformedOperation));
    assert_eq!(get_cnot_matrix(2, 2, 0, &a).err(), Some(ErrorKind::MalformedOperation));
    assert_eq!(get_cnot_matrix(2, 1, 1, &a).err(), Some(ErrorKind::MalformedOperation));
    assert_eq!(get_cnot_matrix(0, 0, 0, &a).err(), Some(ErrorKind::MalformedOperation));
}

#[test]
fn swap_matrix_of_two_qubits() {
    let m = get_swap_matrix(2, 0, 1, &arithmetic()).unwrap();
    assert_eq!(
        reals(&m),
        vec![
            vec![1., 0., 0., 0.],
            vec![0., 0., 1., 0.],
            vec![0., 1., 0., 0.],
            vec![0., 0., 0., 1.],
        ]
    );
    assert_eq!(reals(&get_swap_matrix(2, 1, 0, &arithmetic()).unwrap()), reals(&m));
}

#[test]
fn swap_matrix_in_three_qubits() {
    // Qubits 0 and 2 change places: 001 <-> 100 and 011 <-> 110.
    let m = reals(&get_swap_matrix(3, 0, 2, &arithmetic()).unwrap());
    let image = [0, 4, 2, 6, 1, 5, 3, 7];
    for i in 0..8 {
        for j in 0..8 {
            assert_eq!(m[j][i], if j == image[i] { 1.0 } else { 0.0 });
        }
    }
}

#[test]
fn swap_matrix_refuses_bad_qubits() {
    let a = arithmetic();
    assert_eq!(get_swap_matrix(2, 0, 2, &a).err(), Some(ErrorKind::MalformedOperation));
    assert_eq!(get_swap_matrix(2, 3, 1, &a).err(), Some(ErrorKind::MalformedOperation));
    assert_eq!(get_swap_matrix(2, 1, 1, &a).err(), Some(ErrorKind::MalformedOperation));
}

#[test]
fn full_unitary_places_the_gate_at_its_qubit() {
    let a = arithmetic();
    let first = gate(GateType::X, &[0]).get_full_unitary(2, &a, &evaluate).unwrap();
    assert_eq!(
        reals(&first),
        vec![
            vec![0., 0., 1., 0.],
            vec![0., 0., 0., 1.],
            vec![1., 0., 0., 0.],
            vec![0., 1., 0., 0.],
        ]
    );
    let second = gate(GateType::X, &[1]).get_full_unitary(2, &a, &evaluate).unwrap();
    assert_eq!(
        reals(&second),
        vec![
            vec![0., 1., 0., 0.],
            vec![1., 0., 0., 0.],
            vec![0., 0., 0., 1.],
            vec![0., 0., 1., 0.],
        ]
    );
}

#[test]
fn full_unitary_of_one_qubit_is_the_gate_itself() {
    let m = gate(GateType::Y, &[0]).get_full_unitary(1, &arithmetic(), &evaluate).unwrap();
    assert_matrix(m.into_rows(), [[c(0., 0.), c(0., -1.)], [c(0., 1.), c(0., 0.)]]);
}

#[test]
fn full_unitary_agrees_with_nalgebra() {
    let h = DMatrix::from_fn(2, 2, |i, j| evaluate(if i == 1 && j == 1 {
        Coefficient::MinusInvSqrt2
    } else {
        Coefficient::InvSqrt2
    }));
    let id = DMatrix::<C>::identity(2, 2);
    let expected = [
        h.kronecker(&id).kronecker(&id),
        id.kronecker(&h).kronecker(&id),
        id.kronecker(&id).kronecker(&h),
    ];
    for q in 0..3 {
        let m = gate(GateType::H, &[q]).get_full_unitary(3, &arithmetic(), &evaluate).unwrap();
        assert_eq!((m.rows(), m.cols()), (8, 8));
        for i in 0..8 {
            for j in 0..8 {
                assert!(close(m.get(i, j).unwrap(), expected[q][(i, j)]));
            }
        }
    }
}

#[test]
fn full_unitary_of_two_qubit_kinds() {
    let a = arithmetic();
    let cnot = gate(GateType::CNOT, &[1, 0]).get_full_unitary(2, &a, &evaluate).unwrap();
    assert_eq!(reals(&cnot), reals(&get_cnot_matrix(2, 1, 0, &a).unwrap()));
    let swap = gate(GateType::SWAP, &[0, 2]).get_full_unitary(3, &a, &evaluate).unwrap();
    assert_eq!(reals(&swap), reals(&get_swap_matrix(3, 0, 2, &a).unwrap()));
}

#[test]
fn full_unitary_refuses_malformed_gates() {
    let a = arithmetic();
    let malformed = [
        gate(GateType::X, &[2]),
        gate(GateType::X, &[]),
        gate(GateType::X, &[0, 1]),
        gate(GateType::Rz(0.1), &[5]),
        gate(GateType::CNOT, &[0]),
        gate(GateType::CNOT, &[0, 0]),
        gate(GateType::CNOT, &[0, 2]),
        gate(GateType::CNOT, &[0, 1, 1]),
        gate(GateType::SWAP, &[1]),
        gate(GateType::SWAP, &[1, 1]),
        gate(GateType::SWAP, &[2, 1]),
    ];
    for g in malformed.iter() {
        assert!(!g.is_well_formed(2));
        assert_eq!(
            g.get_full_unitary(2, &a, &evaluate).err(),
            Some(ErrorKind::MalformedOperation)
        );
    }
    assert!(gate(GateType::X, &[1]).is_well_formed(2));
    assert!(gate(GateType::CNOT, &[1, 0]).is_well_formed(2));
    assert!(gate(GateType::SWAP, &[0, 1]).is_well_formed(2));
}
