//! The catalog of gates: the kinds of gate, and the 2×2 matrix of each
//! single-qubit kind.

use crate::matrix::{Grid, Matrix};
use vstd::prelude::*;

verus! {

/// The ways in which a circuit description can be wrong.
#[derive(Clone, Copy, Debug, PartialEq, Eq, Structural)]
pub enum ErrorKind {
    /// The tag of a gate names no kind of gate.
    UnknownGateKind,
    /// A rotation has neither an angle nor a text that reads as one.
    MissingParameter,
    /// A gate has the wrong number of qubits, one out of range, or one twice.
    MalformedOperation,
    /// The 2×2 matrix of a gate on two qubits was asked for.
    InvalidGateShape,
}

/// What is wrong, and at which place: the place of a record among the records
/// of a description, or of a gate among the gates of a circuit.
#[derive(Clone, Copy, Debug, PartialEq, Eq, Structural)]
pub struct CircuitError {
    pub kind: ErrorKind,
    pub position: usize,
}

/// The kinds of gate. A rotation carries its angle, in radians.
#[derive(Clone, Copy, Debug, PartialEq)]
pub enum GateType<A> {
    X,
    Y,
    Z,
    S,
    H,
    T,
    Rx(A),
    Ry(A),
    Rz(A),
    CNOT,
    SWAP,
}

/// A gate on the qubits it acts on: one qubit for a single-qubit kind, control
/// then target for `CNOT`, the two qubits to exchange for `SWAP`.
#[derive(Clone, Debug)]
pub struct Gate<A> {
    pub gate_type: GateType<A>,
    pub qubits: Vec<usize>,
}

/// A cell of a gate's 2×2 matrix, as a formula. `i` is the imaginary unit and
/// `θ` the angle that the formula carries.
#[derive(Clone, Copy, Debug, PartialEq)]
pub enum Coefficient<A> {
    /// 0
    Zero,
    /// 1
    One,
    /// −1
    MinusOne,
    /// i
    I,
    /// −i
    MinusI,
    /// 1/√2
    InvSqrt2,
    /// −1/√2
    MinusInvSqrt2,
    /// e^{iπ/4}
    ExpQuarterPi,
    /// cos(θ/2)
    CosHalf(A),
    /// sin(θ/2)
    SinHalf(A),
    /// −sin(θ/2)
    MinusSinHalf(A),
    /// −i·sin(θ/2)
    MinusISinHalf(A),
    /// e^{−iθ/2}
    ExpMinusHalf(A),
    /// e^{iθ/2}
    ExpPlusHalf(A),
}

impl<A> GateType<A> {
    /// The kind acts on one qubit: it is neither `CNOT` nor `SWAP`.
    pub open spec fn is_single_qubit(self) -> bool {
        !(self is CNOT) && !(self is SWAP)
    }

    /// The formula in row `r`, column `c` of the 2×2 matrix of a single-qubit kind.
    pub open spec fn coefficient(self, r: int, c: int) -> Coefficient<A> {
        match self {
            GateType::X => if r == c {
                Coefficient::Zero
            } else {
                Coefficient::One
            },
            GateType::Y => if r == c {
                Coefficient::Zero
            } else if r == 0 {
                Coefficient::MinusI
            } else {
                Coefficient::I
            },
            GateType::Z => if r != c {
                Coefficient::Zero
            } else if r == 0 {
                Coefficient::One
            } else {
                Coefficient::MinusOne
            },
            GateType::S => if r != c {
                Coefficient::Zero
            } else if r == 0 {
                Coefficient::One
            } else {
                Coefficient::I
            },
            GateType::H => if r == 1 && c == 1 {
                Coefficient::MinusInvSqrt2
            } else {
                Coefficient::InvSqrt2
            },
            GateType::T => if r != c {
                Coefficient::Zero
            } else if r == 0 {
                Coefficient::One
            } else {
                Coefficient::ExpQuarterPi
            },
            GateType::Rx(theta) => if r == c {
                Coefficient::CosHalf(theta)
            } else {
                Coefficient::MinusISinHalf(theta)
            },
            GateType::Ry(theta) => if r == c {
                Coefficient::CosHalf(theta)
            } else if r == 0 {
                Coefficient::MinusSinHalf(theta)
            } else {
                Coefficient::SinHalf(theta)
            },
            GateType::Rz(theta) => if r != c {
                Coefficient::Zero
            } else if r == 0 {
                Coefficient::ExpMinusHalf(theta)
            } else {
                Coefficient::ExpPlusHalf(theta)
            },
            GateType::CNOT => Coefficient::Zero,
            GateType::SWAP => Coefficient::Zero,
        }
    }
}

/// `m` is the 2×2 matrix of `kind` as `evaluate` reads its formulas: each cell
/// is a value that `evaluate` may return for the formula that stands there.
pub open spec fn is_unitary_of<A, T, Eval: Fn(Coefficient<A>) -> T>(
    evaluate: Eval,
    kind: GateType<A>,
    m: Grid<T>,
) -> bool {
    &&& m.wf()
    &&& m.rows == 2
    &&& m.cols == 2
    &&& forall|r: int, c: int|
        0 <= r < 2 && 0 <= c < 2 ==> evaluate.ensures(
            (kind.coefficient(r, c),),
            #[trigger] m.at(r, c),
        )
}

impl<A: Copy> GateType<A> {
    /// Whether the kind acts on one qubit.
    pub fn single_qubit(&self) -> (b: bool)
        ensures
            b == self.is_single_qubit(),
    {
        match self {
            GateType::CNOT => false,
            GateType::SWAP => false,
            _ => true,
        }
    }

    /// The four formulas of a single-qubit kind, row by row.
    fn formulas(&self) -> (f: Option<[Coefficient<A>; 4]>)
        ensures
            f is Some <==> self.is_single_qubit(),
            f matches Some(cells) ==> {
                &&& cells[0] == self.coefficient(0, 0)
                &&& cells[1] == self.coefficient(0, 1)
                &&& cells[2] == self.coefficient(1, 0)
                &&& cells[3] == self.coefficient(1, 1)
            },
    {
        match *self {
            GateType::X => Some(
                [Coefficient::Zero, Coefficient::One, Coefficient::One, Coefficient::Zero],
            ),
            GateType::Y => Some(
                [Coefficient::Zero, Coefficient::MinusI, Coefficient::I, Coefficient::Zero],
            ),
            GateType::Z => Some(
                [Coefficient::One, Coefficient::Zero, Coefficient::Zero, Coefficient::MinusOne],
            ),
            GateType::S => Some(
                [Coefficient::One, Coefficient::Zero, Coefficient::Zero, Coefficient::I],
            ),
            GateType::H => Some(
                [
                    Coefficient::InvSqrt2,
                    Coefficient::InvSqrt2,
                    Coefficient::InvSqrt2,
                    Coefficient::MinusInvSqrt2,
                ],
            ),
            GateType::T => Some(
                [Coefficient::One, Coefficient::Zero, Coefficient::Zero, Coefficient::ExpQuarterPi],
            ),
            GateType::Rx(theta) => Some(
                [
                    Coefficient::CosHalf(theta),
                    Coefficient::MinusISinHalf(theta),
                    Coefficient::MinusISinHalf(theta),
                    Coefficient::CosHalf(theta),
                ],
            ),
            GateType::Ry(theta) => Some(
                [
                    Coefficient::CosHalf(theta),
                    Coefficient::MinusSinHalf(theta),
                    Coefficient::SinHalf(theta),
                    Coefficient::CosHalf(theta),
                ],
            ),
            GateType::Rz(theta) => Some(
                [
                    Coefficient::ExpMinusHalf(theta),
                    Coefficient::Zero,
                    Coefficient::Zero,
                    Coefficient::ExpPlusHalf(theta),
                ],
            ),
            GateType::CNOT => None,
            GateType::SWAP => None,
        }
    }

    /// The 2×2 matrix of a single-qubit kind, its formulas read by `evaluate`.
    /// `CNOT` and `SWAP` have no such matrix.
    pub fn unitary_matrix<T: Copy, Eval: Fn(Coefficient<A>) -> T>(&self, evaluate: &Eval) -> (m:
        Result<Matrix<T>, ErrorKind>)
        requires
            forall|c: Coefficient<A>| evaluate.requires((c,)),
        ensures
            m is Ok <==> self.is_single_qubit(),
            m matches Ok(matrix) ==> is_unitary_of(*evaluate, *self, matrix@),
            m matches Err(e) ==> e == ErrorKind::InvalidGateShape,
    {
        match self.formulas() {
            None => Err(ErrorKind::InvalidGateShape),
            Some(cells) => {
                let top_left = evaluate(cells[0]);
                let top_right = evaluate(cells[1]);
                let bottom_left = evaluate(cells[2]);
                let bottom_right = evaluate(cells[3]);
                let matrix = Matrix::square2(top_left, top_right, bottom_left, bottom_right);
                Ok(matrix)
            },
        }
    }
}

impl<A> Gate<A> {
    /// This gate fits a register of `n` qubits: it names as many qubits as its
    /// kind acts on, each below `n`, and none twice.
    pub open spec fn well_formed(&self, n: nat) -> bool {
        if self.gate_type.is_single_qubit() {
            self.qubits@.len() == 1 && self.qubits@[0] < n
        } else {
            &&& self.qubits@.len() == 2
            &&& self.qubits@[0] < n
            &&& self.qubits@[1] < n
            &&& self.qubits@[0] != self.qubits@[1]
        }
    }
}

impl<A: Copy> Gate<A> {
    /// Whether this gate fits a register of `n_qubits` qubits.
    pub fn is_well_formed(&self, n_qubits: usize) -> (ok: bool)
        ensures
            ok == self.well_formed(n_qubits as nat),
    {
        if self.gate_type.single_qubit() {
            self.qubits.len() == 1 && self.qubits[0] < n_qubits
        } else {
            self.qubits.len() == 2 && self.qubits[0] < n_qubits && self.qubits[1] < n_qubits
                && self.qubits[0] != self.qubits[1]
        }
    }
}

} // verus!
