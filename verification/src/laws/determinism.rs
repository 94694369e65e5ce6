//! One arithmetic, one result: where each operation has a single value for
//! given operands, so has everything the engine computes.

use crate::circuit::{
    composition_trace, evolution_trace, is_circuit_unitary, is_final_state, Circuit,
};
use crate::gate::{is_unitary_of, Coefficient, Gate, GateType};
use crate::matrix::Grid;
use crate::operator::is_operator;
use crate::scalar::Arithmetic;
use vstd::prelude::*;

verus! {

impl<T: Copy, Plus: Fn(T, T) -> T, Times: Fn(T, T) -> T> Arithmetic<T, Plus, Times> {
    /// A sum and a product of two given scalars each have one value only.
    pub open spec fn single_valued(&self) -> bool {
        &&& forall|x: T, y: T, z1: T, z2: T|
            #![trigger self.sum(x, y, z1), self.sum(x, y, z2)]
            self.sum(x, y, z1) && self.sum(x, y, z2) ==> z1 == z2
        &&& forall|x: T, y: T, z1: T, z2: T|
            #![trigger self.product(x, y, z1), self.product(x, y, z2)]
            self.product(x, y, z1) && self.product(x, y, z2) ==> z1 == z2
    }
}

/// A formula has one value only.
pub open spec fn reads_one_value<A, T, Eval: Fn(Coefficient<A>) -> T>(evaluate: Eval) -> bool {
    forall|c: Coefficient<A>, z1: T, z2: T|
        #![trigger evaluate.ensures((c,), z1), evaluate.ensures((c,), z2)]
        evaluate.ensures((c,), z1) && evaluate.ensures((c,), z2) ==> z1 == z2
}

/// Two matrices of one shape that agree cell by cell are the same matrix.
pub proof fn lemma_same_cells<T>(g1: Grid<T>, g2: Grid<T>)
    requires
        g1.wf(),
        g2.wf(),
        g1.rows == g2.rows,
        g1.cols == g2.cols,
        forall|i: int, j: int| 0 <= i < g1.rows && 0 <= j < g1.cols ==> g1.at(i, j) == g2.at(i, j),
    ensures
        g1 == g2,
{
    assert forall|i: int| 0 <= i < g1.rows implies g1.cells[i] == g2.cells[i] by {
        assert forall|j: int| 0 <= j < g1.cols implies g1.cells[i][j] == g2.cells[i][j] by {
            assert(g1.at(i, j) == g2.at(i, j));
        }
        assert(g1.cells[i] =~= g2.cells[i]);
    }
    assert(g1.cells =~= g2.cells);
}

/// Two records of one inner product agree step by step.
proof fn lemma_traces_agree<T: Copy, Plus: Fn(T, T) -> T, Times: Fn(T, T) -> T>(
    arith: Arithmetic<T, Plus, Times>,
    xs: Seq<T>,
    ys: Seq<T>,
    products1: Seq<T>,
    sums1: Seq<T>,
    total1: T,
    products2: Seq<T>,
    sums2: Seq<T>,
    total2: T,
    upto: int,
)
    requires
        arith.single_valued(),
        arith.dot_trace(xs, ys, products1, sums1, total1),
        arith.dot_trace(xs, ys, products2, sums2, total2),
        0 <= upto <= xs.len(),
    ensures
        sums1[upto] == sums2[upto],
    decreases upto,
{
    if upto > 0 {
        let k = upto - 1;
        lemma_traces_agree(
            arith,
            xs,
            ys,
            products1,
            sums1,
            total1,
            products2,
            sums2,
            total2,
            k,
        );
        assert(arith.product(xs[k], ys[k], products1[k]) && arith.sum(
            sums1[k],
            products1[k],
            sums1[k + 1],
        ));
        assert(arith.product(xs[k], ys[k], products2[k]) && arith.sum(
            sums2[k],
            products2[k],
            sums2[k + 1],
        ));
    }
}

/// An inner product has one value only.
pub proof fn lemma_dot_is_determined<T: Copy, Plus: Fn(T, T) -> T, Times: Fn(T, T) -> T>(
    arith: Arithmetic<T, Plus, Times>,
    xs: Seq<T>,
    ys: Seq<T>,
    total1: T,
    total2: T,
)
    requires
        arith.single_valued(),
        arith.is_dot(xs, ys, total1),
        arith.is_dot(xs, ys, total2),
    ensures
        total1 == total2,
{
    let (products1, sums1) = choose|products: Seq<T>, sums: Seq<T>|
        arith.dot_trace(xs, ys, products, sums, total1);
    let (products2, sums2) = choose|products: Seq<T>, sums: Seq<T>|
        arith.dot_trace(xs, ys, products, sums, total2);
    lemma_traces_agree(
        arith,
        xs,
        ys,
        products1,
        sums1,
        total1,
        products2,
        sums2,
        total2,
        xs.len() as int,
    );
}

/// A matrix applied to a vector gives one vector only.
pub proof fn lemma_applied_is_determined<T: Copy, Plus: Fn(T, T) -> T, Times: Fn(T, T) -> T>(
    arith: Arithmetic<T, Plus, Times>,
    m: Grid<T>,
    v: Seq<T>,
    w1: Seq<T>,
    w2: Seq<T>,
)
    requires
        arith.single_valued(),
        arith.is_applied(m, v, w1),
        arith.is_applied(m, v, w2),
    ensures
        w1 == w2,
{
    assert forall|i: int| 0 <= i < m.rows implies w1[i] == w2[i] by {
        lemma_dot_is_determined(arith, m.cells[i], v, w1[i], w2[i]);
    }
    assert(w1 =~= w2);
}

/// Two matrices have one product only.
pub proof fn lemma_product_is_determined<T: Copy, Plus: Fn(T, T) -> T, Times: Fn(T, T) -> T>(
    arith: Arithmetic<T, Plus, Times>,
    a: Grid<T>,
    b: Grid<T>,
    r1: Grid<T>,
    r2: Grid<T>,
)
    requires
        arith.single_valued(),
        arith.is_product(a, b, r1),
        arith.is_product(a, b, r2),
    ensures
        r1 == r2,
{
    assert forall|i: int, j: int| 0 <= i < r1.rows && 0 <= j < r1.cols implies r1.at(i, j)
        == r2.at(i, j) by {
        lemma_dot_is_determined(arith, a.cells[i], b.column(j), r1.at(i, j), r2.at(i, j));
    }
    lemma_same_cells(r1, r2);
}

/// Two matrices have one Kronecker product only.
pub proof fn lemma_kronecker_is_determined<T: Copy, Plus: Fn(T, T) -> T, Times: Fn(T, T) -> T>(
    arith: Arithmetic<T, Plus, Times>,
    a: Grid<T>,
    b: Grid<T>,
    r1: Grid<T>,
    r2: Grid<T>,
)
    requires
        arith.single_valued(),
        arith.is_kronecker(a, b, r1),
        arith.is_kronecker(a, b, r2),
    ensures
        r1 == r2,
{
    assert forall|p: int, q: int| 0 <= p < r1.rows && 0 <= q < r1.cols implies r1.at(p, q)
        == r2.at(p, q) by {
        let x = a.at(p / (b.rows as int), q / (b.cols as int));
        let y = b.at(p % (b.rows as int), q % (b.cols as int));
        assert(arith.product(x, y, r1.at(p, q)));
        assert(arith.product(x, y, r2.at(p, q)));
    }
    lemma_same_cells(r1, r2);
}

/// Two records of one expansion agree stage by stage.
proof fn lemma_stages_agree<T: Copy, Plus: Fn(T, T) -> T, Times: Fn(T, T) -> T>(
    arith: Arithmetic<T, Plus, Times>,
    gate: Grid<T>,
    q: nat,
    stages1: Seq<Grid<T>>,
    r1: Grid<T>,
    stages2: Seq<Grid<T>>,
    r2: Grid<T>,
    s: int,
)
    requires
        arith.single_valued(),
        arith.expansion_trace(gate, q, stages1, r1),
        arith.expansion_trace(gate, q, stages2, r2),
        0 <= s < stages1.len(),
        s < stages2.len(),
    ensures
        stages1[s] == stages2[s],
    decreases s,
{
    if s > 0 {
        lemma_stages_agree(arith, gate, q, stages1, r1, stages2, r2, s - 1);
        let factor = arith.factor(gate, q, s as nat);
        assert(arith.is_kronecker(stages1[s - 1], factor, stages1[s]));
        assert(arith.is_kronecker(stages2[s - 1], factor, stages2[s]));
        lemma_kronecker_is_determined(arith, stages1[s - 1], factor, stages1[s], stages2[s]);
    }
}

/// A single-qubit gate has one expansion only.
pub proof fn lemma_expansion_is_determined<T: Copy, Plus: Fn(T, T) -> T, Times: Fn(T, T) -> T>(
    arith: Arithmetic<T, Plus, Times>,
    gate: Grid<T>,
    q: nat,
    n: nat,
    r1: Grid<T>,
    r2: Grid<T>,
)
    requires
        arith.single_valued(),
        arith.is_expansion(gate, q, n, r1),
        arith.is_expansion(gate, q, n, r2),
    ensures
        r1 == r2,
{
    let stages1 = choose|stages: Seq<Grid<T>>|
        stages.len() == n && #[trigger] arith.expansion_trace(gate, q, stages, r1);
    let stages2 = choose|stages: Seq<Grid<T>>|
        stages.len() == n && #[trigger] arith.expansion_trace(gate, q, stages, r2);
    lemma_stages_agree(arith, gate, q, stages1, r1, stages2, r2, n - 1);
}

/// A single-qubit kind has one 2×2 matrix only.
pub proof fn lemma_unitary_is_determined<A, T, Eval: Fn(Coefficient<A>) -> T>(
    evaluate: Eval,
    kind: GateType<A>,
    m1: Grid<T>,
    m2: Grid<T>,
)
    requires
        reads_one_value(evaluate),
        is_unitary_of(evaluate, kind, m1),
        is_unitary_of(evaluate, kind, m2),
    ensures
        m1 == m2,
{
    assert forall|r: int, c: int| 0 <= r < 2 && 0 <= c < 2 implies m1.at(r, c) == m2.at(r, c) by {
        assert(evaluate.ensures((kind.coefficient(r, c),), m1.at(r, c)));
        assert(evaluate.ensures((kind.coefficient(r, c),), m2.at(r, c)));
    }
    lemma_same_cells(m1, m2);
}

/// A gate has one full operator only.
pub proof fn lemma_operator_is_determined<
    A,
    T: Copy,
    Plus: Fn(T, T) -> T,
    Times: Fn(T, T) -> T,
    Eval: Fn(Coefficient<A>) -> T,
>(
    arith: Arithmetic<T, Plus, Times>,
    evaluate: Eval,
    gate: Gate<A>,
    n: nat,
    op1: Grid<T>,
    op2: Grid<T>,
)
    requires
        arith.single_valued(),
        reads_one_value(evaluate),
        is_operator(arith, evaluate, gate, n, op1),
        is_operator(arith, evaluate, gate, n, op2),
    ensures
        op1 == op2,
{
    if gate.gate_type.is_single_qubit() {
        let q = gate.qubits@[0] as nat;
        let m1 = choose|m: Grid<T>| #[trigger]
            is_unitary_of(evaluate, gate.gate_type, m) && arith.is_expansion(m, q, n, op1);
        let m2 = choose|m: Grid<T>| #[trigger]
            is_unitary_of(evaluate, gate.gate_type, m) && arith.is_expansion(m, q, n, op2);
        lemma_unitary_is_determined(evaluate, gate.gate_type, m1, m2);
        lemma_expansion_is_determined(arith, m1, q, n, op1, op2);
    } else {
        lemma_same_cells(op1, op2);
    }
}

/// Two records of one run agree state by state.
proof fn lemma_runs_agree<
    A,
    T: Copy,
    Plus: Fn(T, T) -> T,
    Times: Fn(T, T) -> T,
    Eval: Fn(Coefficient<A>) -> T,
>(
    arith: Arithmetic<T, Plus, Times>,
    evaluate: Eval,
    circuit: Circuit<A>,
    states1: Seq<Seq<T>>,
    ops1: Seq<Grid<T>>,
    last1: Seq<T>,
    states2: Seq<Seq<T>>,
    ops2: Seq<Grid<T>>,
    last2: Seq<T>,
    upto: int,
)
    requires
        arith.single_valued(),
        reads_one_value(evaluate),
        evolution_trace(arith, evaluate, circuit, states1, ops1, last1),
        evolution_trace(arith, evaluate, circuit, states2, ops2, last2),
        0 <= upto <= circuit.gates@.len(),
    ensures
        states1[upto] == states2[upto],
    decreases upto,
{
    let n = circuit.n_qubits as nat;
    if upto == 0 {
        assert(states1[0] =~= states2[0]);
    } else {
        let k = upto - 1;
        lemma_runs_agree(
            arith,
            evaluate,
            circuit,
            states1,
            ops1,
            last1,
            states2,
            ops2,
            last2,
            k,
        );
        assert(is_operator(arith, evaluate, circuit.gates@[k], n, ops1[k]) && arith.is_applied(
            ops1[k],
            states1[k],
            states1[k + 1],
        ));
        assert(is_operator(arith, evaluate, circuit.gates@[k], n, ops2[k]) && arith.is_applied(
            ops2[k],
            states2[k],
            states2[k + 1],
        ));
        lemma_operator_is_determined(arith, evaluate, circuit.gates@[k], n, ops1[k], ops2[k]);
        lemma_applied_is_determined(arith, ops1[k], states1[k], states1[k + 1], states2[k + 1]);
    }
}

/// The engine is deterministic: a circuit has one final state only.
pub proof fn lemma_final_state_is_determined<
    A,
    T: Copy,
    Plus: Fn(T, T) -> T,
    Times: Fn(T, T) -> T,
    Eval: Fn(Coefficient<A>) -> T,
>(
    arith: Arithmetic<T, Plus, Times>,
    evaluate: Eval,
    circuit: Circuit<A>,
    state1: Seq<T>,
    state2: Seq<T>,
)
    requires
        arith.single_valued(),
        reads_one_value(evaluate),
        is_final_state(arith, evaluate, circuit, state1),
        is_final_state(arith, evaluate, circuit, state2),
    ensures
        state1 == state2,
{
    let (states1, ops1) = choose|states: Seq<Seq<T>>, ops: Seq<Grid<T>>|
        evolution_trace(arith, evaluate, circuit, states, ops, state1);
    let (states2, ops2) = choose|states: Seq<Seq<T>>, ops: Seq<Grid<T>>|
        evolution_trace(arith, evaluate, circuit, states, ops, state2);
    lemma_runs_agree(
        arith,
        evaluate,
        circuit,
        states1,
        ops1,
        state1,
        states2,
        ops2,
        state2,
        circuit.gates@.len() as int,
    );
}

/// Two records of one composition agree product by product.
proof fn lemma_compositions_agree<
    A,
    T: Copy,
    Plus: Fn(T, T) -> T,
    Times: Fn(T, T) -> T,
    Eval: Fn(Coefficient<A>) -> T,
>(
    arith: Arithmetic<T, Plus, Times>,
    evaluate: Eval,
    circuit: Circuit<A>,
    units1: Seq<Grid<T>>,
    ops1: Seq<Grid<T>>,
    u1: Grid<T>,
    units2: Seq<Grid<T>>,
    ops2: Seq<Grid<T>>,
    u2: Grid<T>,
    upto: int,
)
    requires
        arith.single_valued(),
        reads_one_value(evaluate),
        composition_trace(arith, evaluate, circuit, units1, ops1, u1),
        composition_trace(arith, evaluate, circuit, units2, ops2, u2),
        0 <= upto <= circuit.gates@.len(),
    ensures
        units1[upto] == units2[upto],
    decreases upto,
{
    let n = circuit.n_qubits as nat;
    if upto == 0 {
        lemma_same_cells(units1[0], units2[0]);
    } else {
        let k = upto - 1;
        lemma_compositions_agree(
            arith,
            evaluate,
            circuit,
            units1,
            ops1,
            u1,
            units2,
            ops2,
            u2,
            k,
        );
        assert(is_operator(arith, evaluate, circuit.gates@[k], n, ops1[k]) && arith.is_product(
            ops1[k],
            units1[k],
            units1[k + 1],
        ));
        assert(is_operator(arith, evaluate, circuit.gates@[k], n, ops2[k]) && arith.is_product(
            ops2[k],
            units2[k],
            units2[k + 1],
        ));
        lemma_operator_is_determined(arith, evaluate, circuit.gates@[k], n, ops1[k], ops2[k]);
        lemma_product_is_determined(arith, ops1[k], units1[k], units1[k + 1], units2[k + 1]);
    }
}

/// A circuit has one operator only.
pub proof fn lemma_circuit_unitary_is_determined<
    A,
    T: Copy,
    Plus: Fn(T, T) -> T,
    Times: Fn(T, T) -> T,
    Eval: Fn(Coefficient<A>) -> T,
>(
    arith: Arithmetic<T, Plus, Times>,
    evaluate: Eval,
    circuit: Circuit<A>,
    u1: Grid<T>,
    u2: Grid<T>,
)
    requires
        arith.single_valued(),
        reads_one_value(evaluate),
        is_circuit_unitary(arith, evaluate, circuit, u1),
        is_circuit_unitary(arith, evaluate, circuit, u2),
    ensures
        u1 == u2,
{
    let (units1, ops1) = choose|units: Seq<Grid<T>>, ops: Seq<Grid<T>>|
        composition_trace(arith, evaluate, circuit, units, ops, u1);
    let (units2, ops2) = choose|units: Seq<Grid<T>>, ops: Seq<Grid<T>>|
        composition_trace(arith, evaluate, circuit, units, ops, u2);
    lemma_compositions_agree(
        arith,
        evaluate,
        circuit,
        units1,
        ops1,
        u1,
        units2,
        ops2,
        u2,
        circuit.gates@.len() as int,
    );
}

} // verus!
