//! From a circuit as it arrives, a list of tagged records, to the circuit the
//! engine runs.

use crate::circuit::Circuit;
use crate::gate::{CircuitError, ErrorKind, Gate, GateType};
use vstd::prelude::*;
use vstd::string::StringSliceAdditionalSpecFns;
use vstd::utf8::encode_utf8_decode_utf8;

verus! {

/// A circuit as it arrives: the number of qubits and one record for each gate.
pub struct JSONCircuit<A> {
    pub qubits: usize,
    pub gates: Vec<JSONGate<A>>,
}

/// A gate record as it arrives. `gate_type` is the tag; `q` is the qubit of
/// a single-qubit gate and the target of a `CNOT`; `controls` holds the
/// control of a `CNOT`, `twoQubits` the two qubits of a `SWAP`. The angle of a
/// rotation comes as a number in `thetaValue`, or else as text in `theta`.
#[allow(non_snake_case)]
pub struct JSONGate<A> {
    pub gate_type: String,
    pub q: usize,
    pub t: usize,
    pub id: usize,
    pub theta: Option<String>,
    pub thetaValue: Option<A>,
    pub controls: Option<Vec<usize>>,
    pub twoQubits: Option<Vec<usize>>,
}

/// Whether two texts hold the same characters.
pub fn same_text(a: &str, b: &str) -> (same: bool)
    ensures
        same == (a@ == b@),
{
    let x = a.as_bytes();
    let y = b.as_bytes();
    proof {
        encode_utf8_decode_utf8(a@);
        encode_utf8_decode_utf8(b@);
    }
    if x.len() != y.len() {
        return false;
    }
    let mut i: usize = 0;
    while i < x.len()
        invariant
            x@ == a.spec_bytes(),
            y@ == b.spec_bytes(),
            x@.len() == y@.len(),
            i <= x@.len(),
            forall|k: int| 0 <= k < i ==> x@[k] == y@[k],
        decreases x.len() - i,
    {
        if x[i] != y[i] {
            return false;
        }
        i = i + 1;
    }
    assert(x@ =~= y@);
    true
}

/// `angle` is the angle of a rotation record: the number it carries, or else
/// what `parse_theta` reads from its text, or nothing where it has neither.
pub open spec fn is_angle<A, Parse: Fn(&String) -> Option<A>>(
    parse_theta: Parse,
    json_gate: JSONGate<A>,
    angle: Option<A>,
) -> bool {
    match json_gate.thetaValue {
        Some(value) => angle == Some(value),
        None => match json_gate.theta {
            Some(text) => parse_theta.ensures((&text,), angle),
            None => angle is None,
        },
    }
}

/// What the angle of a rotation record leads to: the rotation `kind` makes of
/// it, or `MissingParameter` where there is none.
pub open spec fn rotation_outcome<A>(
    angle: Option<A>,
    kind: spec_fn(A) -> GateType<A>,
) -> Result<Option<GateType<A>>, ErrorKind> {
    match angle {
        Some(value) => Ok(Some(kind(value))),
        None => Err(ErrorKind::MissingParameter),
    }
}

/// `outcome` is what the tag of `json_gate` stands for: a kind of gate,
/// nothing for the placeholder `Q`, `MissingParameter` for a rotation without
/// an angle, `UnknownGateKind` for any other tag.
pub open spec fn is_gate_type<A, Parse: Fn(&String) -> Option<A>>(
    parse_theta: Parse,
    json_gate: JSONGate<A>,
    outcome: Result<Option<GateType<A>>, ErrorKind>,
) -> bool {
    let tag = json_gate.gate_type@;
    if tag == "X"@ {
        outcome == Ok::<Option<GateType<A>>, ErrorKind>(Some(GateType::X))
    } else if tag == "Y"@ {
        outcome == Ok::<Option<GateType<A>>, ErrorKind>(Some(GateType::Y))
    } else if tag == "Z"@ {
        outcome == Ok::<Option<GateType<A>>, ErrorKind>(Some(GateType::Z))
    } else if tag == "S"@ {
        outcome == Ok::<Option<GateType<A>>, ErrorKind>(Some(GateType::S))
    } else if tag == "H"@ {
        outcome == Ok::<Option<GateType<A>>, ErrorKind>(Some(GateType::H))
    } else if tag == "T"@ {
        outcome == Ok::<Option<GateType<A>>, ErrorKind>(Some(GateType::T))
    } else if tag == "RX"@ {
        exists|angle: Option<A>| #[trigger]
            is_angle(parse_theta, json_gate, angle) && outcome == rotation_outcome(
                angle,
                |a: A| GateType::Rx(a),
            )
    } else if tag == "RY"@ {
        exists|angle: Option<A>| #[trigger]
            is_angle(parse_theta, json_gate, angle) && outcome == rotation_outcome(
                angle,
                |a: A| GateType::Ry(a),
            )
    } else if tag == "RZ"@ {
        exists|angle: Option<A>| #[trigger]
            is_angle(parse_theta, json_gate, angle) && outcome == rotation_outcome(
                angle,
                |a: A| GateType::Rz(a),
            )
    } else if tag == "CNOT"@ {
        outcome == Ok::<Option<GateType<A>>, ErrorKind>(Some(GateType::CNOT))
    } else if tag == "SWAP"@ {
        outcome == Ok::<Option<GateType<A>>, ErrorKind>(Some(GateType::SWAP))
    } else if tag == "Q"@ {
        outcome == Ok::<Option<GateType<A>>, ErrorKind>(None)
    } else {
        outcome == Err::<Option<GateType<A>>, ErrorKind>(ErrorKind::UnknownGateKind)
    }
}

/// The angle of a rotation record, if it has one.
fn angle_of<A: Copy, Parse: Fn(&String) -> Option<A>>(
    json_gate: &JSONGate<A>,
    parse_theta: &Parse,
) -> (angle: Option<A>)
    requires
        forall|text: &String| parse_theta.requires((text,)),
    ensures
        is_angle(*parse_theta, *json_gate, angle),
{
    match json_gate.thetaValue {
        Some(value) => Some(value),
        None => match &json_gate.theta {
            Some(text) => parse_theta(text),
            None => None,
        },
    }
}

/// The kind of gate that the tag of a record stands for.
pub fn parse_gate_type<A: Copy, Parse: Fn(&String) -> Option<A>>(
    json_gate: &JSONGate<A>,
    parse_theta: &Parse,
) -> (outcome: Result<Option<GateType<A>>, ErrorKind>)
    requires
        forall|text: &String| parse_theta.requires((text,)),
    ensures
        is_gate_type(*parse_theta, *json_gate, outcome),
{
    let tag = json_gate.gate_type.as_str();
    if same_text(tag, "X") {
        Ok(Some(GateType::X))
    } else if same_text(tag, "Y") {
        Ok(Some(GateType::Y))
    } else if same_text(tag, "Z") {
        Ok(Some(GateType::Z))
    } else if same_text(tag, "S") {
        Ok(Some(GateType::S))
    } else if same_text(tag, "H") {
        Ok(Some(GateType::H))
    } else if same_text(tag, "T") {
        Ok(Some(GateType::T))
    } else if same_text(tag, "RX") {
        let angle = angle_of(json_gate, parse_theta);
        match angle {
            Some(value) => Ok(Some(GateType::Rx(value))),
            None => Err(ErrorKind::MissingParameter),
        }
    } else if same_text(tag, "RY") {
        let angle = angle_of(json_gate, parse_theta);
        match angle {
            Some(value) => Ok(Some(GateType::Ry(value))),
            None => Err(ErrorKind::MissingParameter),
        }
    } else if same_text(tag, "RZ") {
        let angle = angle_of(json_gate, parse_theta);
        match angle {
            Some(value) => Ok(Some(GateType::Rz(value))),
            None => Err(ErrorKind::MissingParameter),
        }
    } else if same_text(tag, "CNOT") {
        Ok(Some(GateType::CNOT))
    } else if same_text(tag, "SWAP") {
        Ok(Some(GateType::SWAP))
    } else if same_text(tag, "Q") {
        Ok(None)
    } else {
        Err(ErrorKind::UnknownGateKind)
    }
}

/// What a record of kind `kind` gives: a gate on the qubits the record
/// names for that kind, or `MalformedOperation` where it names too few.
pub open spec fn is_gate_of_kind<A>(
    json_gate: JSONGate<A>,
    kind: GateType<A>,
    outcome: Result<Option<Gate<A>>, ErrorKind>,
) -> bool {
    match kind {
        GateType::CNOT => match json_gate.controls {
            Some(controls) if controls@.len() >= 1 => {
                &&& outcome matches Ok(Some(gate))
                &&& gate.gate_type == kind
                &&& gate.qubits@ == seq![controls@[0], json_gate.q]
            },
            _ => outcome == Err::<Option<Gate<A>>, ErrorKind>(ErrorKind::MalformedOperation),
        },
        GateType::SWAP => match json_gate.twoQubits {
            Some(two) if two@.len() >= 2 => {
                &&& outcome matches Ok(Some(gate))
                &&& gate.gate_type == kind
                &&& gate.qubits@ == seq![two@[0], two@[1]]
            },
            _ => outcome == Err::<Option<Gate<A>>, ErrorKind>(ErrorKind::MalformedOperation),
        },
        _ => {
            &&& outcome matches Ok(Some(gate))
            &&& gate.gate_type == kind
            &&& gate.qubits@ == seq![json_gate.q]
        },
    }
}

/// `outcome` is what `json_gate` converts to: a gate, nothing for a
/// placeholder, or what is wrong with the record.
pub open spec fn is_gate<A, Parse: Fn(&String) -> Option<A>>(
    parse_theta: Parse,
    json_gate: JSONGate<A>,
    outcome: Result<Option<Gate<A>>, ErrorKind>,
) -> bool {
    exists|kind: Result<Option<GateType<A>>, ErrorKind>| #[trigger]
        is_gate_type(parse_theta, json_gate, kind) && match kind {
            Ok(Some(k)) => is_gate_of_kind(json_gate, k, outcome),
            Ok(None) => outcome == Ok::<Option<Gate<A>>, ErrorKind>(None),
            Err(e) => outcome == Err::<Option<Gate<A>>, ErrorKind>(e),
        }
}

/// What a record stands for: a gate, or nothing for a placeholder.
pub fn convert_json_gate<A: Copy, Parse: Fn(&String) -> Option<A>>(
    json_gate: &JSONGate<A>,
    parse_theta: &Parse,
) -> (outcome: Result<Option<Gate<A>>, ErrorKind>)
    requires
        forall|text: &String| parse_theta.requires((text,)),
    ensures
        is_gate(*parse_theta, *json_gate, outcome),
{
    let kind = parse_gate_type(json_gate, parse_theta);
    let outcome = match kind {
        Err(e) => Err(e),
        Ok(None) => Ok(None),
        Ok(Some(gate_type)) => {
            let mut qubits: Vec<usize> = Vec::new();
            match gate_type {
                GateType::CNOT => match &json_gate.controls {
                    Some(controls) => {
                        if controls.len() < 1 {
                            return Err(ErrorKind::MalformedOperation);
                        }
                        qubits.push(controls[0]);
                        qubits.push(json_gate.q);
                        assert(qubits@ =~= seq![controls@[0], json_gate.q]);
                    },
                    None => {
                        return Err(ErrorKind::MalformedOperation);
                    },
                },
                GateType::SWAP => match &json_gate.twoQubits {
                    Some(two) => {
                        if two.len() < 2 {
                            return Err(ErrorKind::MalformedOperation);
                        }
                        qubits.push(two[0]);
                        qubits.push(two[1]);
                        assert(qubits@ =~= seq![two@[0], two@[1]]);
                    },
                    None => {
                        return Err(ErrorKind::MalformedOperation);
                    },
                },
                _ => {
                    qubits.push(json_gate.q);
                    assert(qubits@ =~= seq![json_gate.q]);
                },
            }
            let gate = Gate { gate_type, qubits };
            proof {
                assert(is_gate_of_kind(*json_gate, gate_type, Ok(Some(gate))));
            }
            Ok(Some(gate))
        },
    };
    outcome
}

/// `counts[k]` is the number of gates that the first `k` records give, and
/// gate `counts[k]` of `gates` is what record `k` converts to, unless it is a
/// placeholder.
pub open spec fn conversion_step<A, Parse: Fn(&String) -> Option<A>>(
    parse_theta: Parse,
    records: Seq<JSONGate<A>>,
    gates: Seq<Gate<A>>,
    counts: Seq<nat>,
    k: int,
) -> bool {
    ||| counts[k + 1] == counts[k] && is_gate(
        parse_theta,
        records[k],
        Ok::<Option<Gate<A>>, ErrorKind>(None),
    )
    ||| {
        &&& counts[k + 1] == counts[k] + 1
        &&& counts[k] < gates.len()
        &&& is_gate(parse_theta, records[k], Ok(Some(gates[counts[k] as int])))
    }
}

/// `counts` records how the first `upto` records convert to `gates`, one
/// after the other and leaving out the placeholders.
pub open spec fn conversion_trace<A, Parse: Fn(&String) -> Option<A>>(
    parse_theta: Parse,
    records: Seq<JSONGate<A>>,
    upto: nat,
    gates: Seq<Gate<A>>,
    counts: Seq<nat>,
) -> bool {
    &&& upto <= records.len()
    &&& counts.len() == upto + 1
    &&& counts[0] == 0
    &&& counts[upto as int] == gates.len()
    &&& forall|k: int|
        0 <= k < upto ==> #[trigger] conversion_step(parse_theta, records, gates, counts, k)
}

/// `outcome` is what the circuit description converts to: the circuit of the
/// gates that its records stand for, in their order and without the
/// placeholders; or the first record that stands for no gate, by its place
/// among the records, with what is wrong with it.
pub open spec fn is_circuit<A, Parse: Fn(&String) -> Option<A>>(
    parse_theta: Parse,
    json_circuit: JSONCircuit<A>,
    outcome: Result<Circuit<A>, CircuitError>,
) -> bool {
    let records = json_circuit.gates@;
    match outcome {
        Ok(circuit) => {
            &&& circuit.n_qubits == json_circuit.qubits
            &&& exists|counts: Seq<nat>|
                conversion_trace(parse_theta, records, records.len(), circuit.gates@, counts)
        },
        Err(e) => {
            &&& e.position < records.len()
            &&& is_gate(
                parse_theta,
                records[e.position as int],
                Err::<Option<Gate<A>>, ErrorKind>(e.kind),
            )
            &&& exists|gates: Seq<Gate<A>>, counts: Seq<nat>|
                conversion_trace(parse_theta, records, e.position as nat, gates, counts)
        },
    }
}

/// The circuit that a description stands for.
pub fn convert_json_circuit<A: Copy, Parse: Fn(&String) -> Option<A>>(
    json_circuit: JSONCircuit<A>,
    parse_theta: &Parse,
) -> (outcome: Result<Circuit<A>, CircuitError>)
    requires
        forall|text: &String| parse_theta.requires((text,)),
    ensures
        is_circuit(*parse_theta, json_circuit, outcome),
{
    let mut gates: Vec<Gate<A>> = Vec::new();
    let ghost mut counts: Seq<nat> = seq![0nat];
    let mut k: usize = 0;
    while k < json_circuit.gates.len()
        invariant
            forall|text: &String| parse_theta.requires((text,)),
            k <= json_circuit.gates@.len(),
            conversion_trace(*parse_theta, json_circuit.gates@, k as nat, gates@, counts),
        decreases json_circuit.gates.len() - k,
    {
        let ghost old_gates = gates@;
        let ghost old_counts = counts;
        match convert_json_gate(&json_circuit.gates[k], parse_theta) {
            Err(kind) => {
                let e = CircuitError { kind, position: k };
                proof {
                    assert(conversion_trace(
                        *parse_theta,
                        json_circuit.gates@,
                        e.position as nat,
                        gates@,
                        counts,
                    ));
                }
                return Err(e);
            },
            Ok(None) => {
                proof {
                    counts = counts.push(gates@.len());
                }
            },
            Ok(Some(gate)) => {
                gates.push(gate);
                proof {
                    counts = counts.push(gates@.len());
                }
            },
        }
        proof {
            assert forall|x: int| 0 <= x < k + 1 implies #[trigger] conversion_step(
                *parse_theta,
                json_circuit.gates@,
                gates@,
                counts,
                x,
            ) by {
                if x < k {
                    assert(conversion_step(
                        *parse_theta,
                        json_circuit.gates@,
                        old_gates,
                        old_counts,
                        x,
                    ));
                    lemma_counts_stay_below(
                        *parse_theta,
                        json_circuit.gates@,
                        k as nat,
                        old_gates,
                        old_counts,
                        x,
                    );
                }
            }
        }
        k = k + 1;
    }
    let circuit = Circuit { n_qubits: json_circuit.qubits, gates };
    proof {
        assert(conversion_trace(
            *parse_theta,
            json_circuit.gates@,
            json_circuit.gates@.len(),
            circuit.gates@,
            counts,
        ));
    }
    Ok(circuit)
}

/// Within a record of conversions the counts never go past the number of
/// gates there are.
proof fn lemma_counts_stay_below<A, Parse: Fn(&String) -> Option<A>>(
    parse_theta: Parse,
    records: Seq<JSONGate<A>>,
    upto: nat,
    gates: Seq<Gate<A>>,
    counts: Seq<nat>,
    k: int,
)
    requires
        conversion_trace(parse_theta, records, upto, gates, counts),
        0 <= k <= upto,
    ensures
        counts[k] <= gates.len(),
    decreases upto - k,
{
    if k < upto {
        assert(conversion_step(parse_theta, records, gates, counts, k));
        lemma_counts_stay_below(parse_theta, records, upto, gates, counts, k + 1);
    }
}

} // verus!
