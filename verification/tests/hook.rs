use quantum_emulator::{
    convert_json_circuit, convert_json_gate, parse_gate_type, same_text, CircuitError, ErrorKind,
    GateType, JSONCircuit, JSONGate,
};

fn parse_theta(text: &String) -> Option<f64> {
    text.parse::<f64>().ok()
}

fn record(tag: &str, q: usize) -> JSONGate<f64> {
    JSONGate {
        gate_type: tag.to_string(),
        q,
        t: 0,
        id: 0,
        theta: None,
        thetaValue: None,
        controls: None,
        twoQubits: None,
    }
}

fn rotation(tag: &str, q: usize, theta: Option<&str>, value: Option<f64>) -> JSONGate<f64> {
    JSONGate { theta: theta.map(|t| t.to_string()), thetaValue: value, ..record(tag, q) }
}

fn cnot(controls: Option<Vec<usize>>, q: usize) -> JSONGate<f64> {
    JSONGate { controls, ..record("CNOT", q) }
}

fn swap(two: Option<Vec<usize>>) -> JSONGate<f64> {
    JSONGate { twoQubits: two, ..record("SWAP", 0) }
}

#[test]
fn same_text_compares_characters() {
    assert!(same_text("", ""));
    assert!(same_text("CNOT", "CNOT"));
    assert!(!same_text("CNOT", "CNOt"));
    assert!(!same_text("RX", "RXX"));
    assert!(!same_text("RX", "R"));
    assert!(same_text("θ = π", "θ = π"));
    assert!(!same_text("θ", "π"));
}

#[test]
fn tags_of_fixed_gates() {
    let table = [
        ("X", GateType::X),
        ("Y", GateType::Y),
        ("Z", GateType::Z),
        ("S", GateType::S),
        ("H", GateType::H),
        ("T", GateType::T),
        ("CNOT", GateType::CNOT),
        ("SWAP", GateType::SWAP),
    ];
    for (tag, kind) in table {
        assert_eq!(parse_gate_type(&record(tag, 0), &parse_theta), Ok(Some(kind)));
    }
}

#[test]
fn placeholder_tag_is_ignored() {
    assert_eq!(parse_gate_type(&record("Q", 0), &parse_theta), Ok(None));
    assert!(matches!(convert_json_gate(&record("Q", 3), &parse_theta), Ok(None)));
}

#[test]
fn unknown_tags_are_errors() {
    for tag in ["", "x", "RW", "CNOTT", "Toffoli", " H"] {
        assert_eq!(
            parse_gate_type(&record(tag, 0), &parse_theta),
            Err(ErrorKind::UnknownGateKind)
        );
        assert!(matches!(
            convert_json_gate(&record(tag, 0), &parse_theta),
            Err(ErrorKind::UnknownGateKind)
        ));
    }
}

#[test]
fn rotation_takes_the_number_first() {
    let gate = rotation("RX", 0, Some("2.5"), Some(1.5));
    assert_eq!(parse_gate_type(&gate, &parse_theta), Ok(Some(GateType::Rx(1.5))));
    let gate = rotation("RY", 0, Some("not a number"), Some(-0.5));
    assert_eq!(parse_gate_type(&gate, &parse_theta), Ok(Some(GateType::Ry(-0.5))));
    let gate = rotation("RZ", 0, None, Some(3.0));
    assert_eq!(parse_gate_type(&gate, &parse_theta), Ok(Some(GateType::Rz(3.0))));
}

#[test]
fn rotation_reads_the_text_otherwise() {
    let gate = rotation("RX", 0, Some("2.5"), None);
    assert_eq!(parse_gate_type(&gate, &parse_theta), Ok(Some(GateType::Rx(2.5))));
    let gate = rotation("RY", 0, Some("-1e-3"), None);
    assert_eq!(parse_gate_type(&gate, &parse_theta), Ok(Some(GateType::Ry(-0.001))));
    let gate = rotation("RZ", 0, Some("0"), None);
    assert_eq!(parse_gate_type(&gate, &parse_theta), Ok(Some(GateType::Rz(0.0))));
}

#[test]
fn rotation_without_an_angle_is_an_error() {
    for tag in ["RX", "RY", "RZ"] {
        assert_eq!(
            parse_gate_type(&rotation(tag, 0, None, None), &parse_theta),
            Err(ErrorKind::MissingParameter)
        );
        assert_eq!(
            parse_gate_type(&rotation(tag, 0, Some("pi/2"), None), &parse_theta),
            Err(ErrorKind::MissingParameter)
        );
        assert!(matches!(
            convert_json_gate(&rotation(tag, 0, Some(""), None), &parse_theta),
            Err(ErrorKind::MissingParameter)
        ));
    }
}

#[test]
fn an_angle_on_a_fixed_gate_is_not_read() {
    let gate = rotation("H", 0, Some("nonsense"), None);
    assert_eq!(parse_gate_type(&gate, &parse_theta), Ok(Some(GateType::H)));
}

#[test]
fn single_qubit_record_acts_on_q() {
    let gate = convert_json_gate(&record("H", 4), &parse_theta).unwrap().unwrap();
    assert_eq!(gate.gate_type, GateType::H);
    assert_eq!(gate.qubits, vec![4]);
    let gate =
        convert_json_gate(&rotation("RY", 2, None, Some(0.25)), &parse_theta).unwrap().unwrap();
    assert_eq!(gate.gate_type, GateType::Ry(0.25));
    assert_eq!(gate.qubits, vec![2]);
}

#[test]
fn cnot_record_is_control_then_target() {
    let gate = convert_json_gate(&cnot(Some(vec![3]), 1), &parse_theta).unwrap().unwrap();
    assert_eq!(gate.gate_type, GateType::CNOT);
    assert_eq!(gate.qubits, vec![3, 1]);
    let gate = convert_json_gate(&cnot(Some(vec![0, 7]), 2), &parse_theta).unwrap().unwrap();
    assert_eq!(gate.qubits, vec![0, 2]);
}

#[test]
fn cnot_record_without_control_is_malformed() {
    assert!(matches!(
        convert_json_gate(&cnot(None, 1), &parse_theta),
        Err(ErrorKind::MalformedOperation)
    ));
    assert!(matches!(
        convert_json_gate(&cnot(Some(vec![]), 1), &parse_theta),
        Err(ErrorKind::MalformedOperation)
    ));
}

#[test]
fn swap_record_names_two_qubits() {
    let gate = convert_json_gate(&swap(Some(vec![2, 0])), &parse_theta).unwrap().unwrap();
    assert_eq!(gate.gate_type, GateType::SWAP);
    assert_eq!(gate.qubits, vec![2, 0]);
    let gate = convert_json_gate(&swap(Some(vec![1, 2, 3])), &parse_theta).unwrap().unwrap();
    assert_eq!(gate.qubits, vec![1, 2]);
}

#[test]
fn swap_record_with_fewer_than_two_qubits_is_malformed() {
    for two in [None, Some(vec![]), Some(vec![1])] {
        assert!(matches!(
            convert_json_gate(&swap(two), &parse_theta),
            Err(ErrorKind::MalformedOperation)
        ));
    }
}

#[test]
fn circuit_keeps_the_order_and_drops_placeholders() {
    let description = JSONCircuit {
        qubits: 3,
        gates: vec![
            record("H", 0),
            record("Q", 1),
            cnot(Some(vec![0]), 2),
            record("Q", 0),
            rotation("RZ", 1, Some("0.5"), None),
            swap(Some(vec![1, 2])),
        ],
    };
    let circuit = convert_json_circuit(description, &parse_theta).unwrap();
    assert_eq!(circuit.n_qubits, 3);
    let kinds: Vec<GateType<f64>> = circuit.gates.iter().map(|g| g.gate_type).collect();
    assert_eq!(kinds, vec![GateType::H, GateType::CNOT, GateType::Rz(0.5), GateType::SWAP]);
    let qubits: Vec<Vec<usize>> = circuit.gates.iter().map(|g| g.qubits.clone()).collect();
    assert_eq!(qubits, vec![vec![0], vec![0, 2], vec![1], vec![1, 2]]);
}

#[test]
fn empty_description_is_an_empty_circuit() {
    let circuit = convert_json_circuit(JSONCircuit { qubits: 2, gates: vec![] }, &parse_theta).unwrap();
    assert_eq!(circuit.n_qubits, 2);
    assert!(circuit.gates.is_empty());
}

#[test]
fn first_bad_record_is_named_by_its_place() {
    let description = JSONCircuit {
        qubits: 2,
        gates: vec![record("H", 0), record("Q", 0), record("RX", 1), record("bogus", 0)],
    };
    assert_eq!(
        convert_json_circuit(description, &parse_theta).err(),
        Some(CircuitError { kind: ErrorKind::MissingParameter, position: 2 })
    );
    let description =
        JSONCircuit { qubits: 2, gates: vec![record("bogus", 0), record("RX", 1)] };
    assert_eq!(
        convert_json_circuit(description, &parse_theta).err(),
        Some(CircuitError { kind: ErrorKind::UnknownGateKind, position: 0 })
    );
    let description = JSONCircuit { qubits: 2, gates: vec![record("X", 0), cnot(None, 1)] };
    assert_eq!(
        convert_json_circuit(description, &parse_theta).err(),
        Some(CircuitError { kind: ErrorKind::MalformedOperation, position: 1 })
    );
}
