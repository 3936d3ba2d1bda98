use proof_of_function_relation::error::Error;
use proof_of_function_relation::field::Fe;
use proof_of_function_relation::gate::{Gate, GateInput, GateType};

#[test]
fn test_gate_formatting() {
    // g0: (1, 1, +)
    let gate = Gate {
        left: GateInput::Constant(Fe::from_u64(1)),
        right: GateInput::Constant(Fe::from_u64(1)),
        symbol: GateType::Add,
        label: String::from("g0"),
    };

    assert_eq!(
        gate.to_string(),
        "g0: (Fp256 \"(0000000000000000000000000000000000000000000000000000000000000001)\", \
        Fp256 \"(0000000000000000000000000000000000000000000000000000000000000001)\", +)"
    );
}

#[test]
fn gate_input_into_gate() {
    let by_label = GateInput::Gate(String::from("g0"));
    assert_eq!(by_label.into_gate(), Ok(String::from("g0")));
    assert_eq!(GateInput::Input(String::from("x")).into_gate(), Err(Error::GateInputNotGate));
    assert_eq!(GateInput::Constant(Fe::from_u64(2)).into_gate(), Err(Error::GateInputNotGate));
}

#[test]
fn gate_formatting_with_inputs_and_gate_refs() {
    let gate = Gate {
        left: GateInput::Gate(String::from("g0")),
        right: GateInput::Input(String::from("x")),
        symbol: GateType::Mul,
        label: String::from("g1"),
    };
    assert_eq!(gate.to_string(), "g1: (g0, x, *)");
}

/// Encodes x^3 + 2x + 5 as gates keyed by label.
fn sample_gates_0() -> Vec<Gate> {
    // g0: (x, x, *)
    // g1: (g0, x, *)
    // g2: (x, 2, *)
    // g3: (g1, g2, +)
    // g4: (g3, 5, +)
    let g0 = Gate {
        left: GateInput::Input(String::from("x")),
        right: GateInput::Input(String::from("x")),
        symbol: GateType::Mul,
        label: String::from("g0"),
    };
    let g1 = Gate {
        left: GateInput::Gate(g0.label.clone()),
        right: GateInput::Input(String::from("x")),
        symbol: GateType::Mul,
        label: String::from("g1"),
    };
    let g2 = Gate {
        left: GateInput::Input(String::from("x")),
        right: GateInput::Constant(Fe::from_u64(2)),
        symbol: GateType::Mul,
        label: String::from("g2"),
    };
    let g3 = Gate {
        left: GateInput::Gate(g1.label.clone()),
        right: GateInput::Gate(g2.label.clone()),
        symbol: GateType::Add,
        label: String::from("g3"),
    };
    let g4 = Gate {
        left: GateInput::Gate(g3.label.clone()),
        right: GateInput::Constant(Fe::from_u64(5)),
        symbol: GateType::Add,
        label: String::from("g4"),
    };
    vec![g0, g1, g2, g3, g4]
}

#[test]
fn test_gate_input_eq() {
    let gates = sample_gates_0();
    let g0 = &gates[0];
    let g1 = &gates[1];
    let g2 = &gates[2];
    assert!(g0.left.equals(&g0.right));
    assert!(g0.left.equals(&g1.right));
    assert!(g2.right.equals(&GateInput::Constant(Fe::from_u64(2))));
}

#[test]
fn test_into_gate() {
    let gates = sample_gates_0();
    let g0 = &gates[0];
    let g1 = &gates[1];
    assert_eq!(g1.left.into_gate().unwrap(), g0.label);
    assert_eq!(g1.right.into_gate(), Err(Error::GateInputNotGate));
}
