use resist::layout::{layout_pins, resolve_layout_nodes, LayoutError, PartRef};
use resist::nodes::NodeId;
use resist::sim_state::{ComponentKind, PinRef, Wire};

fn part(id: &str, kind: ComponentKind) -> PartRef {
    PartRef { id: id.to_string(), kind }
}

fn pin(id: &str, i: usize) -> PinRef {
    PinRef { component_id: id.to_string(), pin_index: i }
}

fn wire(a: &str, i: usize, b: &str, j: usize) -> Wire {
    Wire { from: pin(a, i), to: pin(b, j) }
}

fn rc_parts() -> Vec<PartRef> {
    vec![
        part("V1", ComponentKind::VoltageSource),
        part("R1", ComponentKind::Resistor),
        part("C1", ComponentKind::Capacitor),
        part("GND", ComponentKind::Ground),
    ]
}

#[test]
fn pins_are_listed_block_by_block() {
    let pins = layout_pins(&rc_parts());
    let names: Vec<(String, usize)> = pins.iter().map(|p| (p.component_id.clone(), p.pin_index)).collect();
    assert_eq!(
        names,
        vec![
            ("V1".to_string(), 0),
            ("V1".to_string(), 1),
            ("R1".to_string(), 0),
            ("R1".to_string(), 1),
            ("C1".to_string(), 0),
            ("C1".to_string(), 1),
            ("GND".to_string(), 0),
        ]
    );
}

#[test]
fn rc_circuit_gets_two_nodes() {
    let wires = vec![
        wire("V1", 0, "R1", 0),
        wire("R1", 1, "C1", 0),
        wire("C1", 1, "GND", 0),
        wire("V1", 1, "GND", 0),
    ];
    let out = match resolve_layout_nodes(&rc_parts(), &wires) {
        Ok(o) => o,
        Err(_) => panic!("layout should resolve"),
    };
    assert_eq!(out.node_count, 2);
    assert_eq!(out.pin_nodes, vec![NodeId(1), NodeId(0), NodeId(1), NodeId(2), NodeId(2), NodeId(0), NodeId(0)]);
    assert_eq!(out.part_nodes, vec![
        vec![NodeId(1), NodeId(0)],
        vec![NodeId(1), NodeId(2)],
        vec![NodeId(2), NodeId(0)],
        vec![NodeId(0)],
    ]);
}

#[test]
fn unwired_pins_are_separate_nodes() {
    let out = match resolve_layout_nodes(&rc_parts(), &vec![]) {
        Ok(o) => o,
        Err(_) => panic!("layout should resolve"),
    };
    assert_eq!(out.node_count, 6);
    assert_eq!(out.pin_nodes, vec![NodeId(1), NodeId(2), NodeId(3), NodeId(4), NodeId(5), NodeId(6), NodeId(0)]);
}

#[test]
fn nodes_are_numbered_by_first_pin() {
    // R2's second pin and R1's second pin share a node; it is numbered at R1's pin.
    let parts = vec![part("R1", ComponentKind::Resistor), part("R2", ComponentKind::Resistor)];
    let wires = vec![wire("R2", 1, "R1", 1)];
    let out = match resolve_layout_nodes(&parts, &wires) {
        Ok(o) => o,
        Err(_) => panic!("layout should resolve"),
    };
    assert_eq!(out.pin_nodes, vec![NodeId(1), NodeId(2), NodeId(3), NodeId(2)]);
    assert_eq!(out.node_count, 3);
}

#[test]
fn empty_layout_is_refused() {
    assert!(matches!(resolve_layout_nodes(&vec![], &vec![]), Err(LayoutError::NoComponents)));
}

#[test]
fn wire_to_missing_pin_is_refused() {
    let wires = vec![wire("V1", 0, "R1", 0), wire("R1", 1, "R9", 0), wire("X", 0, "Y", 0)];
    match resolve_layout_nodes(&rc_parts(), &wires) {
        Err(LayoutError::InvalidWire(p)) => {
            assert_eq!(p.component_id, "R9");
            assert_eq!(p.pin_index, 0);
        }
        _ => panic!("expected an invalid wire"),
    }
    let wires = vec![wire("R1", 2, "C1", 0)];
    match resolve_layout_nodes(&rc_parts(), &wires) {
        Err(LayoutError::InvalidWire(p)) => {
            assert_eq!(p.component_id, "R1");
            assert_eq!(p.pin_index, 2);
        }
        _ => panic!("expected an invalid wire"),
    }
}

#[test]
fn duplicate_ids_resolve_to_the_last_block() {
    let parts = vec![part("X", ComponentKind::Resistor), part("X", ComponentKind::Resistor), part("G", ComponentKind::Ground)];
    let wires = vec![wire("X", 0, "G", 0)];
    let out = match resolve_layout_nodes(&parts, &wires) {
        Ok(o) => o,
        Err(_) => panic!("layout should resolve"),
    };
    assert_eq!(out.pin_nodes, vec![NodeId(1), NodeId(2), NodeId(0), NodeId(3), NodeId(0)]);
    assert_eq!(out.part_nodes[0], vec![NodeId(0), NodeId(3)]);
    assert_eq!(out.part_nodes[1], vec![NodeId(0), NodeId(3)]);
}
