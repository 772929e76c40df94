use resist::editor::{detach_wires, next_component_id, wire_click};
use resist::sim_state::{ComponentKind, PinRef, Wire};

fn ids(v: &[&str]) -> Vec<String> {
    v.iter().map(|s| s.to_string()).collect()
}

fn pin(id: &str, i: usize) -> PinRef {
    PinRef { component_id: id.to_string(), pin_index: i }
}

#[test]
fn first_id_of_a_kind_is_one() {
    assert_eq!(next_component_id(&ids(&[]), ComponentKind::Resistor), "R1");
    assert_eq!(next_component_id(&ids(&["V1", "C1"]), ComponentKind::Resistor), "R1");
    assert_eq!(next_component_id(&ids(&[]), ComponentKind::Ground), "GND1");
    assert_eq!(next_component_id(&ids(&["GND"]), ComponentKind::Ground), "GND1");
}

#[test]
fn next_id_is_one_past_the_largest() {
    assert_eq!(next_component_id(&ids(&["R1", "R7", "R3", "C9"]), ComponentKind::Resistor), "R8");
    assert_eq!(next_component_id(&ids(&["R0"]), ComponentKind::Resistor), "R1");
    assert_eq!(next_component_id(&ids(&["R007"]), ComponentKind::Resistor), "R8");
    assert_eq!(next_component_id(&ids(&["R+3"]), ComponentKind::Resistor), "R4");
    assert_eq!(next_component_id(&ids(&["VF2", "V1"]), ComponentKind::VoltageSource), "V2");
    assert_eq!(next_component_id(&ids(&["VF2", "V1"]), ComponentKind::FunctionalVoltageSource), "VF3");
    assert_eq!(next_component_id(&ids(&["IF4"]), ComponentKind::FunctionalCurrentSource), "IF5");
    assert_eq!(next_component_id(&ids(&["L2x", "L-1"]), ComponentKind::Inductor), "L1");
}

#[test]
fn next_id_is_fresh() {
    let existing = ids(&["R1", "R01", "R2", "R+2", "R9a"]);
    let id = next_component_id(&existing, ComponentKind::Resistor);
    assert_eq!(id, "R3");
    assert!(!existing.contains(&id));
}

#[test]
fn detach_wires_keeps_the_others_in_order() {
    let mut wires = vec![
        Wire { from: pin("V1", 0), to: pin("R1", 0) },
        Wire { from: pin("R1", 1), to: pin("C1", 0) },
        Wire { from: pin("C1", 1), to: pin("GND", 0) },
        Wire { from: pin("GND", 0), to: pin("V1", 1) },
    ];
    detach_wires(&mut wires, "R1");
    assert_eq!(wires.len(), 2);
    assert_eq!(wires[0].from.component_id, "C1");
    assert_eq!(wires[1].from.component_id, "GND");
    detach_wires(&mut wires, "Q7");
    assert_eq!(wires.len(), 2);
}

#[test]
fn wire_click_starts_and_finishes_wires() {
    let mut wires: Vec<Wire> = vec![];
    let pending = wire_click(None, Some(pin("R1", 0)), &mut wires);
    assert_eq!(pending, Some(pin("R1", 0)));
    assert!(wires.is_empty());
    let pending = wire_click(pending, Some(pin("C1", 1)), &mut wires);
    assert_eq!(pending, None);
    assert_eq!(wires.len(), 1);
    assert_eq!(wires[0].from, pin("R1", 0));
    assert_eq!(wires[0].to, pin("C1", 1));
}

#[test]
fn wire_click_adds_no_duplicates_or_loops() {
    let mut wires = vec![Wire { from: pin("R1", 0), to: pin("C1", 1) }];
    assert_eq!(wire_click(Some(pin("C1", 1)), Some(pin("R1", 0)), &mut wires), None);
    assert_eq!(wires.len(), 1);
    assert_eq!(wire_click(Some(pin("R1", 0)), Some(pin("R1", 0)), &mut wires), None);
    assert_eq!(wires.len(), 1);
    assert_eq!(wire_click(Some(pin("R1", 0)), None, &mut wires), None);
    assert_eq!(wires.len(), 1);
}
