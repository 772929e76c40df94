use resist::sim_state::{ComponentKind, EditorMode, PinRef, Position, Rotation, SelectedEntity};
use resist::schematic::{component_pin_positions_world, pin_offset, rotate_grid};

#[test]
fn rotation_cycles_in_four_steps() {
    let r = Rotation::Deg0;
    assert_eq!(r.next(), Rotation::Deg90);
    assert_eq!(r.next().next(), Rotation::Deg180);
    assert_eq!(r.next().next().next(), Rotation::Deg270);
    assert_eq!(r.next().next().next().next(), Rotation::Deg0);
    assert_eq!(Rotation::Deg270.next(), Rotation::Deg0);
}

#[test]
fn defaults_of_editor_state() {
    assert_eq!(Rotation::default(), Rotation::Deg0);
    assert_eq!(EditorMode::default(), EditorMode::Select);
    assert_eq!(SelectedEntity::default(), SelectedEntity::Nothing);
}

#[test]
fn labels_and_pin_counts() {
    assert_eq!(ComponentKind::Resistor.label(), "Resistor");
    assert_eq!(ComponentKind::Capacitor.label(), "Capacitor");
    assert_eq!(ComponentKind::Inductor.label(), "Inductor");
    assert_eq!(ComponentKind::VoltageSource.label(), "VSource");
    assert_eq!(ComponentKind::CurrentSource.label(), "ISource");
    assert_eq!(ComponentKind::FunctionalVoltageSource.label(), "V_func");
    assert_eq!(ComponentKind::FunctionalCurrentSource.label(), "I_func");
    assert_eq!(ComponentKind::Ground.label(), "Ground");
    assert_eq!(ComponentKind::Ground.pin_count(), 1);
    assert_eq!(ComponentKind::Resistor.pin_count(), 2);
    assert_eq!(ComponentKind::FunctionalCurrentSource.pin_count(), 2);
}

#[test]
fn position_new_keeps_coordinates() {
    let p = Position::new(-3, 9);
    assert_eq!(p.x, -3);
    assert_eq!(p.y, 9);
}

#[test]
fn pin_ref_comparison() {
    let a = PinRef { component_id: "R1".to_string(), pin_index: 0 };
    let b = PinRef { component_id: "R1".to_string(), pin_index: 1 };
    assert!(a.same_pin(&a.duplicate()));
    assert!(!a.same_pin(&b));
}

#[test]
fn rotate_grid_quarter_turns() {
    assert_eq!(rotate_grid((2, 5), Rotation::Deg0), (2, 5));
    assert_eq!(rotate_grid((2, 5), Rotation::Deg90), (5, -2));
    assert_eq!(rotate_grid((2, 5), Rotation::Deg180), (-2, -5));
    assert_eq!(rotate_grid((2, 5), Rotation::Deg270), (-5, 2));
    // one step further is a further quarter turn
    let v = rotate_grid((2, 5), Rotation::Deg180);
    assert_eq!(rotate_grid(v, Rotation::Deg90), rotate_grid((2, 5), Rotation::Deg270));
    // four quarter turns are the identity
    let mut w = (7, -4);
    for _ in 0..4 {
        w = rotate_grid(w, Rotation::Deg90);
    }
    assert_eq!(w, (7, -4));
}

#[test]
fn rotate_grid_keeps_min_where_not_negated() {
    assert_eq!(rotate_grid((i32::MIN, 1), Rotation::Deg0), (i32::MIN, 1));
    assert_eq!(rotate_grid((1, i32::MIN), Rotation::Deg90), (i32::MIN, -1));
}

#[test]
fn pin_offsets_of_two_pin_blocks_are_opposite() {
    assert_eq!(pin_offset(ComponentKind::Resistor, Rotation::Deg0, 0), (-1, 0));
    assert_eq!(pin_offset(ComponentKind::Resistor, Rotation::Deg0, 1), (1, 0));
    assert_eq!(pin_offset(ComponentKind::Capacitor, Rotation::Deg90, 0), (0, 1));
    assert_eq!(pin_offset(ComponentKind::Capacitor, Rotation::Deg90, 1), (0, -1));
    assert_eq!(pin_offset(ComponentKind::VoltageSource, Rotation::Deg270, 0), (0, -1));
    assert_eq!(pin_offset(ComponentKind::Ground, Rotation::Deg90, 0), (0, 0));
    assert_eq!(pin_offset(ComponentKind::Resistor, Rotation::Deg0, 5), (0, 0));
    for r in [Rotation::Deg0, Rotation::Deg90, Rotation::Deg180, Rotation::Deg270] {
        let a = pin_offset(ComponentKind::Inductor, r, 0);
        let b = pin_offset(ComponentKind::Inductor, r, 1);
        assert_eq!((a.0 + b.0, a.1 + b.1), (0, 0));
    }
}

#[test]
fn pin_positions_on_grid() {
    let pins = component_pin_positions_world(ComponentKind::VoltageSource, Rotation::Deg90, Position::new(3, 3));
    assert_eq!(pins, vec![Position::new(3, 4), Position::new(3, 2)]);
    let g = component_pin_positions_world(ComponentKind::Ground, Rotation::Deg0, Position::new(3, 6));
    assert_eq!(g, vec![Position::new(3, 6)]);
    let r = component_pin_positions_world(ComponentKind::Resistor, Rotation::Deg0, Position::new(7, 2));
    assert_eq!(r, vec![Position::new(6, 2), Position::new(8, 2)]);
}
