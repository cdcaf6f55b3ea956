use gates::arena::Data;
use gates::chip::ChipPortPolicy;
use gates::element::{ChipDefenition, Gate, GridVec2, Logical, Wire};
use gates::interaction::UiEvent;
use gates::kind::{GateKind, IOKind, LogicalKind, PrimitiveKind};
use gates::primitive::{evaluate_primitive, Eval, PrimitiveTemplate, SimError};

fn at() -> GridVec2 {
    GridVec2::new(0, 0)
}

fn prim(k: PrimitiveKind) -> GateKind {
    GateKind::Primitive(k)
}

fn wire(d: &Data, id: usize) -> Wire {
    match d.get(id) {
        Some(Logical::Wire(w)) => *w,
        _ => panic!("no wire under {}", id),
    }
}

fn input_source(d: &Data, id: usize) -> Option<usize> {
    match d.get(id) {
        Some(Logical::Input(i)) => i.source_wire_id,
        _ => panic!("no input under {}", id),
    }
}

fn out_wires(d: &Data, id: usize) -> Vec<usize> {
    match d.get(id) {
        Some(Logical::Output(o)) => o.out_wire_ids.clone(),
        _ => panic!("no output under {}", id),
    }
}

fn primary(id: usize) -> UiEvent {
    UiEvent::ClickedIO(id, at(), true)
}

fn secondary(id: usize) -> UiEvent {
    UiEvent::ClickedIO(id, at(), false)
}

fn ok(k: PrimitiveKind, ins: Vec<bool>, state: bool) -> Eval {
    evaluate_primitive(k, &ins, state).unwrap()
}

/// HI-SIGNAL gate 0 (output 1) and LIGHT gate 2 (input 3).
fn source_and_light() -> Data {
    let mut d = Data::new();
    assert_eq!(d.add_gate(prim(PrimitiveKind::HISIGNAL), at()), 0);
    assert_eq!(d.add_gate(prim(PrimitiveKind::LIGHT), at()), 2);
    d
}

#[test]
fn truth_tables_for_two_input_kinds() {
    for a in [false, true] {
        for b in [false, true] {
            assert_eq!(ok(PrimitiveKind::AND, vec![a, b], false).output, Some(a && b));
            assert_eq!(ok(PrimitiveKind::OR, vec![a, b], false).output, Some(a || b));
            assert_eq!(ok(PrimitiveKind::XOR, vec![a, b], false).output, Some(a != b));
            assert_eq!(ok(PrimitiveKind::NAND, vec![a, b], false).output, Some(!(a && b)));
            assert_eq!(ok(PrimitiveKind::NOR, vec![a, b], false).output, Some(!(a || b)));
            assert_eq!(ok(PrimitiveKind::XOR, vec![a, b], true).state, a != b);
        }
    }
}

#[test]
fn single_input_and_source_kinds() {
    assert_eq!(ok(PrimitiveKind::BUFFER, vec![true], false), Eval { output: Some(true), state: false });
    assert_eq!(ok(PrimitiveKind::NOT, vec![true], false), Eval { output: Some(false), state: false });
    assert_eq!(ok(PrimitiveKind::LIGHT, vec![true], false), Eval { output: None, state: true });
    assert_eq!(ok(PrimitiveKind::HISIGNAL, vec![], false), Eval { output: Some(true), state: true });
    assert_eq!(ok(PrimitiveKind::LOSIGNAL, vec![], true), Eval { output: Some(false), state: false });
    assert_eq!(ok(PrimitiveKind::PULSE, vec![], true), Eval { output: Some(true), state: false });
    assert_eq!(ok(PrimitiveKind::PULSE, vec![], false), Eval { output: Some(false), state: false });
    assert_eq!(ok(PrimitiveKind::TOGGLE, vec![], true), Eval { output: Some(true), state: true });
    assert_eq!(evaluate_primitive(PrimitiveKind::NOT, &vec![], false), Err(SimError::MissingElement));
    assert_eq!(evaluate_primitive(PrimitiveKind::Unknown, &vec![], false), Err(SimError::InvalidOperation));
}

#[test]
fn arity_guard_rejects_extra_inputs() {
    assert_eq!(evaluate_primitive(PrimitiveKind::AND, &vec![true, true, true], false), Err(SimError::InvalidInputArity));
    assert_eq!(evaluate_primitive(PrimitiveKind::NOT, &vec![true, false], false), Err(SimError::InvalidInputArity));
    assert_eq!(evaluate_primitive(PrimitiveKind::HISIGNAL, &vec![false], false), Err(SimError::InvalidInputArity));
    assert_eq!(evaluate_primitive(PrimitiveKind::Unknown, &vec![false], false), Err(SimError::InvalidInputArity));
}

#[test]
fn scenario_and_low_inputs() {
    assert_eq!(ok(PrimitiveKind::AND, vec![false, false], false).output, Some(false));
    // an AND gate with nothing wired sees two low inputs
    let mut d = Data::new();
    assert_eq!(d.add_gate(prim(PrimitiveKind::AND), at()), 0);
    d.update_logicals();
    assert_eq!(d.get_signal(3), Ok(false));
    assert_eq!(d.get_signal(0), Ok(false));
}

#[test]
fn scenario_and_high_inputs() {
    assert_eq!(ok(PrimitiveKind::AND, vec![true, true], false).output, Some(true));
    // HI-SIGNAL 0 (out 1), HI-SIGNAL 2 (out 3), AND 4 (ins 5, 6; out 7)
    let mut d = Data::new();
    d.add_gate(prim(PrimitiveKind::HISIGNAL), at());
    d.add_gate(prim(PrimitiveKind::HISIGNAL), at());
    assert_eq!(d.add_gate(prim(PrimitiveKind::AND), at()), 4);
    for (o, i) in [(1, 5), (3, 6)] {
        assert_eq!(d.apply_ui_event(primary(o)), Ok(()));
        assert_eq!(d.apply_ui_event(primary(i)), Ok(()));
    }
    d.update_logicals();
    assert_eq!(d.get_signal(5), Ok(true));
    assert_eq!(d.get_signal(7), Ok(false));
    d.update_logicals();
    assert_eq!(d.get_signal(7), Ok(true));
}

#[test]
fn scenario_bind_then_signal_follows() {
    let mut d = source_and_light();
    assert_eq!(d.apply_ui_event(primary(1)), Ok(()));
    assert_eq!(d.holding_wire, Some(4));
    assert_eq!(d.apply_ui_event(primary(3)), Ok(()));
    let w = wire(&d, 4);
    assert!(w.connected);
    assert_eq!(w.dest, Some(3));
    assert_eq!(input_source(&d, 3), Some(4));
    assert_eq!(d.holding_wire, None);
    d.update_logicals();
    assert_eq!(d.get_signal(3), d.get_signal(1));
    assert_eq!(d.get_signal(3), Ok(true));
    assert_eq!(d.get_signal(4), Ok(true));
}

#[test]
fn scenario_detach_picks_wire_up() {
    let mut d = source_and_light();
    d.apply_ui_event(primary(1)).unwrap();
    d.apply_ui_event(primary(3)).unwrap();
    assert_eq!(d.apply_ui_event(secondary(3)), Ok(()));
    let w = wire(&d, 4);
    assert!(!w.connected);
    assert_eq!(w.dest, None);
    assert_eq!(d.holding_wire, Some(4));
    assert_eq!(input_source(&d, 3), None);
}

#[test]
fn scenario_second_bind_rejected() {
    // HI 0 (out 1), LIGHT 2 (in 3), LO 4 (out 5); wires take ids 6 and 7
    let mut d = source_and_light();
    d.add_gate(prim(PrimitiveKind::LOSIGNAL), at());
    d.apply_ui_event(primary(1)).unwrap();
    d.apply_ui_event(primary(3)).unwrap();
    d.apply_ui_event(primary(5)).unwrap();
    assert_eq!(d.holding_wire, Some(7));
    assert_eq!(d.apply_ui_event(primary(3)), Err(SimError::ConstraintViolation));
    assert_eq!(d.holding_wire, Some(7));
    assert_eq!(input_source(&d, 3), Some(6));
    let w = wire(&d, 6);
    assert!(w.connected);
    assert_eq!(w.dest, Some(3));
    assert_eq!(w.source_id, 1);
    assert_eq!(wire(&d, 7).dest, None);
}

#[test]
fn in_degree_stays_at_most_one() {
    let mut d = source_and_light();
    d.add_gate(prim(PrimitiveKind::LOSIGNAL), at());
    let events = [primary(1), primary(3), primary(5), primary(3), primary(1), primary(3), primary(5)];
    for ev in events {
        let _ = d.apply_ui_event(ev);
        let ids = d.ids();
        let bound = ids
            .iter()
            .filter(|&&k| matches!(d.get(k), Some(Logical::Wire(w)) if w.dest == Some(3)))
            .count();
        assert!(bound <= 1);
    }
}

#[test]
fn disconnect_clears_downstream() {
    let mut d = source_and_light();
    d.apply_ui_event(primary(1)).unwrap();
    d.apply_ui_event(primary(3)).unwrap();
    d.update_logicals();
    assert_eq!(d.get_signal(3), Ok(true));
    d.apply_ui_event(secondary(3)).unwrap();
    d.update_logicals();
    assert_eq!(d.get_signal(3), Ok(false));
    assert_eq!(d.get_signal(2), Ok(true)); // the light still shows the previous cycle
    d.update_logicals();
    assert_eq!(d.get_signal(2), Ok(false));
}

#[test]
fn pulse_is_one_shot() {
    let mut d = Data::new();
    assert_eq!(d.add_gate(prim(PrimitiveKind::PULSE), at()), 0);
    d.update_logicals();
    assert_eq!(d.apply_ui_event(UiEvent::ClickedGate(0, at(), true)), Ok(()));
    assert_eq!(d.get_signal(0), Ok(true));
    d.update_logicals();
    assert_eq!(d.get_signal(1), Ok(true));
    d.update_logicals();
    assert_eq!(d.get_signal(1), Ok(false));
    d.update_logicals();
    assert_eq!(d.get_signal(1), Ok(false));
}

#[test]
fn toggle_output_persists() {
    let mut d = Data::new();
    d.add_gate(prim(PrimitiveKind::TOGGLE), at());
    d.apply_ui_event(UiEvent::ClickedGate(0, at(), true)).unwrap();
    for _ in 0..5 {
        d.update_logicals();
        assert_eq!(d.get_signal(1), Ok(true));
    }
    d.apply_ui_event(UiEvent::ClickedGate(0, at(), true)).unwrap();
    for _ in 0..3 {
        d.update_logicals();
        assert_eq!(d.get_signal(1), Ok(false));
    }
}

#[test]
fn click_on_other_gate_does_nothing() {
    let mut d = Data::new();
    d.add_gate(prim(PrimitiveKind::AND), at());
    assert_eq!(d.apply_ui_event(UiEvent::ClickedGate(0, at(), true)), Ok(()));
    assert_eq!(d.get_signal(0), Ok(false));
    assert_eq!(d.apply_ui_event(UiEvent::ClickedGate(1, at(), true)), Err(SimError::InvalidOperation));
    assert_eq!(d.apply_ui_event(UiEvent::ClickedGate(0, at(), false)), Ok(()));
}

#[test]
fn feedback_is_seen_one_cycle_later() {
    // NOT gate 0 (in 1, out 2) wired to itself
    let mut d = Data::new();
    d.add_gate(prim(PrimitiveKind::NOT), at());
    d.apply_ui_event(primary(2)).unwrap();
    d.apply_ui_event(primary(1)).unwrap();
    let mut seen = Vec::new();
    for _ in 0..4 {
        d.update_logicals();
        seen.push(d.get_signal(2).unwrap());
    }
    assert_eq!(seen, vec![true, false, true, false]);
}

#[test]
fn reanchor_moves_held_wire() {
    let mut d = source_and_light();
    d.add_gate(prim(PrimitiveKind::LOSIGNAL), at());
    d.apply_ui_event(primary(1)).unwrap();
    assert_eq!(out_wires(&d, 1), vec![6]);
    assert_eq!(d.apply_ui_event(primary(5)), Ok(()));
    assert_eq!(out_wires(&d, 1), Vec::<usize>::new());
    assert_eq!(out_wires(&d, 5), vec![6]);
    assert_eq!(wire(&d, 6).source_id, 5);
    assert_eq!(d.holding_wire, Some(6));
}

#[test]
fn secondary_click_on_source_deletes_held_wire() {
    let mut d = source_and_light();
    d.apply_ui_event(primary(1)).unwrap();
    assert_eq!(d.apply_ui_event(secondary(1)), Ok(()));
    assert!(d.get(4).is_none());
    assert_eq!(out_wires(&d, 1), Vec::<usize>::new());
    assert_eq!(d.holding_wire, None);
    assert_eq!(d.get_signal(4), Err(SimError::MissingElement));
    // ids are not reused
    d.apply_ui_event(primary(1)).unwrap();
    assert_eq!(d.holding_wire, Some(5));
}

#[test]
fn rejected_gestures_change_nothing() {
    let mut d = source_and_light();
    assert_eq!(d.apply_ui_event(primary(99)), Err(SimError::MissingElement));
    assert_eq!(d.apply_ui_event(primary(3)), Err(SimError::InvalidOperation));
    assert_eq!(d.apply_ui_event(secondary(3)), Err(SimError::InvalidOperation));
    assert_eq!(d.apply_ui_event(secondary(1)), Err(SimError::InvalidOperation));
    assert_eq!(d.apply_ui_event(primary(0)), Err(SimError::InvalidOperation));
    assert_eq!(d.apply_ui_event(UiEvent::ClickedWire(0, at(), true)), Ok(()));
    assert_eq!(d.holding_wire, None);
    assert_eq!(d.ids(), vec![0, 1, 2, 3]);
}

#[test]
fn queries_report_kind_signal_and_position() {
    let mut d = Data::new();
    d.add_gate(prim(PrimitiveKind::OR), GridVec2::new(30, -40));
    assert_eq!(d.get_kind(0), Ok(LogicalKind::Gate(prim(PrimitiveKind::OR))));
    assert_eq!(d.get_kind(1), Ok(LogicalKind::IO(IOKind::Input)));
    assert_eq!(d.get_kind(3), Ok(LogicalKind::IO(IOKind::Output)));
    assert_eq!(d.get_kind(4), Err(SimError::MissingElement));
    assert_eq!(d.get_position(0), Ok(GridVec2::new(30, -40)));
    assert_eq!(d.get_position(1), Err(SimError::InvalidOperation));
    assert_eq!(d.peek_next_id(), 4);
    match d.get(0) {
        Some(Logical::Gate(g)) => {
            assert_eq!(g.label, "OR");
            assert_eq!(g.ins, vec![1, 2]);
            assert_eq!(g.outs, vec![3]);
        }
        _ => panic!("gate expected"),
    }
}

#[test]
fn unknown_template_makes_placeholder_gate() {
    let mut d = Data::new();
    d.add_gate(GateKind::Custom, at());
    match d.get(0) {
        Some(Logical::Gate(g)) => {
            assert_eq!(g.label, "E: Not Found");
            assert_eq!(g.kind, prim(PrimitiveKind::Unknown));
            assert_eq!(g.n_in, 1);
            assert_eq!(g.n_out, 1);
        }
        _ => panic!("gate expected"),
    }
    d.update_logicals();
    assert_eq!(d.get_signal(2), Ok(false));
}

#[test]
fn labels_name_kinds() {
    let t = PrimitiveTemplate::from_values("NAND", 2, 1);
    assert_eq!(t.kind, PrimitiveKind::NAND);
    assert_eq!(t.label, "NAND");
    assert_eq!((t.n_ins, t.n_outs), (2, 1));
    assert_eq!(PrimitiveTemplate::from_values("HI-SIGNAL", 0, 1).kind, PrimitiveKind::HISIGNAL);
    assert_eq!(PrimitiveTemplate::from_values("nand", 2, 1).kind, PrimitiveKind::Unknown);
    assert_eq!(Gate::generate("Custom".to_string(), 3, 2, 7).kind, GateKind::Custom);
    assert_eq!(Gate::generate("XOR".to_string(), 2, 1, 7).kind, prim(PrimitiveKind::XOR));
    assert_eq!(PrimitiveKind::LOSIGNAL.to_label(), "LO-SIGNAL");
    assert_eq!(PrimitiveKind::NOR.get_n_desired_inputs(), 2);
    assert_eq!(PrimitiveKind::PULSE.get_logical_kind(), LogicalKind::Gate(prim(PrimitiveKind::PULSE)));
}

#[test]
fn logical_kind_predicates() {
    let g = LogicalKind::Gate(prim(PrimitiveKind::TOGGLE));
    assert!(g.is_gate() && g.is_primitive() && g.is_primitive_kind(PrimitiveKind::TOGGLE));
    assert!(!g.is_primitive_kind(PrimitiveKind::PULSE));
    assert!(!LogicalKind::Gate(GateKind::Custom).is_primitive());
    assert!(LogicalKind::Wire.is_wire() && !LogicalKind::Wire.is_io());
    assert!(LogicalKind::IO(IOKind::Input).is_input() && !LogicalKind::IO(IOKind::Input).is_output());
    assert!(LogicalKind::IO(IOKind::Output).is_output() && LogicalKind::IO(IOKind::Output).is_io());
    assert_eq!(g.as_gate().unwrap(), prim(PrimitiveKind::TOGGLE));
    assert_eq!(LogicalKind::Wire.as_gate().unwrap_err().0, "Not a gate kind");
}

#[test]
fn chip_captures_circuit_and_boundary() {
    // TOGGLE 0 (out 1), LIGHT 2 (in 3), wire 4 from 1 to 3
    let mut d = Data::new();
    d.add_gate(prim(PrimitiveKind::TOGGLE), at());
    d.add_gate(prim(PrimitiveKind::LIGHT), at());
    d.apply_ui_event(primary(1)).unwrap();
    d.apply_ui_event(primary(3)).unwrap();
    d.apply_ui_event(UiEvent::ClickedGate(0, at(), true)).unwrap();
    let chip = ChipDefenition::from_live_data(&d.live_data, "latch".to_string(), 100, ChipPortPolicy::toggles_and_lights());
    assert_eq!(chip.id, 100);
    assert_eq!(chip.name, "latch");
    assert_eq!(chip.sub_gates.len(), 2);
    assert_eq!(chip.sub_gates[0].label, "TOGGLE");
    assert_eq!(chip.sub_wires.len(), 1);
    assert_eq!(chip.sub_wires[0].dest, Some(3));
    assert_eq!(chip.sub_inputs.len(), 1);
    assert_eq!(chip.sub_outputs.len(), 1);
    assert_eq!(chip.sub_outputs[0].out_wire_ids, vec![4]);
    assert_eq!(chip.chip_ins, vec![(0, true)]);
    assert_eq!(chip.chip_outs, vec![(2, false)]);
    assert_eq!((chip.n_in, chip.n_out), (1, 1));
    let blank = ChipDefenition::create_blank_chip("empty".to_string(), 5);
    assert!(blank.sub_gates.is_empty() && blank.chip_ins.is_empty());
}

#[test]
fn element_setters() {
    let mut g = Logical::Gate(Gate::new("g".to_string(), 0));
    assert_eq!(g.set_position(GridVec2::new(5, 6)), Ok(()));
    assert_eq!(g.get_position(), Ok(GridVec2::new(5, 6)));
    let mut w = Wire::from_io(1, GridVec2::new(2, 3), 9);
    assert_eq!(w.line.p1, GridVec2::new(2, 3));
    w.set_p2(GridVec2::new(7, 8));
    assert_eq!(w.line.p2, GridVec2::new(7, 8));
    w.set_signal(true);
    w.dest = Some(4);
    w.connected = true;
    w.delete();
    assert!(!w.signal && !w.connected && w.dest.is_none());
    let mut l = Logical::Wire(w);
    assert_eq!(l.set_position(at()), Err(SimError::InvalidOperation));
    assert_eq!(l.get_id(), 9);
}

#[test]
fn removing_a_gate_takes_its_ports_and_wires() {
    // HI 0 (out 1), NOT 2 (in 3, out 4), LIGHT 5 (in 6); wires 7: 1->3, 8: 4->6
    let mut d = Data::new();
    d.add_gate(prim(PrimitiveKind::HISIGNAL), at());
    d.add_gate(prim(PrimitiveKind::NOT), at());
    d.add_gate(prim(PrimitiveKind::LIGHT), at());
    d.apply_ui_event(primary(1)).unwrap();
    d.apply_ui_event(primary(3)).unwrap();
    d.apply_ui_event(primary(4)).unwrap();
    d.apply_ui_event(primary(6)).unwrap();
    assert_eq!(d.remove_gate(2), Ok(()));
    for gone in [2, 3, 4, 7, 8] {
        assert!(d.get(gone).is_none(), "{} should be gone", gone);
    }
    assert_eq!(out_wires(&d, 1), Vec::<usize>::new());
    assert_eq!(input_source(&d, 6), None);
    assert_eq!(d.ids(), vec![0, 1, 5, 6]);
    d.update_logicals();
    assert_eq!(d.get_signal(6), Ok(false));
    assert_eq!(d.remove_gate(2), Err(SimError::MissingElement));
    assert_eq!(d.remove_gate(1), Err(SimError::InvalidOperation));
}

#[test]
fn removing_a_gate_drops_a_held_wire_from_it() {
    let mut d = source_and_light();
    d.apply_ui_event(primary(1)).unwrap();
    assert_eq!(d.holding_wire, Some(4));
    assert_eq!(d.remove_gate(0), Ok(()));
    assert_eq!(d.holding_wire, None);
    assert!(d.get(4).is_none());
}

#[test]
fn removing_a_bound_wire_frees_its_input() {
    let mut d = source_and_light();
    d.apply_ui_event(primary(1)).unwrap();
    d.apply_ui_event(primary(3)).unwrap();
    assert_eq!(d.remove_wire(4), Ok(()));
    assert_eq!(input_source(&d, 3), None);
    assert_eq!(out_wires(&d, 1), Vec::<usize>::new());
    assert_eq!(d.remove_wire(4), Err(SimError::MissingElement));
    assert_eq!(d.remove_wire(3), Err(SimError::InvalidOperation));
    // the freed input takes a new wire
    d.apply_ui_event(primary(1)).unwrap();
    assert_eq!(d.apply_ui_event(primary(3)), Ok(()));
    assert_eq!(input_source(&d, 3), Some(5));
}

#[test]
fn ports_sit_beside_their_gate() {
    let mut d = Data::new();
    d.add_gate(prim(PrimitiveKind::AND), GridVec2::new(100, 200));
    assert_eq!(d.port_position(1), Ok(GridVec2::new(50, 185)));
    assert_eq!(d.port_position(2), Ok(GridVec2::new(50, 215)));
    assert_eq!(d.port_position(3), Ok(GridVec2::new(150, 200)));
    assert_eq!(d.port_position(0), Err(SimError::InvalidOperation));
    assert_eq!(d.port_position(9), Err(SimError::MissingElement));
}

#[test]
fn wire_lines_follow_pointer_and_ports() {
    // HI 0 at (0, 0) with output 1; LIGHT 2 at (300, 0) with input 3
    let mut d = Data::new();
    d.add_gate(prim(PrimitiveKind::HISIGNAL), GridVec2::new(0, 0));
    d.add_gate(prim(PrimitiveKind::LIGHT), GridVec2::new(300, 0));
    d.apply_ui_event(primary(1)).unwrap();
    d.update_wire_positions(Some(GridVec2::new(10, 20)), GridVec2::new(5, 5));
    let w = wire(&d, 4);
    assert_eq!(w.line.p1, GridVec2::new(45, -5));
    assert_eq!(w.line.p2, GridVec2::new(10, 20));
    d.apply_ui_event(primary(3)).unwrap();
    d.update_wire_positions(None, GridVec2::new(0, 0));
    let w = wire(&d, 4);
    assert_eq!(w.line.p1, GridVec2::new(50, 0));
    assert_eq!(w.line.p2, GridVec2::new(250, 0));
}

#[test]
fn palette_lines_are_read() {
    let t = gates::listing::parse_prim_line("AND:2:1").unwrap();
    assert_eq!(t.label, "AND");
    assert_eq!(t.kind, PrimitiveKind::AND);
    assert_eq!((t.n_ins, t.n_outs), (2, 1));
    let t = gates::listing::parse_prim_line("LIGHT:+1:0:extra").unwrap();
    assert_eq!(t.kind, PrimitiveKind::LIGHT);
    assert_eq!((t.n_ins, t.n_outs), (1, 0));
    assert!(gates::listing::parse_prim_line("AND:2").is_none());
    assert!(gates::listing::parse_prim_line("AND").is_none());
    assert!(gates::listing::parse_prim_line("AND:x:1").is_none());
    assert!(gates::listing::parse_prim_line("AND:2:").is_none());
    assert!(gates::listing::parse_prim_line("AND:99999999999999999999999:1").is_none());
    assert_eq!(gates::listing::parse_prim_line("Widget:0:3").unwrap().kind, PrimitiveKind::Unknown);
}

#[test]
fn saved_gate_lines_are_read() {
    let g = gates::listing::parse_gate_line("NOR:[2]:[1]", 12).unwrap();
    assert_eq!(g.label, "NOR");
    assert_eq!(g.kind, prim(PrimitiveKind::NOR));
    assert_eq!((g.id, g.n_in, g.n_out), (12, 2, 1));
    let g = gates::listing::parse_gate_line("Custom:ins[3]:outs[4]junk", 0).unwrap();
    assert_eq!(g.kind, GateKind::Custom);
    assert_eq!((g.n_in, g.n_out), (3, 4));
    let g = gates::listing::parse_gate_line("BUFFER:1:[x]", 0).unwrap();
    assert_eq!((g.n_in, g.n_out), (0, 0));
    assert!(gates::listing::parse_gate_line("BUFFER:[1]", 0).is_none());
}

#[test]
fn queued_gestures_are_handled_in_order() {
    let mut d = source_and_light();
    let events = vec![primary(3), primary(1), primary(3), primary(3), secondary(3)];
    let results = d.apply_ui_events(&events);
    assert_eq!(
        results,
        vec![Err(SimError::InvalidOperation), Ok(()), Ok(()), Err(SimError::InvalidOperation), Ok(())]
    );
    assert_eq!(d.holding_wire, Some(4));
    assert_eq!(wire(&d, 4).dest, None);
}

#[test]
fn chips_are_placed_as_opaque_nodes() {
    let mut d = Data::new();
    d.add_gate(prim(PrimitiveKind::TOGGLE), at());
    let chip = ChipDefenition::create_blank_chip("adder".to_string(), 77);
    let id = d.add_chip(chip);
    assert_eq!(id, 2);
    assert_eq!(d.get_kind(2), Ok(LogicalKind::Chip("adder".to_string())));
    assert_eq!(d.get_signal(2), Err(SimError::InvalidOperation));
    assert_eq!(d.get_position(2), Err(SimError::InvalidOperation));
    match d.get(2) {
        Some(Logical::Chip(c)) => assert_eq!(c.id, 2),
        _ => panic!("chip expected"),
    }
    d.update_logicals();
    assert_eq!(d.ids(), vec![0, 1, 2]);
}

#[test]
fn gate_kinds_have_labels() {
    assert_eq!(GateKind::Unset.to_label(), "None");
    assert_eq!(GateKind::Custom.to_label(), "Custom");
    assert_eq!(prim(PrimitiveKind::HISIGNAL).to_label(), "HI-SIGNAL");
}

#[test]
fn issued_ids_are_never_reused() {
    let mut d = Data::new();
    assert_eq!(d.next_id(), 0);
    assert_eq!(d.next_id(), 1);
    assert_eq!(d.add_gate(prim(PrimitiveKind::NOT), at()), 2);
    let chip_id = d.next_id();
    assert_eq!(chip_id, 5);
    assert_eq!(d.add_gate(prim(PrimitiveKind::AND), at()), 6);
    assert!(d.get(0).is_none() && d.get(5).is_none());
    assert_eq!(d.ids(), vec![2, 3, 4, 6, 7, 8, 9]);
}

#[test]
fn removing_an_unrelated_gate_keeps_the_held_wire() {
    let mut d = source_and_light();
    d.add_gate(prim(PrimitiveKind::NOT), at());
    d.apply_ui_event(primary(1)).unwrap();
    assert_eq!(d.holding_wire, Some(7));
    assert_eq!(d.remove_gate(4), Ok(()));
    assert_eq!(d.holding_wire, Some(7));
    assert_eq!(wire(&d, 7).source_id, 1);
}

#[test]
fn capture_copies_nested_chips() {
    let mut d = Data::new();
    d.add_gate(prim(PrimitiveKind::TOGGLE), at());
    let mut inner = ChipDefenition::create_blank_chip("inner".to_string(), 0);
    inner.chip_ins.push((4, true));
    inner.n_in = 1;
    d.add_chip(inner);
    let outer = ChipDefenition::from_live_data(&d.live_data, "outer".to_string(), 50, ChipPortPolicy::toggles_and_lights());
    assert_eq!(outer.sub_chips.len(), 1);
    assert_eq!(outer.sub_chips[0].name, "inner");
    assert_eq!(outer.sub_chips[0].id, 2);
    assert_eq!(outer.sub_chips[0].chip_ins, vec![(4, true)]);
    let again = ChipDefenition::from_live_data(&vec![Some(Logical::Chip(outer.duplicate()))], "top".to_string(), 60, ChipPortPolicy::toggles_and_lights());
    assert_eq!(again.sub_chips[0].sub_chips[0].name, "inner");
}
