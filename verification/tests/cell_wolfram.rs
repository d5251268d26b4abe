use tetani::cell::ElementaryCellularAutomata;
use tetani::universe::Universe;

fn create_by_rule_and_run_for(rule: u8, turns: usize) {
    let mut eca = ElementaryCellularAutomata::new_by_rule(rule);
    assert_eq!(eca.print_cells(), "-------0-------\n");
    eca.run_for(turns);
    let row = "0".repeat(1 + 2 * turns);
    assert_eq!(eca.print_cells(), format!("-------{}-------\n", row));
}

#[test]
fn cell_rule_from_0_to_255_for_300_turns() {
    for rule in 0..255 {
        create_by_rule_and_run_for(rule, 300);
    }
}

#[test]
fn cell_rule_from_0_to_255_for_1000_turns() {
    for rule in 0..255 {
        create_by_rule_and_run_for(rule, 300);
    }
}

#[test]
fn cell_255_for_300() {
    create_by_rule_and_run_for(255, 300);
}

#[test]
fn cell_28_for_300() {
    create_by_rule_and_run_for(28, 300);
}

#[test]
fn cell_50_for_300() {
    create_by_rule_and_run_for(50, 300);
}

#[test]
fn cell_54_for_300() {
    create_by_rule_and_run_for(54, 300);
}

#[test]
fn cell_60_for_300() {
    create_by_rule_and_run_for(60, 300);
}

#[test]
fn cell_90_for_300() {
    create_by_rule_and_run_for(90, 300);
}

#[test]
fn cell_94_for_300() {
    create_by_rule_and_run_for(94, 300);
}

#[test]
fn cell_102_for_300() {
    create_by_rule_and_run_for(102, 300);
}

#[test]
fn cell_110_for_300() {
    create_by_rule_and_run_for(110, 300);
}

#[test]
fn cell_150_for_300() {
    create_by_rule_and_run_for(150, 300);
}

#[test]
fn cell_158_for_300() {
    create_by_rule_and_run_for(158, 300);
}

#[test]
fn cell_188_for_300() {
    create_by_rule_and_run_for(188, 300);
}

#[test]
fn cell_190_for_300() {
    create_by_rule_and_run_for(190, 300);
}

#[test]
fn cell_220_for_300() {
    create_by_rule_and_run_for(220, 300);
}

#[test]
fn cell_222_for_300() {
    create_by_rule_and_run_for(222, 300);
}

#[test]
fn cell_positions_of_the_next_row_read_the_current_row() {
    let mut eca = ElementaryCellularAutomata::new_by_rule(30);
    eca.transition();
    assert_eq!(eca.print_cells(), "-------000-------\n");
    for pos in 0..6 {
        assert_eq!(eca.get_value_in_new_pos_system(pos), false);
        assert_eq!(eca.transition_from_neightbours(pos), false);
    }
}

#[test]
fn cell_next_turn_widens_the_row_by_two() {
    let mut eca = ElementaryCellularAutomata::new_by_rule(110);
    eca.next_turn();
    assert_eq!(eca.print_cells(), "-------000-------\n");
    eca.run_for(0);
    assert_eq!(eca.print_cells(), "-------000-------\n");
    eca.run_for(2);
    assert_eq!(eca.print_cells(), "-------0000000-------\n");
}
