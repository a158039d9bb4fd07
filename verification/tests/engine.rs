use bfi::{InterpreterState, Outcome, Pulled, StreamError};

fn units(text: &str) -> Vec<Pulled> {
    text.chars().map(Pulled::Char).collect()
}

fn machine(program: &str, input: &str) -> InterpreterState {
    InterpreterState::new(units(program), units(input))
}

/// Steps until an error, as a driver does; gives the characters written, the
/// anomalies reported and the error that ended the run.
fn run(state: &mut InterpreterState, limit: usize) -> (Vec<char>, Vec<Outcome>, StreamError) {
    let mut written = Vec::new();
    let mut reported = Vec::new();
    for _ in 0..limit {
        assert!(state.can_step());
        match state.repl() {
            Ok(Outcome::Silent) => {}
            Ok(Outcome::Output(c)) => written.push(c),
            Ok(anomaly) => reported.push(anomaly),
            Err(e) => return (written, reported, e),
        }
    }
    panic!("the run did not end within {} steps", limit);
}

#[test]
fn three_increments_then_output() {
    let mut state = machine("+++.", "");
    assert_eq!(state.repl(), Ok(Outcome::Silent));
    assert_eq!(state.repl(), Ok(Outcome::Silent));
    assert_eq!(state.repl(), Ok(Outcome::Silent));
    assert_eq!(state.dereference(), 3);
    assert_eq!(state.repl(), Ok(Outcome::Output('\u{3}')));
    assert_eq!(state.instruction_pointer(), 4);
    assert_eq!(state.repl(), Err(StreamError::ExhaustedError));
    assert_eq!(state.instruction_pointer(), 4);
    assert_eq!(state.dereference(), 3);
}

#[test]
fn three_increments_then_output_as_a_run() {
    let mut state = machine("+++.", "");
    let (written, reported, end) = run(&mut state, 100);
    assert_eq!(written, vec!['\u{3}']);
    assert!(reported.is_empty());
    assert_eq!(end, StreamError::ExhaustedError);
}

#[test]
fn a_loop_counts_the_cell_down_to_zero() {
    let mut state = machine("+[-].", "");
    let (written, reported, end) = run(&mut state, 100);
    assert_eq!(written, vec!['\u{0}']);
    assert!(reported.is_empty());
    assert_eq!(end, StreamError::ExhaustedError);
    assert_eq!(state.dereference(), 0);
    assert_eq!(state.instructions(), &vec!['+', '[', '-', ']', '.']);
}

#[test]
fn a_loop_runs_once_for_each_count() {
    let mut state = machine("+++[>++<-]>.", "");
    let (written, _, end) = run(&mut state, 1000);
    assert_eq!(written, vec!['\u{6}']);
    assert_eq!(end, StreamError::ExhaustedError);
    assert_eq!(state.pointer(), 1);
    assert_eq!(state.dereference(), 6);
}

#[test]
fn a_read_without_input_is_exhausted() {
    let mut state = machine(",", "");
    *state.dereference_mut() = 42;
    assert_eq!(state.repl(), Err(StreamError::ExhaustedError));
    assert_eq!(state.dereference(), 42);
    assert_eq!(state.instruction_pointer(), 0);
    assert_eq!(state.taken(), 0);
    assert_eq!(state.instructions(), &vec![',']);
}

#[test]
fn a_read_without_input_leaves_a_zero_cell_zero() {
    let mut state = machine(",", "");
    assert_eq!(state.repl(), Err(StreamError::ExhaustedError));
    assert_eq!(state.dereference(), 0);
}

#[test]
fn read_alone_reports_the_end_of_the_input() {
    let mut state = machine("", "");
    assert_eq!(state.read(), Err(StreamError::ExhaustedError));
    assert_eq!(state.taken(), 0);
}

#[test]
fn a_read_stores_the_code_point() {
    let mut state = machine(",>,>,", "A\u{e9}\u{10FFFF}");
    let (_, _, end) = run(&mut state, 100);
    assert_eq!(end, StreamError::ExhaustedError);
    assert_eq!(state.taken(), 3);
    assert_eq!(state.dereference(), 0x10FFFF);
    state.decrement();
    assert_eq!(state.dereference(), 0xE9);
    state.decrement();
    assert_eq!(state.dereference(), 65);
}

#[test]
fn a_read_overwrites_the_cell() {
    let mut state = machine("+++,", "\u{0}");
    let (_, _, end) = run(&mut state, 100);
    assert_eq!(end, StreamError::ExhaustedError);
    assert_eq!(state.dereference(), 0);
}

#[test]
fn a_fault_in_the_input_is_a_decode_error() {
    let mut state = InterpreterState::new(units("+,"), vec![Pulled::Invalid, Pulled::Char('b')]);
    assert_eq!(state.repl(), Ok(Outcome::Silent));
    assert_eq!(state.repl(), Err(StreamError::DecodeError));
    assert_eq!(state.dereference(), 1);
    assert_eq!(state.taken(), 1);
    assert_eq!(state.instruction_pointer(), 1);
    assert_eq!(state.repl(), Ok(Outcome::Silent));
    assert_eq!(state.dereference(), 98);
    assert_eq!(state.instruction_pointer(), 2);
}

#[test]
fn supplied_input_is_read_in_order() {
    let mut state = machine(",>,", "");
    state.supply_input(Pulled::Char('x'));
    state.supply_input(Pulled::Char('y'));
    assert_eq!(state.repl(), Ok(Outcome::Silent));
    assert_eq!(state.dereference(), 120);
    assert_eq!(state.repl(), Ok(Outcome::Silent));
    assert_eq!(state.repl(), Ok(Outcome::Silent));
    assert_eq!(state.dereference(), 121);
    assert_eq!(state.taken(), 2);
}

#[test]
fn an_unmatched_close_bracket_is_reported_and_passed() {
    let mut state = machine("]", "");
    *state.dereference_mut() = 1;
    assert_eq!(state.repl(), Ok(Outcome::UnmatchedCloseBracket));
    assert_eq!(state.instruction_pointer(), 1);
    assert_eq!(state.dereference(), 1);
    assert_eq!(state.repl(), Err(StreamError::ExhaustedError));
}

#[test]
fn an_unmatched_close_bracket_does_not_halt_the_run() {
    let mut state = machine("+]+.", "");
    let (written, reported, end) = run(&mut state, 100);
    assert_eq!(written, vec!['\u{2}']);
    assert_eq!(reported, vec![Outcome::UnmatchedCloseBracket]);
    assert_eq!(end, StreamError::ExhaustedError);
}

#[test]
fn a_close_bracket_on_a_zero_cell_is_silent() {
    let mut state = machine("]", "");
    assert_eq!(state.repl(), Ok(Outcome::Silent));
    assert_eq!(state.instruction_pointer(), 1);
}

#[test]
fn an_open_bracket_on_a_zero_cell_skips_the_loop() {
    let mut state = machine("[+]", "");
    assert_eq!(state.repl(), Ok(Outcome::Silent));
    assert_eq!(state.instruction_pointer(), 3);
    assert_eq!(state.dereference(), 0);
    assert_eq!(state.instructions(), &vec!['[', '+', ']']);
    assert_eq!(state.repl(), Err(StreamError::ExhaustedError));
    assert_eq!(state.dereference(), 0);
}

#[test]
fn a_skipped_loop_is_followed_by_the_next_instruction() {
    let mut state = machine("[+]>+.", "");
    let (written, _, end) = run(&mut state, 100);
    assert_eq!(written, vec!['\u{1}']);
    assert_eq!(end, StreamError::ExhaustedError);
    assert_eq!(state.pointer(), 1);
    state.decrement();
    assert_eq!(state.dereference(), 0);
}

#[test]
fn an_open_bracket_on_a_nonzero_cell_falls_through() {
    let mut state = machine("[+]", "");
    *state.dereference_mut() = u32::MAX;
    assert_eq!(state.repl(), Ok(Outcome::Silent));
    assert_eq!(state.instruction_pointer(), 1);
    assert_eq!(state.instructions(), &vec!['[']);
    assert_eq!(state.repl(), Ok(Outcome::Silent));
    assert_eq!(state.dereference(), 0);
    assert_eq!(state.repl(), Ok(Outcome::Silent));
    assert_eq!(state.instruction_pointer(), 3);
}

#[test]
fn the_forward_search_finds_a_materialized_bracket() {
    let mut state = machine("+[-]+[.].", "");
    *state.dereference_mut() = 0;
    for _ in 0..9 {
        assert_eq!(state.read_file(), Ok(()));
    }
    assert_eq!(state.jump_if_zero(), Ok(()));
    assert_eq!(state.instruction_pointer(), 3);
    assert_eq!(state.pulled(), 9);
}

#[test]
fn the_forward_search_takes_the_nearest_bracket() {
    let mut state = machine("[[+]+]", "");
    assert_eq!(state.repl(), Ok(Outcome::Silent));
    assert_eq!(state.instruction_pointer(), 4);
    assert_eq!(state.instructions(), &vec!['[', '[', '+', ']']);
    assert_eq!(state.repl(), Ok(Outcome::Silent));
    assert_eq!(state.dereference(), 1);
}

#[test]
fn the_backward_search_takes_the_nearest_bracket() {
    let mut state = machine("+[>[-]+<-]", "");
    for _ in 0..7 {
        assert_eq!(state.repl(), Ok(Outcome::Silent));
    }
    assert_eq!(state.instruction_pointer(), 9);
    assert_eq!(state.pointer(), 0);
    *state.dereference_mut() = 5;
    assert_eq!(state.repl(), Ok(Outcome::Silent));
    assert_eq!(state.instruction_pointer(), 4);
}

#[test]
fn a_backward_jump_lands_after_the_open_bracket() {
    let mut state = machine("[-]", "");
    *state.dereference_mut() = 2;
    assert_eq!(state.repl(), Ok(Outcome::Silent));
    assert_eq!(state.repl(), Ok(Outcome::Silent));
    assert_eq!(state.repl(), Ok(Outcome::Silent));
    assert_eq!(state.instruction_pointer(), 1);
    assert_eq!(state.dereference(), 1);
}

#[test]
fn jump_if_nonzero_alone_moves_onto_the_open_bracket() {
    let mut state = machine("[-]", "");
    *state.dereference_mut() = 2;
    assert_eq!(state.repl(), Ok(Outcome::Silent));
    assert_eq!(state.repl(), Ok(Outcome::Silent));
    assert_eq!(state.jump_if_nonzero(), Outcome::Silent);
    assert_eq!(state.instruction_pointer(), 0);
}

#[test]
fn jump_if_nonzero_alone_reports_a_missing_bracket() {
    let mut state = machine("+]", "");
    assert_eq!(state.repl(), Ok(Outcome::Silent));
    assert_eq!(state.jump_if_nonzero(), Outcome::UnmatchedCloseBracket);
    assert_eq!(state.instruction_pointer(), 1);
}

#[test]
fn a_search_that_exhausts_the_source_ends_past_the_end() {
    let mut state = machine("[+ and more + text", "");
    assert_eq!(state.repl(), Ok(Outcome::Silent));
    assert_eq!(state.instructions(), &vec!['[', '+', '+']);
    assert_eq!(state.instruction_pointer(), 3);
    assert_eq!(state.pulled(), 18);
    assert_eq!(state.dereference(), 0);
    assert_eq!(state.repl(), Err(StreamError::ExhaustedError));
    assert_eq!(state.dereference(), 0);
}

#[test]
fn jump_if_zero_alone_stops_on_the_last_instruction_of_an_exhausted_source() {
    let mut state = machine("[+-", "");
    assert_eq!(state.read_file(), Ok(()));
    assert_eq!(state.jump_if_zero(), Ok(()));
    assert_eq!(state.instruction_pointer(), 2);
    assert_eq!(state.instructions(), &vec!['[', '+', '-']);
}

#[test]
fn jump_if_zero_alone_stops_on_the_close_bracket() {
    let mut state = machine("[+-]>", "");
    assert_eq!(state.read_file(), Ok(()));
    assert_eq!(state.jump_if_zero(), Ok(()));
    assert_eq!(state.instruction_pointer(), 3);
    assert_eq!(state.instructions(), &vec!['[', '+', '-', ']']);
    assert_eq!(state.pulled(), 4);
}

#[test]
fn jump_if_zero_alone_does_nothing_on_a_nonzero_cell() {
    let mut state = machine("[+-]>", "");
    *state.dereference_mut() = 1;
    assert_eq!(state.read_file(), Ok(()));
    assert_eq!(state.jump_if_zero(), Ok(()));
    assert_eq!(state.instruction_pointer(), 0);
    assert_eq!(state.pulled(), 1);
}

#[test]
fn a_fault_met_by_the_forward_search_is_a_decode_error() {
    let source = vec![
        Pulled::Char('['),
        Pulled::Char('+'),
        Pulled::Char('x'),
        Pulled::Invalid,
        Pulled::Char(']'),
    ];
    let mut state = InterpreterState::new(source, Vec::new());
    assert_eq!(state.repl(), Err(StreamError::DecodeError));
    assert_eq!(state.instruction_pointer(), 0);
    assert_eq!(state.instructions(), &vec!['[', '+']);
    assert_eq!(state.pulled(), 4);
    assert_eq!(state.dereference(), 0);
}

#[test]
fn output_of_a_valid_scalar_value() {
    let mut state = machine(".", "");
    *state.dereference_mut() = 0xE9;
    assert_eq!(state.write(), Outcome::Output('\u{e9}'));
    assert_eq!(state.repl(), Ok(Outcome::Output('\u{e9}')));
    assert_eq!(state.dereference(), 0xE9);
}

#[test]
fn output_at_the_edges_of_the_scalar_ranges() {
    let mut state = machine("", "");
    *state.dereference_mut() = 0xD7FF;
    assert_eq!(state.write(), Outcome::Output('\u{D7FF}'));
    *state.dereference_mut() = 0xD800;
    assert_eq!(state.write(), Outcome::InvalidCodepoint(0xD800));
    *state.dereference_mut() = 0xDFFF;
    assert_eq!(state.write(), Outcome::InvalidCodepoint(0xDFFF));
    *state.dereference_mut() = 0xE000;
    assert_eq!(state.write(), Outcome::Output('\u{E000}'));
    *state.dereference_mut() = 0x10FFFF;
    assert_eq!(state.write(), Outcome::Output('\u{10FFFF}'));
    *state.dereference_mut() = 0x110000;
    assert_eq!(state.write(), Outcome::InvalidCodepoint(0x110000));
    *state.dereference_mut() = u32::MAX;
    assert_eq!(state.write(), Outcome::InvalidCodepoint(u32::MAX));
}

#[test]
fn an_invalid_code_point_is_reported_and_passed() {
    let mut state = machine("-.+.", "");
    let (written, reported, end) = run(&mut state, 100);
    assert_eq!(written, vec!['\u{0}']);
    assert_eq!(reported, vec![Outcome::InvalidCodepoint(u32::MAX)]);
    assert_eq!(end, StreamError::ExhaustedError);
}

#[test]
fn moves_wrap_in_a_program() {
    let mut state = machine("<>+.", "");
    assert_eq!(state.repl(), Ok(Outcome::Silent));
    assert_eq!(state.pointer(), usize::MAX);
    assert_eq!(state.repl(), Ok(Outcome::Silent));
    assert_eq!(state.pointer(), 0);
    assert_eq!(state.repl(), Ok(Outcome::Silent));
    assert_eq!(state.repl(), Ok(Outcome::Output('\u{1}')));
}

#[test]
fn noise_between_instructions_changes_nothing() {
    let mut plain = machine("++>+++[<+>-]<.", "");
    let mut noisy = machine("add 2 and 3: ++ > +++ [ < + > - ] < . done", "");
    let (written_plain, _, _) = run(&mut plain, 1000);
    let (written_noisy, _, _) = run(&mut noisy, 1000);
    assert_eq!(written_plain, vec!['\u{5}']);
    assert_eq!(written_noisy, written_plain);
    assert_eq!(noisy.instructions(), plain.instructions());
}

#[test]
fn instructions_are_pulled_only_when_needed() {
    let mut state = machine("+-+-", "");
    assert_eq!(state.repl(), Ok(Outcome::Silent));
    assert_eq!(state.instructions().len(), 1);
    assert_eq!(state.pulled(), 1);
    assert_eq!(state.repl(), Ok(Outcome::Silent));
    assert_eq!(state.instructions().len(), 2);
    assert_eq!(state.pulled(), 2);
}
