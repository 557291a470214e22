use drift::dispatch::dispatch_stages;
use drift::interface::plan::{argument_positions_by_label, output_sources, OutputError, PlanError};

#[test]
fn positions_invert_labels() {
    let positions = argument_positions_by_label(&[2, 0], 4).unwrap();
    assert_eq!(positions, vec![Some(1), None, Some(0), None]);
    assert_eq!(argument_positions_by_label(&[], 2).unwrap(), vec![None, None]);
}

#[test]
fn label_beyond_capacity_is_refused() {
    assert_eq!(argument_positions_by_label(&[1, 5, 1], 4), Err(PlanError::LabelOutOfRange { label: 5 }));
}

#[test]
fn repeated_container_is_refused() {
    assert_eq!(argument_positions_by_label(&[1, 1, 7], 4), Err(PlanError::DuplicateContainer));
}

#[test]
fn results_go_back_to_their_arguments() {
    // Arguments: position 0 has label 2 (with state), position 1 label 0 (background).
    let positions = argument_positions_by_label(&[2, 0], 4).unwrap();
    let sources = output_sources(&[false, true], &[None, Some(2)], &positions, &[true, false]).unwrap();
    assert_eq!(sources, vec![Some(1), None]);
}

#[test]
fn missing_result_for_a_state_is_an_error() {
    let positions = argument_positions_by_label(&[2, 0], 4).unwrap();
    assert_eq!(
        output_sources(&[false, false], &[None, Some(2)], &positions, &[true, false]),
        Err(OutputError::MissingOutput)
    );
}

#[test]
fn result_without_source_is_an_error() {
    let positions = argument_positions_by_label(&[2], 4).unwrap();
    assert_eq!(output_sources(&[true], &[None], &positions, &[true]), Err(OutputError::OutputWithoutSource));
}

#[test]
fn result_for_unknown_container_is_an_error() {
    let positions = argument_positions_by_label(&[2], 4).unwrap();
    assert_eq!(
        output_sources(&[true, true], &[Some(2), Some(3)], &positions, &[true]),
        Err(OutputError::OutputForUnknownContainer)
    );
}

#[test]
fn stages_run_where_both_sides_are_present() {
    let model = [Some(10), None, Some(30), Some(40)];
    let input = [Some(1), Some(2), None, Some(4)];
    let out = dispatch_stages(&model, &input, |m: &i32, i: &i32| Ok::<i32, String>(m + i)).unwrap();
    assert_eq!(out, vec![Some(11), None, None, Some(44)]);
}

#[test]
fn stages_beyond_the_input_do_not_run() {
    let model = [Some(1), Some(2)];
    let input = [Some(5)];
    let out = dispatch_stages(&model, &input, |m: &i32, i: &i32| Ok::<i32, ()>(m * i)).unwrap();
    assert_eq!(out, vec![Some(5), None]);
}

#[test]
fn first_failing_stage_ends_the_run() {
    let model = [Some(1), Some(2), Some(3)];
    let input = [Some(0), Some(0), Some(0)];
    let r = dispatch_stages(&model, &input, |m: &i32, _i: &i32| if *m >= 2 { Err(*m) } else { Ok(*m) });
    assert_eq!(r, Err(2));
}

#[test]
fn stateless_argument_gets_no_result() {
    // Argument 0 is a background (no state), argument 1 a particle group.
    // Labels: argument 0 -> 0, argument 1 -> 1; stages integrate label 0 then 1.
    let positions = argument_positions_by_label(&[0, 1], 4).unwrap();
    let model = [Some('b'), Some('p')];
    let inputs: [Option<u8>; 2] = [None, Some(3)];
    let outputs: Result<Vec<Option<u8>>, ()> = dispatch_stages(&model, &inputs, |_m: &char, s: &u8| Ok(*s));
    let produced: Vec<bool> = outputs.unwrap().iter().map(|o| o.is_some()).collect();
    assert_eq!(produced, vec![false, true]);
    let sources = output_sources(&produced, &[Some(0), Some(1)], &positions, &[false, true]).unwrap();
    assert_eq!(sources, vec![None, Some(1)]);
}
