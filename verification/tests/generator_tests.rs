use leblanc::compiler::parser::ast::{Const, Location};
use leblanc::compiler::parser::generator::{ConstantTrack, StackCount};
use leblanc::native_types::LeBlancType;
use leblanc::rustblanc::ZCPath;

fn loc() -> Location {
    Location { file: ZCPath("g.lb"), byte_pos: (0, 1), line: 1, symbol: 1 }
}

fn empty_track() -> ConstantTrack {
    ConstantTrack { constants: vec![] }
}

#[test]
fn a_push_provides_its_types_without_moving_the_count() {
    let mut ins: Vec<&str> = vec![];
    let mut track = empty_track();
    let s = StackCount::new().macro_instruct(&mut ins, "load", 1, vec![LeBlancType::Int], &mut track);
    assert_eq!(ins, vec!["load"]);
    assert_eq!(s.instruct_count, 1);
    assert_eq!(s.stack_count, 0);
    assert_eq!(s.provided_types, vec![LeBlancType::Int]);
}

#[test]
fn a_needed_type_is_matched_against_the_stack() {
    let mut ins: Vec<&str> = vec![];
    let mut track = empty_track();
    let mut s = StackCount::new().macro_instruct(&mut ins, "load", 1, vec![LeBlancType::Int], &mut track);
    s.expect(LeBlancType::Int);
    let s = s.macro_instruct(&mut ins, "pop", -1, vec![], &mut track);
    assert!(s.errors.is_empty());
    assert_eq!(ins, vec!["load", "pop"]);
    assert_eq!(s.stack_count, 1);
    assert!(s.provided_types.is_empty());
    assert!(s.needed_types.is_empty());
}

#[test]
fn a_wrong_type_is_an_error_and_the_instruction_is_left_out() {
    let mut ins: Vec<&str> = vec![];
    let mut track = empty_track();
    let mut s = StackCount::new().macro_instruct(&mut ins, "load", 1, vec![LeBlancType::String], &mut track);
    s.expects(vec![LeBlancType::Int]);
    let s = s.macro_instruct(&mut ins, "pop", -1, vec![LeBlancType::Int], &mut track);
    assert_eq!(s.errors.len(), 1);
    assert_eq!(ins, vec!["load"]);
    assert_eq!(s.instruct_count, 2);
    assert_eq!(s.stack_count, 0);
    assert!(s.provided_types.is_empty());
}

#[test]
fn a_missing_value_is_an_error() {
    let mut ins: Vec<&str> = vec![];
    let mut track = empty_track();
    let mut s = StackCount::new();
    s.expect(LeBlancType::Boolean);
    let s = s.macro_instruct(&mut ins, "not", 0, vec![LeBlancType::Boolean], &mut track);
    assert_eq!(s.errors.len(), 1);
    assert!(ins.is_empty());
}

#[test]
fn an_open_constant_takes_the_needed_type() {
    let mut ins: Vec<&str> = vec![];
    let mut track = ConstantTrack {
        constants: vec![(Const::Whole(5, None, loc()), 0), (Const::Boolean(true, loc()), 1)],
    };
    let mut s = StackCount::new().macro_instruct(&mut ins, "const", 1, vec![LeBlancType::ConstantFlex(0)], &mut track);
    s.expect(LeBlancType::Short);
    let s = s.macro_instruct(&mut ins, "store", -1, vec![], &mut track);
    assert!(s.errors.is_empty());
    assert_eq!(track.constants.len(), 2);
    assert_eq!(track.constants[1].1, 0);
    match &track.constants[1].0 {
        Const::Whole(v, t, _) => {
            assert_eq!(*v, 5);
            assert_eq!(*t, Some(LeBlancType::Short));
        }
        _ => panic!("not a whole number"),
    }
}

#[test]
fn expects_keep_their_order() {
    let mut s = StackCount::new();
    s.expect(LeBlancType::Int);
    s.expects(vec![LeBlancType::String, LeBlancType::Boolean]);
    assert_eq!(s.needed_types, vec![LeBlancType::Int, LeBlancType::String, LeBlancType::Boolean]);
}
