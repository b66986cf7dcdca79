use leblanc::compiler::parser::function_sorter::sort_functions;
use leblanc::compiler::parser::parse_structs::{FunctionType, IdentStore, ScopeSet, ScopeType, ScopeValue};

fn declared(id: usize) -> ScopeSet {
    let mut set = ScopeSet::new();
    set.insert(ScopeValue { scope: ScopeType::Global, arg_types: vec![], types: vec![], id });
    set
}

#[test]
fn linked_functions_are_numbered_last() {
    let mut groups = vec![
        (
            "main".to_string(),
            vec![
                (IdentStore::Function("main".to_string(), vec![], FunctionType::LeBlanc), declared(1)),
                (IdentStore::Variable("x".to_string()), declared(7)),
            ],
        ),
        (
            "print".to_string(),
            vec![(IdentStore::Function("print".to_string(), vec![], FunctionType::Linked), declared(0))],
        ),
        (
            "helper".to_string(),
            vec![(IdentStore::Function("helper".to_string(), vec![], FunctionType::LeBlanc), declared(3))],
        ),
    ];
    sort_functions(&mut groups);
    assert_eq!(groups[0].1[0].1.get_first_id(), Some(0));
    assert_eq!(groups[0].1[1].1.get_first_id(), Some(7));
    assert_eq!(groups[1].1[0].1.get_first_id(), Some(3));
    assert_eq!(groups[2].1[0].1.get_first_id(), Some(2));
}

#[test]
fn two_linked_functions_take_the_top_ids_last_first() {
    let mut groups = vec![(
        "all".to_string(),
        vec![
            (IdentStore::Function("a".to_string(), vec![], FunctionType::Linked), declared(2)),
            (IdentStore::Function("b".to_string(), vec![], FunctionType::LeBlanc), declared(4)),
            (IdentStore::Function("c".to_string(), vec![], FunctionType::Linked), declared(1)),
        ],
    )];
    sort_functions(&mut groups);
    let ids: Vec<Option<usize>> = groups[0].1.iter().map(|(_, s)| s.get_first_id()).collect();
    assert_eq!(ids, vec![Some(3), Some(2), Some(4)]);
}

#[test]
fn linked_functions_walked_in_falling_id_order_can_meet_a_leblanc_id() {
    // The renumbering compares each LeBlanc id, as already lowered, with the linked
    // function's old id: walked as 4 then 3, the LeBlanc function at 5 ends at 4, the id
    // the second linked function takes.
    let mut groups = vec![(
        "m".to_string(),
        vec![
            (IdentStore::Function("a".to_string(), vec![], FunctionType::LeBlanc), declared(5)),
            (IdentStore::Function("b".to_string(), vec![], FunctionType::Linked), declared(4)),
            (IdentStore::Function("c".to_string(), vec![], FunctionType::Linked), declared(3)),
        ],
    )];
    sort_functions(&mut groups);
    assert_eq!(groups[0].1[0].1.get_first_id(), Some(4));
    assert_eq!(groups[0].1[1].1.get_first_id(), Some(4));
    assert_eq!(groups[0].1[2].1.get_first_id(), Some(5));
}
