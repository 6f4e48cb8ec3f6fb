use snomed_terminology::ecl::parser::parse;
use snomed_terminology::{
    CharacteristicType, DefinitionStatus, EclError, EclErrorKind, EclExecutor, EclExpression,
    EclQueryable, ExecutorConfig, ModifierType, Rf2Concept, Rf2Relationship,
    Rf2SimpleRefsetMember, SctId, SnomedStore,
};

fn create_test_store() -> SnomedStore {
    let mut store = SnomedStore::new();

    let concepts = vec![
        make_concept(138875005),
        make_concept(404684003),
        make_concept(73211009),
        make_concept(46635009),
        make_concept(44054006),
        make_concept(22298006),
    ];

    store.insert_concepts(concepts);

    let relationships = vec![
        make_is_a(1, 404684003, 138875005),
        make_is_a(2, 73211009, 404684003),
        make_is_a(3, 46635009, 73211009),
        make_is_a(4, 44054006, 73211009),
        make_is_a(5, 22298006, 404684003),
    ];

    store.insert_relationships(relationships);

    store
}

fn make_concept(id: SctId) -> Rf2Concept {
    Rf2Concept {
        id,
        effective_time: 20020131,
        active: true,
        module_id: 900000000000207008,
        definition_status_id: DefinitionStatus::PRIMITIVE_ID,
    }
}

fn make_is_a(id: SctId, source: SctId, dest: SctId) -> Rf2Relationship {
    Rf2Relationship {
        id,
        effective_time: 20020131,
        active: true,
        module_id: 900000000000207008,
        source_id: source,
        destination_id: dest,
        relationship_group: 0,
        type_id: 116680003,
        characteristic_type_id: CharacteristicType::INFERRED_ID,
        modifier_id: ModifierType::EXISTENTIAL_ID,
    }
}

#[test]
fn test_ecl_queryable_children() {
    let store = create_test_store();

    let children = EclQueryable::get_children(&store, 73211009);
    assert_eq!(children.len(), 2);
    assert!(children.contains(&46635009));
    assert!(children.contains(&44054006));
}

#[test]
fn test_ecl_queryable_parents() {
    let store = create_test_store();

    let parents = EclQueryable::get_parents(&store, 73211009);
    assert_eq!(parents, vec![404684003]);
}

#[test]
fn test_ecl_executor_descendant_query() {
    let store = create_test_store();
    let executor = EclExecutor::new(&store);

    let result = executor.execute("< 73211009").unwrap();
    assert_eq!(result.count(), 2);
    assert!(result.contains(46635009));
    assert!(result.contains(44054006));
}

#[test]
fn test_ecl_executor_descendant_or_self_query() {
    let store = create_test_store();
    let executor = EclExecutor::new(&store);

    let result = executor.execute("<< 73211009").unwrap();
    assert_eq!(result.count(), 3);
    assert!(result.contains(73211009));
    assert!(result.contains(46635009));
    assert!(result.contains(44054006));
}

#[test]
fn test_ecl_executor_ancestor_query() {
    let store = create_test_store();
    let executor = EclExecutor::new(&store);

    let result = executor.execute(">> 46635009").unwrap();
    assert!(result.contains(46635009));
    assert!(result.contains(73211009));
    assert!(result.contains(404684003));
    assert!(result.contains(138875005));
}

#[test]
fn test_ecl_executor_and_query() {
    let store = create_test_store();
    let executor = EclExecutor::new(&store);

    let result = executor.execute("<< 404684003 AND << 73211009").unwrap();

    assert!(result.contains(73211009));
    assert!(result.contains(46635009));
    assert!(result.contains(44054006));
}

#[test]
fn test_ecl_executor_minus_query() {
    let store = create_test_store();
    let executor = EclExecutor::new(&store);

    let result = executor.execute("<< 404684003 MINUS << 73211009").unwrap();

    assert!(result.contains(404684003));
    assert!(result.contains(22298006));
    assert!(!result.contains(73211009));
    assert!(!result.contains(46635009));
}

#[test]
fn test_ecl_executor_self_query() {
    let store = create_test_store();
    let executor = EclExecutor::new(&store);

    let result = executor.execute("73211009").unwrap();
    assert_eq!(result.count(), 1);
    assert!(result.contains(73211009));
}

#[test]
fn test_ecl_executor_matches() {
    let store = create_test_store();
    let executor = EclExecutor::new(&store);

    assert!(executor.matches(46635009, "<< 73211009").unwrap());

    assert!(!executor.matches(22298006, "<< 73211009").unwrap());
}

fn sorted(mut ids: Vec<SctId>) -> Vec<SctId> {
    ids.sort();
    ids
}

fn run(executor: &EclExecutor<SnomedStore>, ecl: &str) -> Vec<SctId> {
    sorted(executor.execute(ecl).unwrap().ids().clone())
}

#[test]
fn test_ecl_parse_builds_left_associated_trees() {
    assert_eq!(parse("73211009"), Ok(EclExpression::Concept(73211009)));
    assert_eq!(parse("  <<73211009 "), Ok(EclExpression::DescendantOrSelfOf(73211009)));
    assert_eq!(parse("< 1"), Ok(EclExpression::DescendantOf(1)));
    assert_eq!(parse(">2"), Ok(EclExpression::AncestorOf(2)));
    assert_eq!(parse(">> 3"), Ok(EclExpression::AncestorOrSelfOf(3)));
    assert_eq!(parse("^ 4"), Ok(EclExpression::MemberOf(4)));
    assert_eq!(
        parse("1 AND 2 OR 3 MINUS 4"),
        Ok(EclExpression::Minus(
            Box::new(EclExpression::Or(
                Box::new(EclExpression::And(
                    Box::new(EclExpression::Concept(1)),
                    Box::new(EclExpression::Concept(2)),
                )),
                Box::new(EclExpression::Concept(3)),
            )),
            Box::new(EclExpression::Concept(4)),
        ))
    );
    assert_eq!(
        parse("1 AND (2 OR (<3))"),
        Ok(EclExpression::And(
            Box::new(EclExpression::Concept(1)),
            Box::new(EclExpression::Or(
                Box::new(EclExpression::Concept(2)),
                Box::new(EclExpression::DescendantOf(3)),
            )),
        ))
    );
    assert_eq!(parse("((5))"), Ok(EclExpression::Concept(5)));
    assert_eq!(parse("18446744073709551615"), Ok(EclExpression::Concept(u64::MAX)));
}

#[test]
fn test_ecl_parse_errors_carry_position_and_kind() {
    let error = |position: usize, kind: EclErrorKind| Err(EclError { position, kind });
    assert_eq!(parse(""), error(0, EclErrorKind::UnexpectedEnd));
    assert_eq!(parse("   "), error(3, EclErrorKind::UnexpectedEnd));
    assert_eq!(parse("<< "), error(3, EclErrorKind::ExpectedIdentifier));
    assert_eq!(parse("< AND 1"), error(2, EclErrorKind::ExpectedIdentifier));
    assert_eq!(parse("1 AND"), error(5, EclErrorKind::UnexpectedEnd));
    assert_eq!(parse("(1 OR 2"), error(7, EclErrorKind::UnbalancedParentheses));
    assert_eq!(parse("1 OR 2)"), error(6, EclErrorKind::UnbalancedParentheses));
    assert_eq!(parse("1 2"), error(2, EclErrorKind::UnexpectedToken));
    assert_eq!(parse("AND 1"), error(0, EclErrorKind::UnexpectedToken));
    assert_eq!(parse("1 & 2"), error(2, EclErrorKind::UnexpectedCharacter));
    assert_eq!(parse("1 and 2"), error(2, EclErrorKind::UnexpectedCharacter));
    assert_eq!(parse("1 ANDY 2"), error(2, EclErrorKind::UnexpectedCharacter));
    assert_eq!(parse("! 1"), error(0, EclErrorKind::UnexpectedCharacter));
    assert_eq!(parse("18446744073709551616"), error(0, EclErrorKind::InvalidIdentifier));
    assert_eq!(parse("()"), error(1, EclErrorKind::UnexpectedToken));
    assert_eq!(
        EclError { position: 0, kind: EclErrorKind::UnbalancedParentheses }.message(),
        "unbalanced parentheses"
    );
}

#[test]
fn test_ecl_set_algebra() {
    let store = create_test_store();
    let executor = EclExecutor::new(&store);
    assert_eq!(run(&executor, "< 73211009"), sorted(vec![46635009, 44054006]));
    assert_eq!(run(&executor, "<< 73211009"), sorted(vec![73211009, 46635009, 44054006]));
    assert_eq!(
        run(&executor, "<< 404684003 MINUS << 73211009"),
        sorted(vec![404684003, 22298006])
    );
    assert_eq!(run(&executor, "> 46635009"), sorted(vec![73211009, 404684003, 138875005]));
    assert_eq!(
        run(&executor, "<< 404684003 AND << 73211009"),
        run(&executor, "<< 73211009 AND << 404684003")
    );
    assert_eq!(
        run(&executor, "< 73211009 OR 22298006"),
        run(&executor, "22298006 OR < 73211009")
    );
    assert_eq!(run(&executor, "< 73211009 OR 22298006"), sorted(vec![46635009, 44054006, 22298006]));
    assert_eq!(
        run(&executor, "<< 404684003 MINUS (< 73211009 OR 22298006)"),
        sorted(vec![404684003, 73211009])
    );
    assert_eq!(
        run(&executor, "<< 404684003 MINUS < 73211009 OR 22298006"),
        sorted(vec![404684003, 73211009, 22298006])
    );
    assert!(run(&executor, "999").is_empty());
    assert!(run(&executor, "<< 999").is_empty());
    assert!(run(&executor, "^ 999").is_empty());
    assert!(executor.execute("<< 404684003 MINUS").is_err());
}

#[test]
fn test_ecl_descendants_or_self_adds_known_self() {
    let store = create_test_store();
    let executor = EclExecutor::new(&store);
    for id in [138875005u64, 404684003, 73211009, 46635009, 999] {
        let mut expected = run(&executor, &format!("< {}", id));
        if store.has_concept(id) {
            expected.push(id);
        }
        assert_eq!(run(&executor, &format!("<< {}", id)), sorted(expected));
    }
}

#[test]
fn test_ecl_matches_agrees_with_execute() {
    let mut store = create_test_store();
    store.insert_refset_members(vec![
        Rf2SimpleRefsetMember {
            id: 1,
            effective_time: 20200101,
            active: true,
            module_id: 900000000000207008,
            refset_id: 723264001,
            referenced_component_id: 46635009,
        },
        Rf2SimpleRefsetMember {
            id: 2,
            effective_time: 20200101,
            active: true,
            module_id: 900000000000207008,
            refset_id: 723264001,
            referenced_component_id: 46635009,
        },
        Rf2SimpleRefsetMember {
            id: 3,
            effective_time: 20200101,
            active: true,
            module_id: 900000000000207008,
            refset_id: 723264001,
            referenced_component_id: 22298006,
        },
    ]);
    let executor = EclExecutor::new(&store);
    assert_eq!(run(&executor, "^ 723264001"), sorted(vec![46635009, 22298006]));
    assert_eq!(executor.execute("^ 723264001").unwrap().count(), 2);
    let queries = [
        "73211009",
        "< 404684003",
        "<< 73211009",
        "> 46635009",
        ">> 46635009",
        "^ 723264001",
        "<< 404684003 AND ^ 723264001",
        "< 73211009 OR > 73211009",
        "<< 138875005 MINUS (<< 73211009 OR ^ 723264001)",
    ];
    let ids = [138875005u64, 404684003, 73211009, 46635009, 44054006, 22298006, 999];
    for query in queries {
        let result = executor.execute(query).unwrap();
        for id in ids {
            assert_eq!(executor.matches(id, query).unwrap(), result.contains(id));
        }
    }
    assert!(executor.matches(1, "<< (").is_err());
}

#[test]
fn test_ecl_cap_truncates_and_reports() {
    let store = create_test_store();
    let capped = EclExecutor::with_config(&store, ExecutorConfig { max_results: Some(2) });
    let result = capped.execute("<< 404684003").unwrap();
    assert_eq!(result.count(), 2);
    assert!(result.is_truncated());
    assert!(!result.is_empty());
    let exact = capped.execute("< 73211009").unwrap();
    assert_eq!(exact.count(), 2);
    assert!(!exact.is_truncated());
    let free = EclExecutor::with_config(&store, ExecutorConfig::default());
    let all = free.execute("<< 404684003").unwrap();
    assert_eq!(all.count(), 5);
    assert!(!all.is_truncated());
    for id in result.ids() {
        assert!(all.contains(*id));
    }
}

#[test]
fn test_ecl_executor_hierarchy_helpers() {
    let store = create_test_store();
    let executor = EclExecutor::new(&store);
    assert_eq!(sorted(executor.get_descendants(73211009)), sorted(vec![46635009, 44054006]));
    assert_eq!(executor.get_descendants_limited(404684003, 3).len(), 3);
    assert_eq!(executor.get_descendants_limited(73211009, 10).len(), 2);
    assert_eq!(
        sorted(executor.get_ancestors(46635009)),
        sorted(vec![73211009, 404684003, 138875005])
    );
    assert!(executor.is_subsumed_by(46635009, 404684003));
    assert!(executor.is_subsumed_by(46635009, 46635009));
    assert!(!executor.is_subsumed_by(404684003, 46635009));
    assert_eq!(executor.get_parents(73211009), vec![404684003]);
    assert_eq!(executor.get_children(73211009), vec![46635009, 44054006]);
    assert_eq!(EclQueryable::all_concept_ids(&store).len(), 6);
    assert!(EclQueryable::has_concept(&store, 73211009));
}
