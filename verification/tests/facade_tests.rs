use snomed_terminology::ecl::parser::parse;
use snomed_terminology::ecl::plan::render;
use snomed_terminology::lines::{
    parse_concept_line, parse_description_line, parse_relationship_line,
};
use snomed_terminology::mrcm::Cardinality;
use snomed_terminology::{
    CardinalityParseError, CharacteristicType, ConcreteValue, DefinitionStatus, DescriptionConfig,
    DescriptionInfo, DescriptionType, EclExecutor, EclExpression, EclQueryable, ModifierType,
    MrcmAttributeDomain, MrcmAttributeRange, MrcmDomain, Operation, RelationshipConfig,
    RelationshipInfo, Rf2AssociationRefsetMember, Rf2Concept, Rf2ConcreteRelationship, Rf2Config,
    Rf2Description, Rf2Error, Rf2LanguageRefsetMember, Rf2OwlExpression, Rf2Parser, Rf2Record,
    Rf2Relationship, Rf2SimpleRefsetMember, SctId, SnomedStore, TransitiveClosure,
};

fn concept(id: SctId, active: bool, definition_status_id: SctId) -> Rf2Concept {
    Rf2Concept {
        id,
        effective_time: 20020131,
        active,
        module_id: 900000000000207008,
        definition_status_id,
    }
}

fn relationship(id: SctId, source: SctId, destination: SctId, type_id: SctId) -> Rf2Relationship {
    Rf2Relationship {
        id,
        effective_time: 20020131,
        active: true,
        module_id: 900000000000207008,
        source_id: source,
        destination_id: destination,
        relationship_group: 2,
        type_id,
        characteristic_type_id: CharacteristicType::INFERRED_ID,
        modifier_id: ModifierType::EXISTENTIAL_ID,
    }
}

fn description(id: SctId, concept_id: SctId, type_id: SctId, term: &str) -> Rf2Description {
    Rf2Description {
        id,
        effective_time: 20020131,
        active: true,
        module_id: 900000000000207008,
        concept_id,
        language_code: "en".to_string(),
        type_id,
        term: term.to_string(),
        case_significance_id: 900000000000448009,
    }
}

fn facade_store() -> SnomedStore {
    let mut store = SnomedStore::new();
    store.insert_concepts(vec![
        concept(73211009, true, DefinitionStatus::FULLY_DEFINED_ID),
        concept(404684003, true, DefinitionStatus::PRIMITIVE_ID),
        concept(100005, false, DefinitionStatus::PRIMITIVE_ID),
    ]);
    let mut inactive = relationship(3, 73211009, 999, 363698007);
    inactive.active = false;
    store.insert_relationships(vec![
        relationship(1, 73211009, 404684003, 116680003),
        relationship(2, 73211009, 113331007, 363698007),
        inactive,
        relationship(4, 22298006, 73211009, 42752001),
    ]);
    store.insert_descriptions(vec![
        description(1, 73211009, DescriptionType::FSN_ID, "Diabetes mellitus (disorder)"),
        description(2, 73211009, DescriptionType::SYNONYM_ID, "Diabetes mellitus"),
        description(3, 404684003, DescriptionType::FSN_ID, "Clinical finding"),
        description(4, 100005, DescriptionType::FSN_ID, ") odd ( name"),
    ]);
    store
}

#[test]
fn test_facade_attributes_and_inbound() {
    let store = facade_store();
    assert_eq!(
        store.get_attributes(73211009),
        vec![RelationshipInfo { type_id: 363698007, destination_id: 113331007, group: 2 }]
    );
    assert!(store.get_attributes(404684003).is_empty());
    assert_eq!(
        store.get_inbound_relationships(73211009),
        vec![RelationshipInfo { type_id: 42752001, destination_id: 22298006, group: 2 }]
    );
    assert!(store.get_inbound_relationships(404684003).is_empty());
    assert!(store.get_concrete_values(73211009).is_empty());
}

#[test]
fn test_facade_concept_properties() {
    let store = facade_store();
    assert!(store.is_concept_active(73211009));
    assert!(!store.is_concept_active(100005));
    assert!(!store.is_concept_active(1));
    assert_eq!(store.get_concept_module(73211009), Some(900000000000207008));
    assert_eq!(store.get_concept_module(1), None);
    assert_eq!(store.get_concept_effective_time(73211009), Some(20020131));
    assert_eq!(store.get_concept_effective_time(1), None);
    assert_eq!(store.is_concept_primitive(73211009), Some(false));
    assert_eq!(store.is_concept_primitive(404684003), Some(true));
    assert_eq!(store.is_concept_primitive(1), None);
}

#[test]
fn test_facade_terms_and_semantic_tag() {
    let store = facade_store();
    assert_eq!(store.get_semantic_tag(73211009), Some("disorder".to_string()));
    assert_eq!(store.get_semantic_tag(404684003), None);
    assert_eq!(store.get_semantic_tag(100005), None);
    assert_eq!(store.get_semantic_tag(1), None);
    assert_eq!(
        EclQueryable::get_preferred_term(&store, 73211009),
        Some("Diabetes mellitus".to_string())
    );
    assert_eq!(EclQueryable::get_preferred_term(&store, 1), None);
    let infos: Vec<DescriptionInfo> = EclQueryable::get_descriptions(&store, 73211009);
    assert_eq!(infos.len(), 2);
    assert_eq!(infos[0].description_id, 1);
    assert_eq!(infos[0].term, "Diabetes mellitus (disorder)");
    assert_eq!(infos[0].language_code, "en");
    assert_eq!(infos[0].effective_time, Some(20020131));
    assert_eq!(infos[1].type_id, DescriptionType::SYNONYM_ID);
    assert!(EclQueryable::get_descriptions(&store, 1).is_empty());
}

#[test]
fn test_closure_built_on_a_store() {
    let mut store = facade_store();
    store.insert_concepts(vec![concept(46635009, true, DefinitionStatus::PRIMITIVE_ID)]);
    store.insert_relationships(vec![relationship(5, 46635009, 73211009, 116680003)]);
    let closure = TransitiveClosure::build(&store);
    let above = closure.get_ancestors(46635009).unwrap();
    assert_eq!(above.len(), 2);
    assert!(above.contains(&73211009) && above.contains(&404684003));
    assert!(closure.get_ancestors(73211009).unwrap().contains(&404684003));
    assert!(closure.get_ancestors(404684003).unwrap().is_empty());
    assert!(closure.get_ancestors(1).is_none());
    assert!(closure.get_descendants(1).is_none());
    assert_eq!(closure.get_descendants(404684003).unwrap().len(), 2);
    let mut with_self = closure.get_ancestors_or_self(46635009);
    with_self.sort();
    assert_eq!(with_self, vec![46635009, 73211009, 404684003]);
    assert_eq!(closure.get_descendants_or_self(1), vec![1]);
    assert!(closure.is_descendant_of(46635009, 404684003));
    assert!(!closure.is_descendant_of(46635009, 46635009));
    assert!(closure.is_ancestor_of(404684003, 46635009));
    assert!(!closure.is_ancestor_of(46635009, 404684003));
    let again = TransitiveClosure::build(&store);
    for id in [46635009u64, 73211009, 404684003, 100005] {
        assert_eq!(closure.get_ancestors(id), again.get_ancestors(id));
        assert_eq!(closure.get_descendants(id), again.get_descendants(id));
    }
}

#[test]
fn test_lines_decode_filter_and_drop() {
    let config = Rf2Config::default();
    assert_eq!(
        parse_concept_line("404684003\t20020131\t1\t900000000000207008\t900000000000074008", &config),
        Some(concept(404684003, true, DefinitionStatus::PRIMITIVE_ID))
    );
    assert_eq!(
        parse_concept_line("100005\t20020131\t0\t900000000000207008\t900000000000074008", &config),
        None
    );
    assert_eq!(
        parse_concept_line("404684003\t20020131\t1\t900000000000207008", &config),
        None
    );
    assert_eq!(
        parse_concept_line("x\t20020131\t1\t900000000000207008\t900000000000074008", &config),
        None
    );
    assert_eq!(
        parse_concept_line("1\t20020131\t1\t2\t3\textra\tcells", &config),
        Some(Rf2Concept {
            id: 1,
            effective_time: 20020131,
            active: true,
            module_id: 2,
            definition_status_id: 3
        })
    );
    let english = DescriptionConfig::english_terms();
    let line = "1\t20020131\t1\t900000000000207008\t73211009\ten\t900000000000003001\tDiabetes mellitus (disorder)\t900000000000448009";
    assert_eq!(
        parse_description_line(line, &english),
        Some(description(1, 73211009, DescriptionType::FSN_ID, "Diabetes mellitus (disorder)"))
    );
    assert_eq!(parse_description_line(&line.replace("\ten\t", "\tes\t"), &english), None);
    assert_eq!(
        parse_description_line(&line.replace("900000000000003001", "900000000000550004"), &english),
        None
    );
    let inferred = RelationshipConfig::inferred_only();
    let line = "1\t20020131\t1\t900000000000207008\t73211009\t404684003\t2\t116680003\t900000000000011006\t900000000000451002";
    assert_eq!(
        parse_relationship_line(line, &inferred),
        Some(relationship(1, 73211009, 404684003, 116680003))
    );
    assert_eq!(
        parse_relationship_line(&line.replace("900000000000011006", "900000000000010007"), &inferred),
        None
    );
    assert_eq!(parse_relationship_line(&line.replace("\t2\t", "\t70000\t"), &inferred), None);
}

#[test]
fn test_records_are_written_as_they_are_read() {
    let c = concept(404684003, true, DefinitionStatus::PRIMITIVE_ID);
    assert_eq!(
        c.to_record(),
        vec!["404684003", "20020131", "1", "900000000000207008", "900000000000074008"]
    );
    assert_eq!(Rf2Concept::from_record(&c.to_record()), Ok(c));
    let early = Rf2Concept { effective_time: 131, active: false, ..c };
    assert_eq!(early.to_record()[1], "00000131");
    assert_eq!(early.to_record()[2], "0");
    assert_eq!(Rf2Concept::from_record(&early.to_record()), Ok(early));

    let d = description(1, 73211009, DescriptionType::FSN_ID, "Diabetes mellitus (disorder)");
    assert_eq!(Rf2Description::from_record(&d.to_record()), Ok(d.clone()));
    assert_eq!(d.to_record()[7], "Diabetes mellitus (disorder)");
    let r = relationship(1, 73211009, 404684003, 116680003);
    assert_eq!(Rf2Relationship::from_record(&r.to_record()), Ok(r));
    for value in [
        ConcreteValue::Integer(500),
        ConcreteValue::Integer(-7),
        ConcreteValue::Integer(i64::MIN),
        ConcreteValue::Decimal("0.5".to_string()),
        ConcreteValue::String("tablet".to_string()),
        ConcreteValue::String(" spaced ".to_string()),
        ConcreteValue::String(String::new()),
    ] {
        let concrete = Rf2ConcreteRelationship {
            id: 2,
            effective_time: 20230101,
            active: true,
            module_id: 900000000000207008,
            source_id: 322236009,
            value,
            relationship_group: 1,
            type_id: 1142135004,
            characteristic_type_id: 900000000000011006,
            modifier_id: 900000000000451002,
        };
        assert_eq!(Rf2ConcreteRelationship::from_record(&concrete.to_record()), Ok(concrete));
    }
    let owl = Rf2OwlExpression {
        id: 3,
        effective_time: 20230101,
        active: true,
        module_id: 900000000000207008,
        refset_id: 733073007,
        referenced_component_id: 404684003,
        owl_expression: "SubClassOf(:404684003 :138875005)".to_string(),
    };
    assert_eq!(Rf2OwlExpression::from_record(&owl.to_record()), Ok(owl));
    let simple = Rf2SimpleRefsetMember {
        id: 4,
        effective_time: 20200101,
        active: true,
        module_id: 900000000000207008,
        refset_id: 723264001,
        referenced_component_id: 10,
    };
    assert_eq!(Rf2SimpleRefsetMember::from_record(&simple.to_record()), Ok(simple));
    let language = Rf2LanguageRefsetMember {
        id: 5,
        effective_time: 20200101,
        active: true,
        module_id: 900000000000207008,
        refset_id: 900000000000509007,
        referenced_component_id: 10,
        acceptability_id: 900000000000548007,
    };
    assert_eq!(Rf2LanguageRefsetMember::from_record(&language.to_record()), Ok(language));
    let association = Rf2AssociationRefsetMember {
        id: 6,
        effective_time: 20200101,
        active: true,
        module_id: 900000000000207008,
        refset_id: 900000000000526001,
        referenced_component_id: 10,
        target_component_id: 11,
    };
    assert_eq!(Rf2AssociationRefsetMember::from_record(&association.to_record()), Ok(association));
    let domain = MrcmDomain {
        id: "550e8400".to_string(),
        effective_time: 20240101,
        active: true,
        module_id: 900000000000207008,
        refset_id: 723589008,
        referenced_component_id: 404684003,
        domain_constraint: "<< 404684003".to_string(),
        parent_domain: Some(138875005),
        proximal_primitive_constraint: "<< 404684003".to_string(),
        proximal_primitive_refinement: None,
        domain_template_for_precoordination: "t1".to_string(),
        domain_template_for_postcoordination: "t2".to_string(),
        guide_url: Some("http://snomed.org".to_string()),
    };
    assert_eq!(MrcmDomain::from_record(&domain.to_record()), Ok(domain));
    let attribute_domain = MrcmAttributeDomain {
        id: "550e8401".to_string(),
        effective_time: 20240101,
        active: true,
        module_id: 900000000000207008,
        refset_id: 723604009,
        referenced_component_id: 363698007,
        domain_id: 404684003,
        grouped: true,
        attribute_cardinality: Cardinality::unbounded(),
        attribute_in_group_cardinality: Cardinality::new(0, Some(12)),
        rule_strength_id: 723597001,
        content_type_id: 723596005,
    };
    assert_eq!(attribute_domain.to_record()[8], "0..*");
    assert_eq!(attribute_domain.to_record()[9], "0..12");
    assert_eq!(MrcmAttributeDomain::from_record(&attribute_domain.to_record()), Ok(attribute_domain));
    let attribute_range = MrcmAttributeRange {
        id: "550e8402".to_string(),
        effective_time: 20240101,
        active: false,
        module_id: 900000000000207008,
        refset_id: 723592007,
        referenced_component_id: 363698007,
        range_constraint: "<< 123037004 |Body structure|".to_string(),
        attribute_rule: None,
        rule_strength_id: 723597001,
        content_type_id: 723596005,
    };
    assert_eq!(MrcmAttributeRange::from_record(&attribute_range.to_record()), Ok(attribute_range));
}

#[test]
fn test_canonical_rows_are_written_back_as_they_were() {
    let rows: Vec<Vec<&str>> = vec![
        vec!["404684003", "20020131", "1", "900000000000207008", "900000000000074008"],
        vec!["0", "00000000", "0", "1", "18446744073709551615"],
    ];
    for row in rows {
        let cells: Vec<String> = row.iter().map(|c| c.to_string()).collect();
        assert_eq!(Rf2Concept::from_record(&cells).unwrap().to_record(), cells);
    }
    let concrete: Vec<String> = vec![
        "1", "20230101", "1", "2", "3", "#-12", "4", "5", "6", "7",
    ]
    .into_iter()
    .map(String::from)
    .collect();
    assert_eq!(Rf2ConcreteRelationship::from_record(&concrete).unwrap().to_record(), concrete);
    let not_canonical: Vec<String> =
        vec!["007", "20020131", "1", "+2", "3"].into_iter().map(String::from).collect();
    assert_eq!(
        Rf2Concept::from_record(&not_canonical).unwrap().to_record(),
        vec!["7", "20020131", "1", "2", "3"]
    );
}

#[test]
fn test_batches_hold_the_records_in_order() {
    let mut data = String::from("id\teffectiveTime\tactive\tmoduleId\tdefinitionStatusId\n");
    for id in 1..=7 {
        data.push_str(&format!("{}\t20020131\t{}\t2\t3\n", id, if id == 4 { 0 } else { 1 }));
    }
    data.push_str("bad\t20020131\t1\t2\t3\n");
    data.push_str("9\t20020131\t1\t2\t3\n");
    let config = Rf2Config { active_only: true, batch_size: 3 };
    let mut parser = Rf2Parser::<Rf2Concept>::from_reader(data.as_bytes(), config).unwrap();
    let ids = |batch: Vec<Rf2Concept>| batch.iter().map(|c| c.id).collect::<Vec<_>>();
    assert_eq!(ids(parser.next_batch()), vec![1, 2, 3]);
    assert_eq!(ids(parser.next_batch()), vec![5, 6, 7]);
    assert_eq!(ids(parser.next_batch()), vec![9]);
    assert!(parser.next_batch().is_empty());

    let config = Rf2Config { active_only: true, batch_size: 3 };
    let parser = Rf2Parser::<Rf2Concept>::from_reader(data.as_bytes(), config).unwrap();
    let seen = std::cell::RefCell::new(Vec::new());
    let total = parser.parse_batched(|batch| {
        seen.borrow_mut().push(batch.len());
        Ok(())
    });
    assert_eq!(total, Ok(7));
    assert_eq!(seen.into_inner(), vec![3, 3, 1]);

    let config = Rf2Config { active_only: false, batch_size: 0 };
    let parser = Rf2Parser::<Rf2Concept>::from_reader(data.as_bytes(), config).unwrap();
    let calls = std::cell::Cell::new(0usize);
    let failed = parser.parse_batched(|_batch| {
        calls.set(calls.get() + 1);
        if calls.get() == 2 {
            Err(Rf2Error::Parse("sink is full".to_string()))
        } else {
            Ok(())
        }
    });
    assert_eq!(failed, Err(Rf2Error::Parse("sink is full".to_string())));
    assert_eq!(calls.get(), 2);
}

#[test]
fn test_expression_text_parses_back() {
    let and = |a: EclExpression, b: EclExpression| EclExpression::And(Box::new(a), Box::new(b));
    let or = |a: EclExpression, b: EclExpression| EclExpression::Or(Box::new(a), Box::new(b));
    let minus = |a: EclExpression, b: EclExpression| EclExpression::Minus(Box::new(a), Box::new(b));
    let left = minus(
        or(and(EclExpression::Concept(1), EclExpression::DescendantOf(2)), EclExpression::MemberOf(3)),
        EclExpression::AncestorOrSelfOf(4),
    );
    assert_eq!(render(&left), "1 AND < 2 OR ^ 3 MINUS >> 4");
    let right = and(
        EclExpression::DescendantOrSelfOf(1),
        or(EclExpression::AncestorOf(2), minus(EclExpression::Concept(3), EclExpression::Concept(0))),
    );
    assert_eq!(render(&right), "<< 1 AND (> 2 OR (3 MINUS 0))");
    for text in ["1 AND < 2 OR ^ 3 MINUS >> 4", "<< 1 AND (> 2 OR (3 MINUS 0))", "18446744073709551615"] {
        assert_eq!(render(&parse(text).unwrap()), text);
    }
    assert_eq!(parse(&render(&left)).unwrap(), left);
    assert_eq!(parse(&render(&right)).unwrap(), right);
}

#[test]
fn test_explain_lists_the_steps() {
    let store = facade_store();
    let executor = EclExecutor::new(&store);
    let plan = executor.explain("<< 404684003 AND (73211009 OR ^ 5)").unwrap();
    assert_eq!(plan.ecl, "<< 404684003 AND (73211009 OR ^ 5)");
    let steps: Vec<(Operation, &str, usize)> = plan
        .steps
        .iter()
        .map(|s| (s.operation, s.expression.as_str(), s.estimated_cardinality))
        .collect();
    assert_eq!(
        steps,
        vec![
            (Operation::DescendantOrSelfOf, "<< 404684003", 2),
            (Operation::Concept, "73211009", 1),
            (Operation::MemberOf, "^ 5", 0),
            (Operation::Or, "73211009 OR ^ 5", 1),
            (Operation::And, "<< 404684003 AND (73211009 OR ^ 5)", 1),
        ]
    );
    assert_eq!(plan.estimated_total, 1);
    assert!(executor.explain("<<").is_err());
    let minus = executor.explain("> 73211009 MINUS 1").unwrap();
    assert_eq!(minus.estimated_total, 1);
    assert_eq!(minus.steps.len(), 3);
    assert_eq!(minus.steps[1].estimated_cardinality, 0);
}

#[test]
fn test_errors_in_words() {
    assert_eq!(
        Rf2Error::InvalidSctId { value: "x".to_string() }.message(),
        "Invalid SCTID format: x"
    );
    assert_eq!(
        Rf2Error::InvalidBoolean { value: "2".to_string() }.message(),
        "Invalid boolean value: 2 (expected 0 or 1)"
    );
    assert_eq!(
        Rf2Error::InvalidHeader { expected: 5, found: 13 }.message(),
        "Invalid header: expected 5 columns, found 13"
    );
    assert_eq!(
        Rf2Error::UnexpectedColumn {
            position: 2,
            expected: "active".to_string(),
            found: "status".to_string()
        }
        .message(),
        "Unexpected column 'status' at position 2, expected 'active'"
    );
    assert_eq!(
        Rf2Error::RequiredFileMissing {
            file_type: "Concept, Description".to_string(),
            directory: "/data".to_string()
        }
        .message(),
        "Required RF2 file not found: Concept, Description in /data"
    );
    assert_eq!(Rf2Error::Io("denied".to_string()).message(), "IO error reading RF2 file: denied");
    assert_eq!(Rf2Error::Csv("bad row".to_string()).message(), "CSV parsing error: bad row");
    assert_eq!(
        Rf2Error::MissingColumn { column: "id".to_string() }.message(),
        "Missing required column: id"
    );
    assert_eq!(
        Rf2Error::InvalidDate { value: "2020".to_string() }.message(),
        "Invalid date format: 2020"
    );
    assert_eq!(
        Rf2Error::InvalidInteger { value: "x".to_string() }.message(),
        "Invalid integer value: x"
    );
    assert_eq!(Rf2Error::FileNotFound { path: "a".to_string() }.message(), "File not found: a");
    assert_eq!(
        Rf2Error::DirectoryNotFound { path: "b".to_string() }.message(),
        "Directory not found: b"
    );
    assert_eq!(Rf2Error::Parse("oops".to_string()).message(), "Parse error: oops");
    assert_eq!(
        CardinalityParseError::InvalidFormat("0".to_string()).message(),
        "invalid cardinality format: '0' (expected min..max)"
    );
    assert_eq!(
        CardinalityParseError::InvalidMin("a".to_string()).message(),
        "invalid cardinality minimum: 'a'"
    );
    assert_eq!(
        CardinalityParseError::InvalidMax("b".to_string()).message(),
        "invalid cardinality maximum: 'b'"
    );
}
