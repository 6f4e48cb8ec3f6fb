use snomed_terminology::answers::{allows_id, page};
use snomed_terminology::refset::well_known_refsets::US_ENGLISH_LANG_REFSET;
use snomed_terminology::search::{concept_matches, search, search_lowered};
use snomed_terminology::{
    distance_to_ancestor, CharacteristicType, ConcreteValue, DefinitionStatus, DescriptionConfig, DescriptionType,
    ModifierType, RelationshipConfig, Rf2AssociationRefsetMember, Rf2Concept,
    Rf2ConcreteRelationship, Rf2Config, Rf2Description, Rf2Error, Rf2LanguageRefsetMember,
    Rf2OwlExpression, Rf2Relationship, Rf2SimpleRefsetMember, SctId, SnomedStore,
};

fn make_test_concept(id: SctId) -> Rf2Concept {
    Rf2Concept {
        id,
        effective_time: 20020131,
        active: true,
        module_id: 900000000000207008,
        definition_status_id: DefinitionStatus::PRIMITIVE_ID,
    }
}

fn make_test_description(id: SctId, concept_id: SctId, is_fsn: bool) -> Rf2Description {
    Rf2Description {
        id,
        effective_time: 20020131,
        active: true,
        module_id: 900000000000207008,
        concept_id,
        language_code: "en".to_string(),
        type_id: if is_fsn { DescriptionType::FSN_ID } else { DescriptionType::SYNONYM_ID },
        term: format!("Test term {}", id),
        case_significance_id: 900000000000448009,
    }
}

fn make_test_relationship(
    id: SctId,
    source_id: SctId,
    destination_id: SctId,
    is_is_a: bool,
) -> Rf2Relationship {
    Rf2Relationship {
        id,
        effective_time: 20020131,
        active: true,
        module_id: 900000000000207008,
        source_id,
        destination_id,
        relationship_group: 0,
        type_id: if is_is_a { 116680003 } else { 363698007 },
        characteristic_type_id: CharacteristicType::INFERRED_ID,
        modifier_id: ModifierType::EXISTENTIAL_ID,
    }
}

#[test]
fn test_store_concepts() {
    let mut store = SnomedStore::new();

    let concept1 = make_test_concept(100);
    let concept2 = make_test_concept(200);

    store.insert_concepts(vec![concept1.clone(), concept2.clone()]);

    assert_eq!(store.concept_count(), 2);
    assert!(store.has_concept(100));
    assert!(store.has_concept(200));
    assert!(!store.has_concept(300));

    let retrieved = store.get_concept(100).unwrap();
    assert_eq!(retrieved.id, 100);
}

#[test]
fn test_store_descriptions() {
    let mut store = SnomedStore::new();

    let desc_fsn = make_test_description(1, 100, true);
    let desc_syn = make_test_description(2, 100, false);
    let desc_other = make_test_description(3, 200, true);

    store.insert_descriptions(vec![desc_fsn, desc_syn, desc_other]);

    assert_eq!(store.description_count(), 3);

    let descs = store.get_descriptions(100).unwrap();
    assert_eq!(descs.len(), 2);

    let fsn = store.get_fsn(100).unwrap();
    assert!(fsn.is_fsn());
}

#[test]
fn test_store_relationships() {
    let mut store = SnomedStore::new();

    let rel1 = make_test_relationship(1, 100, 200, true);
    let rel2 = make_test_relationship(2, 100, 300, false);

    store.insert_relationships(vec![rel1, rel2]);

    assert_eq!(store.relationship_count(), 2);

    let outgoing = store.get_outgoing_relationships(100).unwrap();
    assert_eq!(outgoing.len(), 2);

    let parents = store.get_parents(100);
    assert_eq!(parents, vec![200]);

    let children = store.get_children(200);
    assert_eq!(children, vec![100]);
}

#[test]
fn test_preferred_term() {
    let mut store = SnomedStore::new();

    let fsn = Rf2Description {
        id: 1,
        effective_time: 20020131,
        active: true,
        module_id: 900000000000207008,
        concept_id: 100,
        language_code: "en".to_string(),
        type_id: DescriptionType::FSN_ID,
        term: "Test concept (finding)".to_string(),
        case_significance_id: 900000000000448009,
    };

    let synonym = Rf2Description {
        id: 2,
        type_id: DescriptionType::SYNONYM_ID,
        term: "Test concept".to_string(),
        ..fsn.clone()
    };

    store.insert_descriptions(vec![fsn, synonym]);

    let term = store.get_preferred_term(100).unwrap();
    assert_eq!(term, "Test concept");

    let fsn_only = Rf2Description {
        id: 3,
        concept_id: 200,
        type_id: DescriptionType::FSN_ID,
        term: "Another concept (procedure)".to_string(),
        ..make_test_description(3, 200, true)
    };

    store.insert_descriptions(vec![fsn_only]);

    let term = store.get_preferred_term(200).unwrap();
    assert_eq!(term, "Another concept (procedure)");
}

fn description(id: SctId, concept_id: SctId, type_id: SctId, term: &str) -> Rf2Description {
    Rf2Description {
        id,
        effective_time: 20020131,
        active: true,
        module_id: 900000000000207008,
        concept_id,
        language_code: "en".to_string(),
        type_id,
        term: term.to_string(),
        case_significance_id: 900000000000448009,
    }
}

#[test]
fn test_preferred_term_synonym_wins_over_fsn() {
    let mut store = SnomedStore::new();
    store.insert_descriptions(vec![
        description(1, 100, DescriptionType::FSN_ID, "Diabetes (disorder)"),
        description(2, 100, DescriptionType::SYNONYM_ID, "Diabetes"),
        description(3, 200, DescriptionType::FSN_ID, "MI (disorder)"),
        description(4, 300, DescriptionType::DEFINITION_ID, "A definition"),
    ]);
    assert_eq!(store.get_preferred_term(100), Some("Diabetes"));
    assert_eq!(store.get_preferred_term(200), Some("MI (disorder)"));
    assert_eq!(store.get_preferred_term(300), None);
    assert_eq!(store.get_preferred_term(400), None);
    assert_eq!(store.get_fsn(100).map(|d| d.id), Some(1));
    assert!(store.get_fsn(300).is_none());
    assert!(store.get_descriptions(400).is_none());
}

fn language_member(id: SctId, description_id: SctId, acceptability_id: SctId) -> Rf2LanguageRefsetMember {
    Rf2LanguageRefsetMember {
        id,
        effective_time: 20200101,
        active: true,
        module_id: 900000000000207008,
        refset_id: US_ENGLISH_LANG_REFSET,
        referenced_component_id: description_id,
        acceptability_id,
    }
}

#[test]
fn test_preferred_term_for_language() {
    let mut store = SnomedStore::new();
    store.insert_descriptions(vec![
        description(1, 100, DescriptionType::FSN_ID, "Diabetes (disorder)"),
        description(2, 100, DescriptionType::SYNONYM_ID, "Diabetes"),
    ]);
    store.insert_language_members(vec![
        language_member(11, 1, Rf2LanguageRefsetMember::PREFERRED_ID),
        language_member(12, 2, Rf2LanguageRefsetMember::ACCEPTABLE_ID),
    ]);
    assert_eq!(
        store.get_preferred_term_for_language(100, US_ENGLISH_LANG_REFSET),
        Some("Diabetes (disorder)")
    );
    assert_eq!(store.get_preferred_term_for_language(100, 900000000000508004), None);
    assert_eq!(store.get_preferred_term_for_language(200, US_ENGLISH_LANG_REFSET), None);
    assert_eq!(store.language_member_count(), 2);
    assert_eq!(store.get_language_members_for_description(2).unwrap().len(), 1);
    assert!(store.get_language_members_for_description(3).is_none());
}

fn hierarchy_store() -> SnomedStore {
    let mut store = SnomedStore::new();
    store.insert_concepts(vec![
        make_test_concept(138875005),
        make_test_concept(404684003),
        make_test_concept(73211009),
        make_test_concept(46635009),
        make_test_concept(44054006),
        make_test_concept(22298006),
    ]);
    store.insert_relationships(vec![
        make_test_relationship(1, 404684003, 138875005, true),
        make_test_relationship(2, 73211009, 404684003, true),
        make_test_relationship(3, 46635009, 73211009, true),
        make_test_relationship(4, 44054006, 73211009, true),
        make_test_relationship(5, 22298006, 404684003, true),
        make_test_relationship(6, 73211009, 113331007, false),
    ]);
    store
}

fn sorted(mut ids: Vec<SctId>) -> Vec<SctId> {
    ids.sort();
    ids
}

fn check_hierarchy(store: &SnomedStore) {
    assert_eq!(store.get_children(73211009), vec![46635009, 44054006]);
    assert_eq!(store.get_parents(73211009), vec![404684003]);
    assert_eq!(
        sorted(store.get_all_descendants(404684003)),
        sorted(vec![73211009, 46635009, 44054006, 22298006])
    );
    assert_eq!(
        sorted(store.get_all_ancestors(46635009)),
        sorted(vec![73211009, 404684003, 138875005])
    );
    assert_eq!(
        sorted(store.get_all_ancestors_or_self(46635009)),
        sorted(vec![46635009, 73211009, 404684003, 138875005])
    );
    assert_eq!(
        sorted(store.get_all_descendants_or_self(73211009)),
        sorted(vec![73211009, 46635009, 44054006])
    );
    assert!(store.get_all_ancestors(138875005).is_empty());
    assert!(store.get_all_descendants(46635009).is_empty());
    assert!(store.is_descendant_of(46635009, 138875005));
    assert!(!store.is_descendant_of(22298006, 73211009));
    assert!(!store.is_descendant_of(73211009, 73211009));
    assert!(!store.is_ancestor_of(73211009, 73211009));
    assert!(store.is_ancestor_of(138875005, 46635009));
    assert!(!store.is_ancestor_of(46635009, 138875005));
    for (child, parent) in [
        (404684003u64, 138875005u64),
        (73211009, 404684003),
        (46635009, 73211009),
        (44054006, 73211009),
        (22298006, 404684003),
    ] {
        assert!(store.is_descendant_of(child, parent));
        assert!(store.is_ancestor_of(parent, child));
    }
    for a in store.concept_ids().clone() {
        for b in store.concept_ids().clone() {
            let down = store.is_descendant_of(a, b);
            assert_eq!(down, store.get_all_ancestors(a).contains(&b));
            assert_eq!(down, store.get_all_descendants(b).contains(&a));
        }
    }
}

#[test]
fn test_hierarchy_by_search() {
    let store = hierarchy_store();
    assert!(!store.has_transitive_closure());
    check_hierarchy(&store);
}

#[test]
fn test_hierarchy_with_closure() {
    let mut store = hierarchy_store();
    store.build_transitive_closure();
    assert!(store.has_transitive_closure());
    check_hierarchy(&store);
    store.build_transitive_closure();
    check_hierarchy(&store);
    assert!(store.get_all_ancestors(999).is_empty());
    assert_eq!(store.get_all_ancestors_or_self(999), vec![999]);
    assert_eq!(store.get_all_descendants_or_self(999), vec![999]);
}

#[test]
fn test_closure_keeps_the_edges_of_build_time() {
    let mut store = hierarchy_store();
    store.build_transitive_closure();
    store.insert_concepts(vec![make_test_concept(1)]);
    store.insert_relationships(vec![make_test_relationship(7, 1, 46635009, true)]);
    assert!(!store.is_descendant_of(1, 73211009));
    assert_eq!(store.get_parents(1), vec![46635009]);
    store.build_transitive_closure();
    assert!(store.is_descendant_of(1, 73211009));
    assert!(store.is_descendant_of(1, 138875005));
}

#[test]
fn test_hierarchy_search_ends_on_a_cycle() {
    let mut store = SnomedStore::new();
    store.insert_concepts(vec![make_test_concept(1), make_test_concept(2), make_test_concept(3)]);
    store.insert_relationships(vec![
        make_test_relationship(1, 1, 2, true),
        make_test_relationship(2, 2, 3, true),
        make_test_relationship(3, 3, 1, true),
    ]);
    assert_eq!(sorted(store.get_all_ancestors(1)), vec![2, 3]);
    assert_eq!(sorted(store.get_all_descendants(1)), vec![2, 3]);
    assert!(!store.is_descendant_of(1, 1));
    store.build_transitive_closure();
    assert_eq!(sorted(store.get_all_ancestors(1)), vec![2, 3]);
    assert!(!store.is_descendant_of(1, 1));
}

#[test]
fn test_parents_pass_over_inactive_and_other_types() {
    let mut store = SnomedStore::new();
    let mut inactive = make_test_relationship(1, 100, 200, true);
    inactive.active = false;
    store.insert_relationships(vec![
        inactive,
        make_test_relationship(2, 100, 300, true),
        make_test_relationship(3, 100, 400, false),
    ]);
    assert_eq!(store.get_parents(100), vec![300]);
    assert!(store.get_children(200).is_empty());
    assert_eq!(store.get_children(300), vec![100]);
    assert_eq!(store.get_outgoing_relationships(100).unwrap().len(), 3);
    assert_eq!(store.get_incoming_relationships(200).unwrap().len(), 1);
    assert!(store.get_incoming_relationships(100).is_none());
    assert!(store.get_all_ancestors(100) == vec![300]);
}

#[test]
fn test_concept_of_same_identifier_replaces_the_earlier() {
    let mut store = SnomedStore::with_capacity(8, 8, 8);
    let first = make_test_concept(100);
    let mut second = make_test_concept(100);
    second.effective_time = 20230101;
    store.insert_concepts(vec![first, make_test_concept(200), second]);
    assert_eq!(store.concept_count(), 2);
    assert_eq!(store.get_concept(100), Some(&second));
    assert_eq!(store.concept_ids(), &vec![100, 200]);
    assert_eq!(store.concepts(), vec![second, make_test_concept(200)]);
    assert_eq!(store.get_concept(300), None);
}

#[test]
fn test_refset_members_stand_in_both_indexes() {
    let mut store = SnomedStore::new();
    let member = |id: SctId, refset_id: SctId, component: SctId| Rf2SimpleRefsetMember {
        id,
        effective_time: 20200101,
        active: true,
        module_id: 900000000000207008,
        refset_id,
        referenced_component_id: component,
    };
    store.insert_refset_members(vec![
        member(1, 723264001, 10),
        member(2, 723264001, 20),
        member(3, 447562003, 10),
    ]);
    assert_eq!(store.get_refset_members(723264001), vec![10, 20]);
    assert_eq!(store.get_refset_members(447562003), vec![10]);
    assert!(store.get_refset_members(1).is_empty());
    assert_eq!(store.get_refsets_for_concept(10), vec![723264001, 447562003]);
    assert_eq!(store.get_refsets_for_concept(20), vec![723264001]);
    assert!(store.get_refsets_for_concept(30).is_empty());
    assert!(store.has_refset(723264001));
    assert!(!store.has_refset(10));
    assert_eq!(store.refset_count(), 2);
    assert_eq!(store.refset_member_count(), 3);
}

#[test]
fn test_associations_and_replacement() {
    let mut store = SnomedStore::new();
    let association = |id: SctId, refset_id: SctId, source: SctId, target: SctId| {
        Rf2AssociationRefsetMember {
            id,
            effective_time: 20200101,
            active: true,
            module_id: 900000000000207008,
            refset_id,
            referenced_component_id: source,
            target_component_id: target,
        }
    };
    store.insert_associations(vec![
        association(1, Rf2AssociationRefsetMember::SAME_AS_REFSET, 10, 11),
        association(2, Rf2AssociationRefsetMember::REPLACED_BY_REFSET, 10, 12),
        association(3, Rf2AssociationRefsetMember::REPLACED_BY_REFSET, 10, 13),
        association(4, Rf2AssociationRefsetMember::SAME_AS_REFSET, 20, 21),
    ]);
    assert_eq!(store.get_replacement_concept(10), Some(12));
    assert_eq!(store.get_replacement_concept(20), None);
    assert_eq!(store.get_replacement_concept(30), None);
    assert_eq!(store.get_associations_for_concept(10).unwrap().len(), 3);
    assert!(store.get_associations_for_concept(30).is_none());
    assert_eq!(store.association_count(), 4);
}

#[test]
fn test_owl_and_concrete_indexes() {
    let mut store = SnomedStore::new();
    store.insert_owl_expressions(vec![Rf2OwlExpression {
        id: 1,
        effective_time: 20230101,
        active: true,
        module_id: 900000000000207008,
        refset_id: Rf2OwlExpression::OWL_AXIOM_REFSET_ID,
        referenced_component_id: 404684003,
        owl_expression: "SubClassOf(:404684003 :138875005)".to_string(),
    }]);
    store.insert_concrete_relationships(vec![Rf2ConcreteRelationship {
        id: 2,
        effective_time: 20230101,
        active: true,
        module_id: 900000000000207008,
        source_id: 322236009,
        value: ConcreteValue::Integer(500),
        relationship_group: 1,
        type_id: 1142135004,
        characteristic_type_id: 900000000000011006,
        modifier_id: 900000000000451002,
    }]);
    assert_eq!(store.owl_expression_count(), 1);
    assert_eq!(store.get_owl_expressions(404684003).unwrap()[0].id, 1);
    assert!(store.get_owl_expressions(1).is_none());
    assert_eq!(store.concrete_relationship_count(), 1);
    assert_eq!(
        store.get_concrete_relationships(322236009).unwrap()[0].value,
        ConcreteValue::Integer(500)
    );
    assert!(store.get_concrete_relationships(1).is_none());
    assert!(!store.has_mrcm());
    assert!(store.get_mrcm().is_none());
}

const CONCEPT_FILE: &str = "id\teffectiveTime\tactive\tmoduleId\tdefinitionStatusId\n\
404684003\t20020131\t1\t900000000000207008\t900000000000074008\n\
100005\t20020131\t0\t900000000000207008\t900000000000074008\n\
bad\t20020131\t1\t900000000000207008\t900000000000074008\n\
73211009\t20020131\t1\t900000000000207008\t900000000000073002\n";

const DESCRIPTION_FILE: &str = "id\teffectiveTime\tactive\tmoduleId\tconceptId\tlanguageCode\ttypeId\tterm\tcaseSignificanceId\n\
1\t20020131\t1\t900000000000207008\t73211009\ten\t900000000000003001\tDiabetes mellitus (disorder)\t900000000000448009\n\
2\t20020131\t1\t900000000000207008\t73211009\ten\t900000000000013009\tDiabetes mellitus\t900000000000448009\n\
3\t20020131\t1\t900000000000207008\t73211009\tes\t900000000000013009\tDiabetes mellitus (es)\t900000000000448009\n\
4\t20020131\t1\t900000000000207008\t73211009\ten\t900000000000550004\tA definition\t900000000000448009\n\
5\t20020131\t0\t900000000000207008\t73211009\ten\t900000000000013009\tDM\t900000000000448009\n";

const RELATIONSHIP_FILE: &str = "id\teffectiveTime\tactive\tmoduleId\tsourceId\tdestinationId\trelationshipGroup\ttypeId\tcharacteristicTypeId\tmodifierId\n\
1\t20020131\t1\t900000000000207008\t73211009\t404684003\t0\t116680003\t900000000000011006\t900000000000451002\n\
2\t20020131\t1\t900000000000207008\t73211009\t113331007\t1\t363698007\t900000000000011006\t900000000000451002\n\
3\t20020131\t1\t900000000000207008\t73211009\t362969004\t0\t116680003\t900000000000010007\t900000000000451002\n\
4\t20020131\t0\t900000000000207008\t73211009\t138875005\t0\t116680003\t900000000000011006\t900000000000451002\n";

#[test]
fn test_load_all_from_bytes() {
    let mut store = SnomedStore::new();
    store
        .load_all(
            Some(CONCEPT_FILE.as_bytes()),
            Some(DESCRIPTION_FILE.as_bytes()),
            Some(RELATIONSHIP_FILE.as_bytes()),
        )
        .unwrap();
    assert_eq!(store.concept_count(), 2);
    assert!(store.has_concept(404684003));
    assert!(!store.has_concept(100005));
    assert!(store.get_concept(73211009).unwrap().is_fully_defined());
    assert_eq!(store.description_count(), 2);
    assert_eq!(store.get_preferred_term(73211009), Some("Diabetes mellitus"));
    assert_eq!(store.relationship_count(), 2);
    assert_eq!(store.get_parents(73211009), vec![404684003]);
    assert_eq!(store.get_incoming_relationships(113331007).unwrap()[0].relationship_group, 1);
}

#[test]
fn test_single_file_loads_and_filters() {
    let mut store = SnomedStore::new();
    let all = Rf2Config { active_only: false, batch_size: 10 };
    assert_eq!(store.load_concepts(CONCEPT_FILE.as_bytes(), all), Ok(3));
    assert!(store.has_concept(100005));
    assert_eq!(store.load_descriptions(DESCRIPTION_FILE.as_bytes(), DescriptionConfig::fsn_only()), Ok(1));
    assert_eq!(store.get_descriptions(73211009).unwrap()[0].id, 1);
    assert_eq!(
        store.load_relationships(RELATIONSHIP_FILE.as_bytes(), RelationshipConfig::is_a_only()),
        Ok(2)
    );
    assert_eq!(store.get_parents(73211009), vec![404684003, 362969004]);
    assert_eq!(
        store.load_concepts(DESCRIPTION_FILE.as_bytes(), Rf2Config::default()),
        Err(Rf2Error::UnexpectedColumn {
            position: 4,
            expected: "definitionStatusId".to_string(),
            found: "conceptId".to_string(),
        })
    );
    assert_eq!(store.concept_count(), 3);
    let mut other = SnomedStore::new();
    assert!(other.load_all(None, Some(CONCEPT_FILE.as_bytes()), None).is_err());
    assert_eq!(other.concept_count(), 0);
    assert!(other.load_all(None, None, None).is_ok());
}

#[test]
fn test_refset_and_other_loads_from_bytes() {
    let simple = "id\teffectiveTime\tactive\tmoduleId\trefsetId\treferencedComponentId\n\
1\t20200101\t1\t900000000000207008\t723264001\t10\n\
2\t20200101\t0\t900000000000207008\t723264001\t20\n";
    let simple_more = "id\teffectiveTime\tactive\tmoduleId\trefsetId\treferencedComponentId\n\
3\t20200101\t1\t900000000000207008\t723264001\t30\n";
    let mut store = SnomedStore::new();
    let files = vec![simple.as_bytes().to_vec(), simple_more.as_bytes().to_vec()];
    assert_eq!(store.load_simple_refsets(&files, Rf2Config::default()), Ok(2));
    assert_eq!(store.get_refset_members(723264001), vec![10, 30]);
    assert_eq!(store.get_refsets_for_concept(30), vec![723264001]);
    let broken = vec![simple.as_bytes().to_vec(), b"nothing\n".to_vec(), simple_more.as_bytes().to_vec()];
    assert!(store.load_simple_refsets(&broken, Rf2Config::default()).is_err());
    assert_eq!(store.get_refset_members(723264001), vec![10, 30, 10]);

    let language = "id\teffectiveTime\tactive\tmoduleId\trefsetId\treferencedComponentId\tacceptabilityId\n\
1\t20200101\t1\t900000000000207008\t900000000000509007\t2\t900000000000548007\n";
    assert_eq!(
        store.load_language_refsets(&vec![language.as_bytes().to_vec()], Rf2Config::default()),
        Ok(1)
    );
    assert!(store.get_language_members_for_description(2).unwrap()[0].is_preferred());

    let association = "id\teffectiveTime\tactive\tmoduleId\trefsetId\treferencedComponentId\ttargetComponentId\n\
1\t20200101\t1\t900000000000207008\t900000000000526001\t10\t11\n";
    assert_eq!(
        store.load_association_refsets(&vec![association.as_bytes().to_vec()], Rf2Config::default()),
        Ok(1)
    );
    assert_eq!(store.get_replacement_concept(10), Some(11));

    let owl = "id\teffectiveTime\tactive\tmoduleId\trefsetId\treferencedComponentId\towlExpression\n\
1\t20200101\t1\t900000000000207008\t733073007\t404684003\tSubClassOf(:404684003 :138875005)\n";
    assert_eq!(store.load_owl_expressions(&vec![owl.as_bytes().to_vec()], Rf2Config::default()), Ok(1));
    assert!(store.get_owl_expressions(404684003).unwrap()[0].is_subclass_axiom());

    let concrete = "id\teffectiveTime\tactive\tmoduleId\tsourceId\tvalue\trelationshipGroup\ttypeId\tcharacteristicTypeId\tmodifierId\n\
1\t20230101\t1\t900000000000207008\t322236009\t#500\t1\t1142135004\t900000000000011006\t900000000000451002\n\
2\t20230101\t1\t900000000000207008\t322236009\t#0.5\t1\t1142135004\t900000000000011006\t900000000000451002\n";
    assert_eq!(store.load_concrete_relationships(Some(concrete.as_bytes()), Rf2Config::default()), Ok(2));
    assert_eq!(store.load_concrete_relationships(None, Rf2Config::default()), Ok(0));
    let values: Vec<ConcreteValue> = store
        .get_concrete_relationships(322236009)
        .unwrap()
        .iter()
        .map(|r| r.value.clone())
        .collect();
    assert_eq!(values, vec![ConcreteValue::Integer(500), ConcreteValue::Decimal("0.5".to_string())]);

    assert!(store.load_mrcm(None, None, None).is_ok());
    assert!(!store.has_mrcm());
    let attribute_range = "id\teffectiveTime\tactive\tmoduleId\trefsetId\treferencedComponentId\trangeConstraint\tattributeRule\truleStrengthId\tcontentTypeId\n\
a\t20240101\t1\t900000000000207008\t723592007\t363698007\t<< 123037004\t\t723597001\t723596005\n";
    store.load_mrcm(None, None, Some(attribute_range.as_bytes())).unwrap();
    assert_eq!(store.get_mrcm().unwrap().get_range_constraint(363698007), Some("<< 123037004"));
}

#[test]
fn test_merge_of_decoded_records() {
    let mut store = SnomedStore::new();
    store.insert_concept(make_test_concept(1));
    let counts = store.merge_decoded(
        Some(vec![make_test_concept(2), make_test_concept(3), make_test_concept(2)]),
        None,
        Some(vec![make_test_relationship(10, 2, 1, true), make_test_relationship(11, 3, 1, true)]),
    );
    assert_eq!(counts, (3, 0, 2));
    assert_eq!(store.concept_count(), 3);
    assert_eq!(store.description_count(), 0);
    assert_eq!(store.relationship_count(), 2);
    assert_eq!(store.get_children(1), vec![2, 3]);
    assert_eq!(store.get_parents(3), vec![1]);

    let counts = store.merge_decoded(
        None,
        Some(vec![make_test_description(20, 2, true), make_test_description(21, 2, false)]),
        None,
    );
    assert_eq!(counts, (0, 2, 0));
    assert_eq!(store.concept_count(), 3);
    assert_eq!(store.get_descriptions(2).map(|d| d.len()), Some(2));
    assert_eq!(store.get_preferred_term(2), Some("Test term 21"));
}

#[test]
fn test_distance_to_ancestor() {
    let mut store = hierarchy_store();
    assert_eq!(distance_to_ancestor(&store, 46635009, 46635009), Some(0));
    assert_eq!(distance_to_ancestor(&store, 46635009, 73211009), Some(1));
    assert_eq!(distance_to_ancestor(&store, 46635009, 404684003), Some(2));
    assert_eq!(distance_to_ancestor(&store, 46635009, 138875005), Some(3));
    assert_eq!(distance_to_ancestor(&store, 22298006, 73211009), None);
    assert_eq!(distance_to_ancestor(&store, 138875005, 46635009), None);
    assert_eq!(distance_to_ancestor(&store, 73211009, 113331007), None);
    assert_eq!(distance_to_ancestor(&store, 999, 999), Some(0));
    assert_eq!(distance_to_ancestor(&store, 999, 138875005), None);

    store.insert_relationship(make_test_relationship(7, 46635009, 404684003, true));
    assert_eq!(distance_to_ancestor(&store, 46635009, 404684003), Some(1));
    assert_eq!(distance_to_ancestor(&store, 46635009, 138875005), Some(2));
    assert_eq!(distance_to_ancestor(&store, 44054006, 138875005), Some(3));
}

#[test]
fn test_distance_on_a_cycle() {
    let mut store = SnomedStore::new();
    store.insert_relationships(vec![
        make_test_relationship(1, 1, 2, true),
        make_test_relationship(2, 2, 3, true),
        make_test_relationship(3, 3, 1, true),
    ]);
    assert_eq!(distance_to_ancestor(&store, 1, 3), Some(2));
    assert_eq!(distance_to_ancestor(&store, 3, 2), Some(2));
    assert_eq!(distance_to_ancestor(&store, 1, 1), Some(0));
    assert_eq!(distance_to_ancestor(&store, 1, 4), None);
}

fn search_store() -> SnomedStore {
    let mut store = SnomedStore::new();
    let mut inactive = make_test_concept(30);
    inactive.active = false;
    store.insert_concepts(vec![
        make_test_concept(10),
        make_test_concept(20),
        inactive,
        make_test_concept(40),
    ]);
    store.insert_descriptions(vec![
        description(1, 10, DescriptionType::FSN_ID, "Diabetes mellitus (disorder)"),
        description(2, 10, DescriptionType::SYNONYM_ID, "Diabetes"),
        description(3, 20, DescriptionType::FSN_ID, "Myocardial infarction (disorder)"),
        description(4, 30, DescriptionType::FSN_ID, "Prediabetes (finding)"),
        description(5, 40, DescriptionType::SYNONYM_ID, "Type 2 DIABETES"),
        description(6, 50, DescriptionType::SYNONYM_ID, "Diabetes of a concept that is not loaded"),
    ]);
    store
}

#[test]
fn test_search_is_blind_to_case() {
    let store = search_store();
    assert_eq!(search(&store, "diabetes", 100, false), vec![10, 30, 40]);
    assert_eq!(search(&store, "DIABETES", 100, false), vec![10, 30, 40]);
    assert_eq!(search(&store, "DiAbEtEs", 100, true), vec![10, 40]);
    assert_eq!(search(&store, "infarction", 100, true), vec![20]);
    assert_eq!(search(&store, "fracture", 100, false), Vec::<SctId>::new());
    assert_eq!(search(&store, "", 100, true), vec![10, 20, 40]);
}

#[test]
fn test_search_stops_at_the_limit() {
    let store = search_store();
    assert_eq!(search(&store, "diabetes", 2, false), vec![10, 30]);
    assert_eq!(search(&store, "diabetes", 1, false), vec![10]);
    assert_eq!(search(&store, "diabetes", 3, false), vec![10, 30, 40]);
    assert_eq!(search(&store, "diabetes", 0, false), Vec::<SctId>::new());
}

#[test]
fn test_search_for_a_lowered_query() {
    let store = search_store();
    assert_eq!(search_lowered(&store, "diabetes", 100, false), vec![10, 30, 40]);
    assert_eq!(search_lowered(&store, "Diabetes", 100, false), Vec::<SctId>::new());
    assert!(concept_matches(&store, 40, "type 2", true));
    assert!(!concept_matches(&store, 30, "prediabetes", true));
    assert!(concept_matches(&store, 30, "prediabetes", false));
    assert!(!concept_matches(&store, 50, "diabetes", false));
    assert!(!concept_matches(&store, 20, "diabetes", false));
}

#[test]
fn test_display_term_falls_back() {
    let mut store = search_store();
    store.insert_language_member(language_member(100, 1, 900000000000548007));
    assert_eq!(store.get_display_term(10, US_ENGLISH_LANG_REFSET), Some("Diabetes mellitus (disorder)"));
    assert_eq!(store.get_display_term(10, 999), Some("Diabetes"));
    assert_eq!(store.get_display_term(20, US_ENGLISH_LANG_REFSET), Some("Myocardial infarction (disorder)"));
    assert_eq!(store.get_display_term(60, US_ENGLISH_LANG_REFSET), None);
}

#[test]
fn test_list_with_self_first() {
    let store = search_store();
    assert_eq!(store.with_self_first(10, vec![20, 40], true), vec![10, 20, 40]);
    assert_eq!(store.with_self_first(10, vec![20, 40], false), vec![20, 40]);
    assert_eq!(store.with_self_first(50, vec![20, 40], true), vec![20, 40]);
    assert_eq!(store.with_self_first(10, vec![], true), vec![10]);
}

#[test]
fn test_split_of_known_and_unknown() {
    let store = search_store();
    assert_eq!(store.split_known(&vec![40, 50, 10, 60, 10]), (vec![40, 10, 10], vec![50, 60]));
    assert_eq!(store.split_known(&vec![]), (vec![], vec![]));
}

#[test]
fn test_page_of_a_list() {
    let list: Vec<SctId> = vec![1, 2, 3, 4, 5];
    assert_eq!(page(&list, 0, 2), vec![1, 2]);
    assert_eq!(page(&list, 2, 2), vec![3, 4]);
    assert_eq!(page(&list, 4, 2), vec![5]);
    assert_eq!(page(&list, 5, 2), Vec::<SctId>::new());
    assert_eq!(page(&list, 9, 2), Vec::<SctId>::new());
    assert_eq!(page(&list, 1, 0), Vec::<SctId>::new());
    assert_eq!(page(&list, 0, usize::MAX), vec![1, 2, 3, 4, 5]);
    assert_eq!(page(&list, usize::MAX, usize::MAX), Vec::<SctId>::new());
}

#[test]
fn test_include_list_of_identifiers() {
    assert!(allows_id(&vec![], 7));
    assert!(allows_id(&vec![5, 7], 7));
    assert!(!allows_id(&vec![5, 6], 7));
}

#[test]
fn test_keys_of_the_indexes() {
    let mut store = search_store();
    assert_eq!(store.described_concepts(), &vec![10, 20, 30, 40, 50]);
    assert_eq!(store.relationship_source_count(), 0);
    store.insert_relationships(vec![
        make_test_relationship(1, 10, 20, true),
        make_test_relationship(2, 10, 40, false),
        make_test_relationship(3, 40, 20, true),
    ]);
    assert_eq!(store.relationship_source_count(), 2);
}
