use snomed_terminology::mrcm::Cardinality;
use snomed_terminology::refset::well_known_refsets;
use snomed_terminology::well_known;
use snomed_terminology::well_known::{
    BODY_STRUCTURE, CLINICAL_FINDING, FINDING_SITE, IS_A, ORGANISM, PHARMACEUTICAL_PRODUCT,
    PROCEDURE, QUALIFIER_VALUE, SNOMED_CT_CORE_MODULE, SNOMED_CT_ROOT, SUBSTANCE,
};
use snomed_terminology::{
    CardinalityParseError, CaseSignificance, CharacteristicType, ConcreteValue, DefinitionStatus, DescriptionType,
    ModifierType, Rf2AssociationRefsetMember, Rf2Concept, Rf2ConcreteRelationship, Rf2Description,
    Rf2LanguageRefsetMember, Rf2OwlExpression, Rf2Relationship, Rf2SimpleRefsetMember, SctId,
};

#[test]
fn test_types_are_exported() {
    let _id: SctId = 73211009;
    let _status = DefinitionStatus::Primitive;
    let _desc_type = DescriptionType::Fsn;
    let _case_sig = CaseSignificance::CaseInsensitive;
    let _char_type = CharacteristicType::Inferred;
    let _modifier = ModifierType::Existential;
}

#[test]
fn test_well_known_accessible() {
    assert_eq!(well_known::IS_A, 116680003);
    assert_eq!(well_known::CLINICAL_FINDING, 404684003);
}

#[test]
fn test_rf2_concept_helpers() {
    let concept = Rf2Concept {
        id: 404684003,
        effective_time: 20020131,
        active: true,
        module_id: 900000000000207008,
        definition_status_id: 900000000000074008,
    };

    assert!(concept.is_primitive());
    assert!(!concept.is_fully_defined());
    assert_eq!(concept.definition_status(), Some(DefinitionStatus::Primitive));
}

#[test]
fn test_fully_defined_concept() {
    let concept = Rf2Concept {
        id: 73211009,
        effective_time: 20020131,
        active: true,
        module_id: 900000000000207008,
        definition_status_id: DefinitionStatus::FULLY_DEFINED_ID,
    };

    assert!(!concept.is_primitive());
    assert!(concept.is_fully_defined());
    assert_eq!(concept.definition_status(), Some(DefinitionStatus::FullyDefined));
}

fn make_description(type_id: SctId) -> Rf2Description {
    Rf2Description {
        id: 754786011,
        effective_time: 20020131,
        active: true,
        module_id: 900000000000207008,
        concept_id: 73211009,
        language_code: "en".to_string(),
        type_id,
        term: "Diabetes mellitus (disorder)".to_string(),
        case_significance_id: 900000000000448009,
    }
}

#[test]
fn test_rf2_description_fsn() {
    let desc = make_description(DescriptionType::FSN_ID);
    assert!(desc.is_fsn());
    assert!(!desc.is_synonym());
    assert!(!desc.is_definition());
    assert_eq!(desc.description_type(), Some(DescriptionType::Fsn));
}

#[test]
fn test_rf2_description_synonym() {
    let desc = make_description(DescriptionType::SYNONYM_ID);
    assert!(!desc.is_fsn());
    assert!(desc.is_synonym());
    assert!(!desc.is_definition());
    assert_eq!(desc.description_type(), Some(DescriptionType::Synonym));
}

#[test]
fn test_rf2_description_case_significance() {
    let desc = make_description(DescriptionType::FSN_ID);
    assert_eq!(desc.case_significance(), Some(CaseSignificance::CaseInsensitive));
}

#[test]
fn test_rf2_description_definition() {
    let desc = make_description(DescriptionType::DEFINITION_ID);
    assert!(desc.is_definition());
    assert_eq!(desc.description_type(), Some(DescriptionType::Definition));
    assert_eq!(make_description(12345).description_type(), None);
}

fn make_relationship(type_id: SctId, characteristic_type_id: SctId) -> Rf2Relationship {
    Rf2Relationship {
        id: 100000028,
        effective_time: 20020131,
        active: true,
        module_id: 900000000000207008,
        source_id: 73211009,
        destination_id: 362969004,
        relationship_group: 0,
        type_id,
        characteristic_type_id,
        modifier_id: ModifierType::EXISTENTIAL_ID,
    }
}

#[test]
fn test_rf2_relationship_is_a() {
    let rel = make_relationship(Rf2Relationship::IS_A_TYPE_ID, CharacteristicType::INFERRED_ID);
    assert!(rel.is_is_a());
    assert!(rel.is_inferred());
    assert!(!rel.is_stated());
}

#[test]
fn test_rf2_relationship_stated() {
    let rel = make_relationship(Rf2Relationship::IS_A_TYPE_ID, CharacteristicType::STATED_ID);
    assert!(rel.is_stated());
    assert!(!rel.is_inferred());
    assert_eq!(rel.characteristic_type(), Some(CharacteristicType::Stated));
}

#[test]
fn test_rf2_relationship_modifier() {
    let rel = make_relationship(Rf2Relationship::IS_A_TYPE_ID, CharacteristicType::INFERRED_ID);
    assert_eq!(rel.modifier_type(), Some(ModifierType::Existential));
}

#[test]
fn test_rf2_relationship_non_is_a() {
    let rel = make_relationship(363698007, CharacteristicType::INFERRED_ID);
    assert!(!rel.is_is_a());
}

#[test]
fn test_definition_status_conversion() {
    assert_eq!(DefinitionStatus::from_id(900000000000074008), Some(DefinitionStatus::Primitive));
    assert_eq!(DefinitionStatus::from_id(900000000000073002), Some(DefinitionStatus::FullyDefined));
    assert_eq!(DefinitionStatus::from_id(12345), None);
    assert_eq!(DefinitionStatus::Primitive.to_id(), 900000000000074008);
}

#[test]
fn test_description_type_conversion() {
    assert_eq!(DescriptionType::from_id(900000000000003001), Some(DescriptionType::Fsn));
    assert_eq!(DescriptionType::from_id(900000000000013009), Some(DescriptionType::Synonym));
    assert_eq!(DescriptionType::Fsn.to_id(), 900000000000003001);
}

#[test]
fn test_characteristic_type_conversion() {
    assert_eq!(CharacteristicType::from_id(900000000000010007), Some(CharacteristicType::Stated));
    assert_eq!(CharacteristicType::from_id(900000000000011006), Some(CharacteristicType::Inferred));
}

#[test]
fn test_case_significance_conversion() {
    assert_eq!(
        CaseSignificance::from_id(900000000000448009),
        Some(CaseSignificance::CaseInsensitive)
    );
    assert_eq!(
        CaseSignificance::from_id(900000000000017005),
        Some(CaseSignificance::EntireTermCaseSensitive)
    );
}

#[test]
fn test_modifier_type_conversion() {
    assert_eq!(ModifierType::from_id(900000000000451002), Some(ModifierType::Existential));
    assert_eq!(ModifierType::from_id(900000000000450001), Some(ModifierType::Universal));
}

#[test]
fn test_enum_identifiers_round_trip() {
    for status in [DefinitionStatus::Primitive, DefinitionStatus::FullyDefined] {
        assert_eq!(DefinitionStatus::from_id(status.to_id()), Some(status));
    }
    for kind in [DescriptionType::Fsn, DescriptionType::Synonym, DescriptionType::Definition] {
        assert_eq!(DescriptionType::from_id(kind.to_id()), Some(kind));
    }
    for case in [
        CaseSignificance::CaseInsensitive,
        CaseSignificance::EntireTermCaseSensitive,
        CaseSignificance::InitialCharacterCaseSensitive,
    ] {
        assert_eq!(CaseSignificance::from_id(case.to_id()), Some(case));
    }
    for kind in [
        CharacteristicType::Stated,
        CharacteristicType::Inferred,
        CharacteristicType::Additional,
    ] {
        assert_eq!(CharacteristicType::from_id(kind.to_id()), Some(kind));
    }
    for modifier in [ModifierType::Existential, ModifierType::Universal] {
        assert_eq!(ModifierType::from_id(modifier.to_id()), Some(modifier));
    }
    assert_eq!(CharacteristicType::Additional.to_id(), 900000000000227009);
    assert_eq!(ModifierType::Universal.to_id(), 900000000000450001);
    assert_eq!(DescriptionType::Definition.to_id(), 900000000000550004);
    assert_eq!(CaseSignificance::InitialCharacterCaseSensitive.to_id(), 900000000000020002);
}

#[test]
fn test_well_known_constants() {
    assert_eq!(SNOMED_CT_ROOT, 138875005);
    assert_eq!(CLINICAL_FINDING, 404684003);
    assert_eq!(IS_A, 116680003);
    assert_eq!(FINDING_SITE, 363698007);
    assert_eq!(SNOMED_CT_CORE_MODULE, 900000000000207008);
}

#[test]
fn test_hierarchy_ids_are_different() {
    let hierarchies = [
        CLINICAL_FINDING,
        PROCEDURE,
        BODY_STRUCTURE,
        ORGANISM,
        SUBSTANCE,
        PHARMACEUTICAL_PRODUCT,
        QUALIFIER_VALUE,
    ];

    for (i, id1) in hierarchies.iter().enumerate() {
        for (j, id2) in hierarchies.iter().enumerate() {
            if i != j {
                assert_ne!(id1, id2, "Duplicate hierarchy ID found");
            }
        }
    }
}

#[test]
fn test_cardinality_parse_unbounded() {
    let card = Cardinality::parse("0..*").unwrap();
    assert_eq!(card.min, 0);
    assert_eq!(card.max, None);
    assert!(card.is_unbounded());
}

#[test]
fn test_cardinality_parse_bounded() {
    let card = Cardinality::parse("1..1").unwrap();
    assert_eq!(card.min, 1);
    assert_eq!(card.max, Some(1));
    assert!(!card.is_unbounded());
    assert!(card.is_required());
}

#[test]
fn test_cardinality_parse_optional() {
    let card = Cardinality::parse("0..1").unwrap();
    assert_eq!(card.min, 0);
    assert_eq!(card.max, Some(1));
    assert!(!card.is_required());
}

#[test]
fn test_cardinality_parse_one_or_more() {
    let card = Cardinality::parse("1..*").unwrap();
    assert_eq!(card.min, 1);
    assert_eq!(card.max, None);
    assert!(card.is_unbounded());
    assert!(card.is_required());
}

#[test]
fn test_cardinality_allows() {
    let card = Cardinality::parse("0..1").unwrap();
    assert!(card.allows(0));
    assert!(card.allows(1));
    assert!(!card.allows(2));

    let unbounded = Cardinality::parse("0..*").unwrap();
    assert!(unbounded.allows(0));
    assert!(unbounded.allows(100));
    assert!(unbounded.allows(u32::MAX));

    let required = Cardinality::parse("1..1").unwrap();
    assert!(!required.allows(0));
    assert!(required.allows(1));
    assert!(!required.allows(2));

    let one_or_more = Cardinality::parse("1..*").unwrap();
    assert!(!one_or_more.allows(0));
    assert!(one_or_more.allows(1));
    assert!(one_or_more.allows(100));
}

#[test]
fn test_cardinality_parse_error_invalid_format() {
    assert!(Cardinality::parse("0").is_err());
    assert!(Cardinality::parse("0-1").is_err());
    assert!(Cardinality::parse("").is_err());
}

#[test]
fn test_cardinality_parse_error_invalid_min() {
    assert!(Cardinality::parse("abc..1").is_err());
    assert!(Cardinality::parse("-1..1").is_err());
}

#[test]
fn test_cardinality_parse_error_invalid_max() {
    assert!(Cardinality::parse("0..abc").is_err());
}

#[test]
fn test_cardinality_display() {
    assert_eq!(Cardinality::parse("0..*").unwrap().to_text(), "0..*");
    assert_eq!(Cardinality::parse("0..1").unwrap().to_text(), "0..1");
    assert_eq!(Cardinality::parse("1..1").unwrap().to_text(), "1..1");
    assert_eq!(Cardinality::parse("1..*").unwrap().to_text(), "1..*");
}

#[test]
fn test_cardinality_constructors() {
    assert_eq!(Cardinality::unbounded(), Cardinality::parse("0..*").unwrap());
    assert_eq!(Cardinality::optional(), Cardinality::parse("0..1").unwrap());
    assert_eq!(Cardinality::required(), Cardinality::parse("1..1").unwrap());
    assert_eq!(Cardinality::one_or_more(), Cardinality::parse("1..*").unwrap());
}

#[test]
fn test_cardinality_parse_error_variants() {
    assert_eq!(
        Cardinality::parse("0"),
        Err(CardinalityParseError::InvalidFormat("0".to_string()))
    );
    assert_eq!(
        Cardinality::parse("0..1..2"),
        Err(CardinalityParseError::InvalidFormat("0..1..2".to_string()))
    );
    assert_eq!(
        Cardinality::parse("abc..1"),
        Err(CardinalityParseError::InvalidMin("abc".to_string()))
    );
    assert_eq!(
        Cardinality::parse("0..abc"),
        Err(CardinalityParseError::InvalidMax("abc".to_string()))
    );
    assert_eq!(
        Cardinality::parse("0...1"),
        Err(CardinalityParseError::InvalidMax(".1".to_string()))
    );
    assert_eq!(
        Cardinality::parse("4294967296..*"),
        Err(CardinalityParseError::InvalidMin("4294967296".to_string()))
    );
    assert_eq!(Cardinality::parse("+2..4294967295"), Ok(Cardinality::new(2, Some(4294967295))));
    assert_eq!(Cardinality::new(12, Some(345)).to_text(), "12..345");
}

fn make_owl_expression(owl_expr: &str) -> Rf2OwlExpression {
    Rf2OwlExpression {
        id: 12345678901234,
        effective_time: 20230101,
        active: true,
        module_id: 900000000000207008,
        refset_id: Rf2OwlExpression::OWL_AXIOM_REFSET_ID,
        referenced_component_id: 404684003,
        owl_expression: owl_expr.to_string(),
    }
}

#[test]
fn test_is_axiom() {
    let owl = make_owl_expression("SubClassOf(:404684003 :138875005)");
    assert!(owl.is_axiom());
    assert!(!owl.is_ontology());
}

#[test]
fn test_is_subclass_axiom() {
    let owl = make_owl_expression("SubClassOf(:404684003 :138875005)");
    assert!(owl.is_subclass_axiom());
    assert!(!owl.is_equivalent_classes_axiom());
}

#[test]
fn test_is_equivalent_classes_axiom() {
    let owl = make_owl_expression(
        "EquivalentClasses(:404684003 ObjectIntersectionOf(:138875005 :123456789))",
    );
    assert!(owl.is_equivalent_classes_axiom());
    assert!(!owl.is_subclass_axiom());
}

#[test]
fn test_is_property_chain_axiom() {
    let owl = make_owl_expression("SubObjectPropertyOf(ObjectPropertyChain(:123 :456) :789)");
    assert!(owl.is_property_chain_axiom());
    assert!(owl.is_sub_property_axiom());
}

#[test]
fn test_is_transitive_property() {
    let owl = make_owl_expression("TransitiveObjectProperty(:116680003)");
    assert!(owl.is_transitive_property_axiom());
}

#[test]
fn test_owl_other_axioms() {
    let owl = make_owl_expression("ReflexiveObjectProperty(:738774007)");
    assert!(owl.is_reflexive_property_axiom());
    assert!(!owl.is_transitive_property_axiom());
    assert!(!owl.is_property_chain_axiom());
    let short = make_owl_expression("Sub");
    assert!(!short.is_subclass_axiom());
    let mut ontology = make_owl_expression("Ontology(<http://snomed.info/sct/900000000000207008>)");
    ontology.refset_id = Rf2OwlExpression::OWL_ONTOLOGY_REFSET_ID;
    assert!(ontology.is_ontology());
    assert!(!ontology.is_axiom());
}

#[test]
fn test_simple_refset_member() {
    let member = Rf2SimpleRefsetMember {
        id: 12345678901,
        effective_time: 20200101,
        active: true,
        module_id: 900000000000207008,
        refset_id: 723264001,
        referenced_component_id: 12345678,
    };

    assert!(member.active);
    assert_eq!(member.refset_id, 723264001);
}

#[test]
fn test_language_refset_preferred() {
    let member = Rf2LanguageRefsetMember {
        id: 12345678901,
        effective_time: 20200101,
        active: true,
        module_id: 900000000000207008,
        refset_id: well_known_refsets::US_ENGLISH_LANG_REFSET,
        referenced_component_id: 12345678,
        acceptability_id: Rf2LanguageRefsetMember::PREFERRED_ID,
    };

    assert!(member.is_preferred());
    assert!(!member.is_acceptable());
}

#[test]
fn test_language_refset_acceptable() {
    let member = Rf2LanguageRefsetMember {
        id: 12345678901,
        effective_time: 20200101,
        active: true,
        module_id: 900000000000207008,
        refset_id: well_known_refsets::GB_ENGLISH_LANG_REFSET,
        referenced_component_id: 12345678,
        acceptability_id: Rf2LanguageRefsetMember::ACCEPTABLE_ID,
    };

    assert!(!member.is_preferred());
    assert!(member.is_acceptable());
}

#[test]
fn test_association_refset_replaced_by() {
    let member = Rf2AssociationRefsetMember {
        id: 12345678901,
        effective_time: 20200101,
        active: true,
        module_id: 900000000000207008,
        refset_id: Rf2AssociationRefsetMember::REPLACED_BY_REFSET,
        referenced_component_id: 12345678,
        target_component_id: 87654321,
    };

    assert!(member.is_replaced_by_association());
    assert!(member.is_historical_association());
    assert!(!member.is_same_as_association());
}

#[test]
fn test_association_refset_same_as() {
    let member = Rf2AssociationRefsetMember {
        id: 12345678901,
        effective_time: 20200101,
        active: true,
        module_id: 900000000000207008,
        refset_id: Rf2AssociationRefsetMember::SAME_AS_REFSET,
        referenced_component_id: 12345678,
        target_component_id: 87654321,
    };

    assert!(member.is_same_as_association());
    assert!(member.is_historical_association());
    assert!(!member.is_replaced_by_association());
}

#[test]
fn test_association_kinds() {
    let mut member = Rf2AssociationRefsetMember {
        id: 1,
        effective_time: 20200101,
        active: true,
        module_id: 900000000000207008,
        refset_id: Rf2AssociationRefsetMember::WAS_A_REFSET,
        referenced_component_id: 1,
        target_component_id: 2,
    };
    assert!(member.is_was_a_association());
    assert!(member.is_historical_association());
    member.refset_id = Rf2AssociationRefsetMember::POSSIBLY_EQUIVALENT_TO_REFSET;
    assert!(member.is_possibly_equivalent_association());
    member.refset_id = Rf2AssociationRefsetMember::MOVED_TO_REFSET;
    assert!(member.is_moved_to_association());
    member.refset_id = Rf2AssociationRefsetMember::MOVED_FROM_REFSET;
    assert!(member.is_historical_association());
    member.refset_id = Rf2AssociationRefsetMember::ALTERNATIVE_REFSET;
    assert!(member.is_historical_association());
    member.refset_id = Rf2AssociationRefsetMember::REFERS_TO_REFSET;
    assert!(!member.is_historical_association());
}

#[test]
fn test_concrete_value_parse_string() {
    let value = ConcreteValue::parse("\"tablet\"").unwrap();
    assert!(value.is_string());
    assert_eq!(value.as_string(), Some("tablet"));
}

#[test]
fn test_concrete_value_parse_integer() {
    let value = ConcreteValue::parse("#500").unwrap();
    assert!(value.is_integer());
    assert_eq!(value.as_integer(), Some(500));
}

#[test]
fn test_concrete_value_parse_negative_integer() {
    let value = ConcreteValue::parse("#-100").unwrap();
    assert!(value.is_integer());
    assert_eq!(value.as_integer(), Some(-100));
}

#[test]
fn test_concrete_value_parse_decimal() {
    let value = ConcreteValue::parse("#0.5").unwrap();
    assert!(value.is_decimal());
    assert_eq!(value.as_decimal_text().map(|d| d.parse::<f64>().unwrap()), Some(0.5));
}

#[test]
fn test_concrete_value_parse_negative_decimal() {
    let value = ConcreteValue::parse("#-12.34").unwrap();
    assert!(value.is_decimal());
    assert_eq!(value.as_decimal_text().map(|d| d.parse::<f64>().unwrap()), Some(-12.34));
}

#[test]
fn test_concrete_value_display() {
    assert_eq!(ConcreteValue::String("test".to_string()).to_text(), "\"test\"");
    assert_eq!(ConcreteValue::Integer(500).to_text(), "#500");
    assert_eq!(ConcreteValue::Decimal("0.5".to_string()).to_text(), "#0.5");
}

#[test]
fn test_concrete_relationship_characteristic_types() {
    let rel = Rf2ConcreteRelationship {
        id: 12345678901234,
        effective_time: 20230101,
        active: true,
        module_id: 900000000000207008,
        source_id: 322236009,
        value: ConcreteValue::Integer(500),
        relationship_group: 1,
        type_id: 1142135004,
        characteristic_type_id: Rf2ConcreteRelationship::INFERRED_CHARACTERISTIC_TYPE,
        modifier_id: 900000000000451002,
    };

    assert!(rel.is_inferred());
    assert!(!rel.is_stated());
    assert_eq!(rel.value_type(), "integer");
}

#[test]
fn test_concrete_value_edge_cases() {
    assert_eq!(ConcreteValue::parse("500"), None);
    assert_eq!(ConcreteValue::parse(""), None);
    assert_eq!(ConcreteValue::parse("   "), None);
    assert_eq!(ConcreteValue::parse("\""), None);
    assert_eq!(ConcreteValue::parse("#"), None);
    assert_eq!(ConcreteValue::parse("#abc"), None);
    assert_eq!(ConcreteValue::parse("#1.2.3"), None);
    assert_eq!(ConcreteValue::parse("#."), None);
    assert_eq!(ConcreteValue::parse("#1.5e"), None);
    assert_eq!(ConcreteValue::parse("#9223372036854775808"), None);
    assert_eq!(ConcreteValue::parse("\"\""), Some(ConcreteValue::String(String::new())));
    assert_eq!(ConcreteValue::parse("  #42  "), Some(ConcreteValue::Integer(42)));
    assert_eq!(ConcreteValue::parse("#+7"), Some(ConcreteValue::Integer(7)));
    assert_eq!(
        ConcreteValue::parse("#-9223372036854775808"),
        Some(ConcreteValue::Integer(i64::MIN))
    );
    assert_eq!(
        ConcreteValue::parse("#9223372036854775807"),
        Some(ConcreteValue::Integer(i64::MAX))
    );
    assert_eq!(ConcreteValue::parse("#1."), Some(ConcreteValue::Decimal("1.".to_string())));
    assert_eq!(ConcreteValue::parse("#.5"), Some(ConcreteValue::Decimal(".5".to_string())));
    assert_eq!(
        ConcreteValue::parse("#-1.5E+3"),
        Some(ConcreteValue::Decimal("-1.5E+3".to_string()))
    );
    assert_eq!(ConcreteValue::Integer(i64::MIN).to_text(), "#-9223372036854775808");
    assert_eq!(ConcreteValue::Integer(0).to_text(), "#0");
    assert_eq!(ConcreteValue::String("a".to_string()).kind_name(), "string");
    assert_eq!(ConcreteValue::Decimal("0.5".to_string()).kind_name(), "decimal");
    for text in ["#0.5", "#.5", "#1.", "#-1.5E+3", "#12.25e-2"] {
        let value = ConcreteValue::parse(text).unwrap();
        assert!(value.as_decimal_text().unwrap().parse::<f64>().is_ok());
    }
}
