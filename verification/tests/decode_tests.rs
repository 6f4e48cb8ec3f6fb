use snomed_terminology::mrcm::Cardinality;
use snomed_terminology::parse;
use snomed_terminology::well_known;
use snomed_terminology::{
    ConcreteRelationshipConfig, ConcreteRelationshipFilter, DescriptionConfig, DescriptionFilter,
    DescriptionType, CharacteristicType, MrcmAttributeDomain, MrcmAttributeRange, MrcmDomain,
    RelationshipConfig, RelationshipFilter, Rf2AssociationRefsetMember, Rf2Concept,
    Rf2ConcreteRelationship, Rf2Config, Rf2Description, Rf2Error, Rf2Files,
    Rf2LanguageRefsetMember, Rf2OwlExpression, Rf2Record, Rf2Relationship, Rf2SimpleRefsetMember,
};

fn make_record(fields: &[&str]) -> Vec<String> {
    fields.iter().map(|field| field.to_string()).collect()
}

#[test]
fn test_parse_sctid() {
    assert_eq!(parse::sctid("404684003").unwrap(), 404684003u64);
    assert_eq!(parse::sctid("900000000000207008").unwrap(), 900000000000207008u64);
    assert!(parse::sctid("not_a_number").is_err());
    assert!(parse::sctid("").is_err());
}

#[test]
fn test_parse_boolean() {
    assert!(!parse::boolean("0").unwrap());
    assert!(parse::boolean("1").unwrap());
    assert!(parse::boolean("true").is_err());
    assert!(parse::boolean("2").is_err());
}

#[test]
fn test_parse_effective_time() {
    assert_eq!(parse::effective_time("20020131").unwrap(), 20020131u32);
    assert_eq!(parse::effective_time("20251201").unwrap(), 20251201u32);
    assert!(parse::effective_time("2020-01-31").is_err());
    assert!(parse::effective_time("2002013").is_err());
}

#[test]
fn test_parse_integer() {
    assert_eq!(parse::integer("0").unwrap(), 0u16);
    assert_eq!(parse::integer("123").unwrap(), 123u16);
    assert!(parse::integer("abc").is_err());
}

#[test]
fn test_scalar_parser_errors_name_the_cell() {
    assert_eq!(parse::sctid("12x"), Err(Rf2Error::InvalidSctId { value: "12x".to_string() }));
    assert_eq!(parse::sctid("18446744073709551615"), Ok(u64::MAX));
    assert_eq!(
        parse::sctid("18446744073709551616"),
        Err(Rf2Error::InvalidSctId { value: "18446744073709551616".to_string() })
    );
    assert_eq!(parse::sctid("+7"), Ok(7));
    assert_eq!(parse::sctid("007"), Ok(7));
    assert!(parse::sctid(" 7").is_err());
    assert!(parse::sctid("-7").is_err());
    assert!(parse::sctid("+").is_err());
    assert_eq!(parse::boolean(""), Err(Rf2Error::InvalidBoolean { value: String::new() }));
    assert_eq!(parse::boolean("01"), Err(Rf2Error::InvalidBoolean { value: "01".to_string() }));
    assert_eq!(
        parse::effective_time("2002013a"),
        Err(Rf2Error::InvalidDate { value: "2002013a".to_string() })
    );
    assert_eq!(
        parse::effective_time("+2002013"),
        Err(Rf2Error::InvalidDate { value: "+2002013".to_string() })
    );
    assert_eq!(parse::effective_time("00000000"), Ok(0));
    assert_eq!(parse::effective_time("99999999"), Ok(99999999));
    assert_eq!(parse::integer("65535"), Ok(65535));
    assert_eq!(parse::integer("65536"), Err(Rf2Error::InvalidInteger { value: "65536".to_string() }));
    assert_eq!(parse::sctid_with_term("71388002 |Procedure (procedure)|"), Ok(71388002));
    assert_eq!(parse::sctid_with_term("  71388002"), Ok(71388002));
    assert_eq!(
        parse::sctid_with_term("   "),
        Err(Rf2Error::InvalidSctId { value: "   ".to_string() })
    );
    assert_eq!(
        parse::sctid_with_term("abc |x|"),
        Err(Rf2Error::InvalidSctId { value: "abc |x|".to_string() })
    );
}

#[test]
fn test_parse_concept_record() {
    let record = make_record(&[
        "404684003",
        "20020131",
        "1",
        "900000000000207008",
        "900000000000074008",
    ]);

    let concept = Rf2Concept::from_record(&record).unwrap();
    assert_eq!(concept.id, 404684003);
    assert_eq!(concept.effective_time, 20020131);
    assert!(concept.active);
    assert_eq!(concept.module_id, 900000000000207008);
    assert_eq!(concept.definition_status_id, 900000000000074008);
    assert!(concept.is_primitive());
}

#[test]
fn test_parse_inactive_concept() {
    let record = make_record(&[
        "100005",
        "20020131",
        "0",
        "900000000000207008",
        "900000000000074008",
    ]);

    let concept = Rf2Concept::from_record(&record).unwrap();
    assert!(!concept.active);
}

#[test]
fn concept_test_filter_active_only() {
    let active_concept = Rf2Concept {
        id: 1,
        effective_time: 20020131,
        active: true,
        module_id: 900000000000207008,
        definition_status_id: 900000000000074008,
    };

    let inactive_concept = Rf2Concept {
        id: 2,
        effective_time: 20020131,
        active: false,
        module_id: 900000000000207008,
        definition_status_id: 900000000000074008,
    };

    let active_only_config = Rf2Config { active_only: true, ..Default::default() };

    let all_config = Rf2Config { active_only: false, ..Default::default() };

    assert!(active_concept.passes_filter(&active_only_config));
    assert!(!inactive_concept.passes_filter(&active_only_config));
    assert!(active_concept.passes_filter(&all_config));
    assert!(inactive_concept.passes_filter(&all_config));
}

#[test]
fn test_concept_record_errors_in_column_order() {
    assert_eq!(
        Rf2Concept::from_record(&make_record(&["x", "y", "z", "1", "2"])),
        Err(Rf2Error::InvalidSctId { value: "x".to_string() })
    );
    assert_eq!(
        Rf2Concept::from_record(&make_record(&["1", "y", "z", "1", "2"])),
        Err(Rf2Error::InvalidDate { value: "y".to_string() })
    );
    assert_eq!(
        Rf2Concept::from_record(&make_record(&["1", "20020131", "z", "1", "2"])),
        Err(Rf2Error::InvalidBoolean { value: "z".to_string() })
    );
    assert_eq!(
        Rf2Concept::from_record(&make_record(&["1", "20020131", "1"])),
        Err(Rf2Error::InvalidSctId { value: String::new() })
    );
    assert_eq!(
        Rf2Concept::expected_columns(),
        vec!["id", "effectiveTime", "active", "moduleId", "definitionStatusId"]
    );
}

#[test]
fn test_parse_description_record() {
    let record = make_record(&[
        "754786011",
        "20020131",
        "1",
        "900000000000207008",
        "73211009",
        "en",
        "900000000000003001",
        "Diabetes mellitus (disorder)",
        "900000000000448009",
    ]);

    let desc = Rf2Description::from_record(&record).unwrap();
    assert_eq!(desc.id, 754786011);
    assert_eq!(desc.effective_time, 20020131);
    assert!(desc.active);
    assert_eq!(desc.concept_id, 73211009);
    assert_eq!(desc.language_code, "en");
    assert_eq!(desc.type_id, DescriptionType::FSN_ID);
    assert_eq!(desc.term, "Diabetes mellitus (disorder)");
    assert!(desc.is_fsn());
}

#[test]
fn test_language_filter() {
    let english_desc = Rf2Description {
        id: 1,
        effective_time: 20020131,
        active: true,
        module_id: 900000000000207008,
        concept_id: 73211009,
        language_code: "en".to_string(),
        type_id: 900000000000003001,
        term: "Test term".to_string(),
        case_significance_id: 900000000000448009,
    };

    let spanish_desc = Rf2Description { language_code: "es".to_string(), ..english_desc.clone() };

    let english_only =
        DescriptionConfig { language_codes: vec!["en".to_string()], ..Default::default() };

    assert!(english_desc.passes_description_filter(&english_only));
    assert!(!spanish_desc.passes_description_filter(&english_only));
}

#[test]
fn description_test_type_filter() {
    let fsn = Rf2Description {
        id: 1,
        effective_time: 20020131,
        active: true,
        module_id: 900000000000207008,
        concept_id: 73211009,
        language_code: "en".to_string(),
        type_id: 900000000000003001,
        term: "Test (finding)".to_string(),
        case_significance_id: 900000000000448009,
    };

    let synonym = Rf2Description {
        type_id: 900000000000013009,
        term: "Test".to_string(),
        ..fsn.clone()
    };

    let fsn_only = DescriptionConfig::fsn_only();

    assert!(fsn.passes_description_filter(&fsn_only));
    assert!(!synonym.passes_description_filter(&fsn_only));
}

#[test]
fn test_parse_relationship_record() {
    let record = make_record(&[
        "100000028",
        "20020131",
        "1",
        "900000000000207008",
        "73211009",
        "362969004",
        "0",
        "116680003",
        "900000000000011006",
        "900000000000451002",
    ]);

    let rel = Rf2Relationship::from_record(&record).unwrap();
    assert_eq!(rel.id, 100000028);
    assert_eq!(rel.source_id, 73211009);
    assert_eq!(rel.destination_id, 362969004);
    assert_eq!(rel.relationship_group, 0);
    assert!(rel.is_is_a());
    assert!(rel.is_inferred());
}

#[test]
fn test_characteristic_type_filter() {
    let inferred = Rf2Relationship {
        id: 1,
        effective_time: 20020131,
        active: true,
        module_id: 900000000000207008,
        source_id: 73211009,
        destination_id: 362969004,
        relationship_group: 0,
        type_id: 116680003,
        characteristic_type_id: CharacteristicType::INFERRED_ID,
        modifier_id: 900000000000451002,
    };

    let stated =
        Rf2Relationship { characteristic_type_id: CharacteristicType::STATED_ID, ..inferred.clone() };

    let inferred_only = RelationshipConfig::inferred_only();

    assert!(inferred.passes_relationship_filter(&inferred_only));
    assert!(!stated.passes_relationship_filter(&inferred_only));
}

#[test]
fn relationship_test_type_filter() {
    let is_a = Rf2Relationship {
        id: 1,
        effective_time: 20020131,
        active: true,
        module_id: 900000000000207008,
        source_id: 73211009,
        destination_id: 362969004,
        relationship_group: 0,
        type_id: 116680003,
        characteristic_type_id: 900000000000011006,
        modifier_id: 900000000000451002,
    };

    let finding_site = Rf2Relationship { type_id: 363698007, ..is_a.clone() };

    let is_a_only = RelationshipConfig::is_a_only();

    assert!(is_a.passes_relationship_filter(&is_a_only));
    assert!(!finding_site.passes_relationship_filter(&is_a_only));
}

#[test]
fn test_parse_integer_value() {
    let record = make_record(&[
        "12345678901234",
        "20230101",
        "1",
        "900000000000207008",
        "322236009",
        "#500",
        "1",
        "1142135004",
        "900000000000011006",
        "900000000000451002",
    ]);

    let rel = Rf2ConcreteRelationship::from_record(&record).unwrap();

    assert_eq!(rel.id, 12345678901234);
    assert!(rel.active);
    assert_eq!(rel.source_id, 322236009);
    assert!(rel.value.is_integer());
    assert_eq!(rel.value.as_integer(), Some(500));
    assert!(rel.is_inferred());
}

#[test]
fn test_parse_decimal_value() {
    let record = make_record(&[
        "12345678901234",
        "20230101",
        "1",
        "900000000000207008",
        "322236009",
        "#0.5",
        "1",
        "1142135004",
        "900000000000011006",
        "900000000000451002",
    ]);

    let rel = Rf2ConcreteRelationship::from_record(&record).unwrap();
    assert!(rel.value.is_decimal());
    assert_eq!(rel.value.as_decimal_text().map(|d| d.parse::<f64>().unwrap()), Some(0.5));
}

#[test]
fn test_parse_string_value() {
    let record = make_record(&[
        "12345678901234",
        "20230101",
        "1",
        "900000000000207008",
        "322236009",
        "\"tablet\"",
        "1",
        "1142135004",
        "900000000000011006",
        "900000000000451002",
    ]);

    let rel = Rf2ConcreteRelationship::from_record(&record).unwrap();
    assert!(rel.value.is_string());
    assert_eq!(rel.value.as_string(), Some("tablet"));
}

#[test]
fn test_parse_value_without_prefix_fails() {
    let record = make_record(&[
        "12345678901234",
        "20230101",
        "1",
        "900000000000207008",
        "322236009",
        "500",
        "1",
        "1142135004",
        "900000000000011006",
        "900000000000451002",
    ]);

    assert_eq!(
        Rf2ConcreteRelationship::from_record(&record),
        Err(Rf2Error::Parse("Invalid concrete value: 500".to_string()))
    );
}

#[test]
fn test_filter_inferred_only() {
    let record = make_record(&[
        "12345678901234",
        "20230101",
        "1",
        "900000000000207008",
        "322236009",
        "#500",
        "1",
        "1142135004",
        "900000000000010007",
        "900000000000451002",
    ]);

    let rel = Rf2ConcreteRelationship::from_record(&record).unwrap();

    let config = ConcreteRelationshipConfig::inferred_only();
    assert!(!rel.passes_concrete_filter(&config));

    let config = ConcreteRelationshipConfig::stated_only();
    assert!(rel.passes_concrete_filter(&config));
}

#[test]
fn test_filter_by_type() {
    let record = make_record(&[
        "12345678901234",
        "20230101",
        "1",
        "900000000000207008",
        "322236009",
        "#500",
        "1",
        "1142135004",
        "900000000000011006",
        "900000000000451002",
    ]);

    let rel = Rf2ConcreteRelationship::from_record(&record).unwrap();

    let mut config = ConcreteRelationshipConfig::default();
    config.type_ids = vec![1142135004];
    assert!(rel.passes_concrete_filter(&config));

    config.type_ids = vec![999999999];
    assert!(!rel.passes_concrete_filter(&config));
}

#[test]
fn test_parse_owl_expression_record() {
    let record = make_record(&[
        "12345678901234",
        "20230101",
        "1",
        "900000000000207008",
        "733073007",
        "404684003",
        "SubClassOf(:404684003 :138875005)",
    ]);

    let owl = Rf2OwlExpression::from_record(&record).unwrap();

    assert_eq!(owl.id, 12345678901234);
    assert_eq!(owl.effective_time, 20230101);
    assert!(owl.active);
    assert_eq!(owl.module_id, 900000000000207008);
    assert_eq!(owl.refset_id, Rf2OwlExpression::OWL_AXIOM_REFSET_ID);
    assert_eq!(owl.referenced_component_id, 404684003);
    assert_eq!(owl.owl_expression, "SubClassOf(:404684003 :138875005)");
    assert!(owl.is_subclass_axiom());
}

#[test]
fn test_parse_inactive_owl_expression() {
    let record = make_record(&[
        "12345678901234",
        "20230101",
        "0",
        "900000000000207008",
        "733073007",
        "404684003",
        "SubClassOf(:404684003 :138875005)",
    ]);

    let owl = Rf2OwlExpression::from_record(&record).unwrap();
    assert!(!owl.active);
}

#[test]
fn owl_expression_test_filter_active_only() {
    let record = make_record(&[
        "12345678901234",
        "20230101",
        "0",
        "900000000000207008",
        "733073007",
        "404684003",
        "SubClassOf(:404684003 :138875005)",
    ]);

    let owl = Rf2OwlExpression::from_record(&record).unwrap();

    let config = Rf2Config { active_only: true, ..Rf2Config::default() };
    assert!(!owl.passes_filter(&config));

    let config = Rf2Config { active_only: false, ..Rf2Config::default() };
    assert!(owl.passes_filter(&config));
}

#[test]
fn test_parse_simple_refset_member() {
    let record =
        make_record(&["12345678901", "20200101", "1", "900000000000207008", "723264001", "12345678"]);

    let member = Rf2SimpleRefsetMember::from_record(&record).unwrap();
    assert_eq!(member.id, 12345678901);
    assert!(member.active);
    assert_eq!(member.refset_id, 723264001);
    assert_eq!(member.referenced_component_id, 12345678);
}

#[test]
fn test_parse_language_refset_member() {
    let record = make_record(&[
        "12345678901",
        "20200101",
        "1",
        "900000000000207008",
        "900000000000509007",
        "12345678",
        "900000000000548007",
    ]);

    let member = Rf2LanguageRefsetMember::from_record(&record).unwrap();
    assert_eq!(member.id, 12345678901);
    assert!(member.active);
    assert!(member.is_preferred());
    assert!(!member.is_acceptable());
}

#[test]
fn test_simple_refset_filter_active_only() {
    let active_member = Rf2SimpleRefsetMember {
        id: 1,
        effective_time: 20200101,
        active: true,
        module_id: 900000000000207008,
        refset_id: 723264001,
        referenced_component_id: 12345,
    };

    let inactive_member = Rf2SimpleRefsetMember {
        id: 2,
        effective_time: 20200101,
        active: false,
        module_id: 900000000000207008,
        refset_id: 723264001,
        referenced_component_id: 12346,
    };

    let active_config = Rf2Config { active_only: true, batch_size: 1000 };

    let all_config = Rf2Config { active_only: false, batch_size: 1000 };

    assert!(active_member.passes_filter(&active_config));
    assert!(!inactive_member.passes_filter(&active_config));
    assert!(active_member.passes_filter(&all_config));
    assert!(inactive_member.passes_filter(&all_config));
}

#[test]
fn test_parse_association_refset_member() {
    let record = make_record(&[
        "12345678901",
        "20200101",
        "1",
        "900000000000207008",
        "900000000000527005",
        "12345678",
        "87654321",
    ]);

    let member = Rf2AssociationRefsetMember::from_record(&record).unwrap();
    assert_eq!(member.id, 12345678901);
    assert!(member.active);
    assert_eq!(member.refset_id, Rf2AssociationRefsetMember::SAME_AS_REFSET);
    assert_eq!(member.referenced_component_id, 12345678);
    assert_eq!(member.target_component_id, 87654321);
    assert!(member.is_same_as_association());
    assert!(member.is_historical_association());
}

#[test]
fn test_parse_replaced_by_association() {
    let record = make_record(&[
        "12345678901",
        "20200101",
        "1",
        "900000000000207008",
        "900000000000526001",
        "12345678",
        "87654321",
    ]);

    let member = Rf2AssociationRefsetMember::from_record(&record).unwrap();
    assert!(member.is_replaced_by_association());
    assert!(member.is_historical_association());
    assert!(!member.is_same_as_association());
}

fn make_domain_record() -> Vec<String> {
    make_record(&[
        "550e8400-e29b-41d4-a716-446655440000",
        "20240101",
        "1",
        "900000000000207008",
        "723589008",
        "404684003",
        "<< 404684003 |Clinical finding|",
        "",
        "<< 404684003 |Clinical finding|",
        "",
        "[[+id(< 404684003 |Clinical finding|)]]",
        "[[+id(< 404684003 |Clinical finding|)]]",
        "",
    ])
}

#[test]
fn test_parse_mrcm_domain() {
    let record = make_domain_record();
    let domain = MrcmDomain::from_record(&record).unwrap();

    assert_eq!(domain.id, "550e8400-e29b-41d4-a716-446655440000");
    assert_eq!(domain.effective_time, 20240101);
    assert!(domain.active);
    assert_eq!(domain.module_id, 900000000000207008);
    assert_eq!(domain.refset_id, 723589008);
    assert_eq!(domain.referenced_component_id, 404684003);
    assert_eq!(domain.domain_constraint, "<< 404684003 |Clinical finding|");
    assert!(domain.parent_domain.is_none());
    assert!(domain.proximal_primitive_refinement.is_none());
    assert!(domain.guide_url.is_none());
}

#[test]
fn test_parse_with_parent_domain() {
    let record = make_record(&[
        "550e8400-e29b-41d4-a716-446655440000",
        "20240101",
        "1",
        "900000000000207008",
        "723589008",
        "404684003",
        "<< 404684003",
        "138875005",
        "<< 404684003",
        "",
        "template1",
        "template2",
        "",
    ]);

    let domain = MrcmDomain::from_record(&record).unwrap();
    assert_eq!(domain.parent_domain, Some(138875005));
}

#[test]
fn domain_test_filter_inactive() {
    let record = make_record(&[
        "550e8400-e29b-41d4-a716-446655440000",
        "20240101",
        "0",
        "900000000000207008",
        "723589008",
        "404684003",
        "<< 404684003",
        "",
        "<< 404684003",
        "",
        "template1",
        "template2",
        "",
    ]);

    let domain = MrcmDomain::from_record(&record).unwrap();

    let config_active_only = Rf2Config { active_only: true, ..Default::default() };
    assert!(!domain.passes_filter(&config_active_only));

    let config_all = Rf2Config { active_only: false, ..Default::default() };
    assert!(domain.passes_filter(&config_all));
}

#[test]
fn test_mrcm_domain_missing_columns_and_options() {
    let mut record = make_domain_record();
    record.truncate(12);
    assert_eq!(
        MrcmDomain::from_record(&record),
        Err(Rf2Error::MissingColumn { column: "guideURL".to_string() })
    );
    assert_eq!(
        MrcmDomain::from_record(&Vec::new()),
        Err(Rf2Error::MissingColumn { column: "id".to_string() })
    );
    let mut full = make_domain_record();
    full[7] = "71388002 |Procedure (procedure)|".to_string();
    full[9] = "refinement".to_string();
    full[12] = "http://snomed.org/guide".to_string();
    let domain = MrcmDomain::from_record(&full).unwrap();
    assert_eq!(domain.parent_domain, Some(71388002));
    assert_eq!(domain.proximal_primitive_refinement, Some("refinement".to_string()));
    assert_eq!(domain.guide_url, Some("http://snomed.org/guide".to_string()));
    assert_eq!(MrcmDomain::expected_columns().len(), 13);
}

fn make_attribute_domain_record() -> Vec<String> {
    make_record(&[
        "550e8400-e29b-41d4-a716-446655440001",
        "20240101",
        "1",
        "900000000000207008",
        "723604009",
        "363698007",
        "404684003",
        "1",
        "0..*",
        "0..1",
        "723597001",
        "723596005",
    ])
}

#[test]
fn test_parse_mrcm_attribute_domain() {
    let record = make_attribute_domain_record();
    let attr_domain = MrcmAttributeDomain::from_record(&record).unwrap();

    assert_eq!(attr_domain.id, "550e8400-e29b-41d4-a716-446655440001");
    assert_eq!(attr_domain.effective_time, 20240101);
    assert!(attr_domain.active);
    assert_eq!(attr_domain.module_id, 900000000000207008);
    assert_eq!(attr_domain.refset_id, well_known::MRCM_ATTRIBUTE_DOMAIN_REFSET);
    assert_eq!(attr_domain.referenced_component_id, well_known::FINDING_SITE);
    assert_eq!(attr_domain.domain_id, well_known::CLINICAL_FINDING);
    assert!(attr_domain.grouped);
    assert_eq!(attr_domain.attribute_cardinality, Cardinality::unbounded());
    assert_eq!(attr_domain.attribute_in_group_cardinality, Cardinality::optional());
    assert_eq!(attr_domain.rule_strength_id, well_known::MANDATORY_CONCEPT_MODEL_RULE);
    assert_eq!(attr_domain.content_type_id, well_known::ALL_SNOMED_CT_CONTENT);
}

#[test]
fn attribute_domain_test_is_mandatory() {
    let record = make_attribute_domain_record();
    let attr_domain = MrcmAttributeDomain::from_record(&record).unwrap();
    assert!(attr_domain.is_mandatory());
}

#[test]
fn attribute_domain_test_is_optional() {
    let record = make_record(&[
        "550e8400-e29b-41d4-a716-446655440001",
        "20240101",
        "1",
        "900000000000207008",
        "723604009",
        "363698007",
        "404684003",
        "1",
        "0..*",
        "0..1",
        "723598006",
        "723596005",
    ]);

    let attr_domain = MrcmAttributeDomain::from_record(&record).unwrap();
    assert!(!attr_domain.is_mandatory());
}

#[test]
fn test_is_grouped() {
    let record = make_attribute_domain_record();
    let attr_domain = MrcmAttributeDomain::from_record(&record).unwrap();
    assert!(attr_domain.is_grouped());

    let record_ungrouped = make_record(&[
        "550e8400-e29b-41d4-a716-446655440001",
        "20240101",
        "1",
        "900000000000207008",
        "723604009",
        "363698007",
        "404684003",
        "0",
        "0..*",
        "0..1",
        "723597001",
        "723596005",
    ]);

    let attr_domain_ungrouped = MrcmAttributeDomain::from_record(&record_ungrouped).unwrap();
    assert!(!attr_domain_ungrouped.is_grouped());
}

#[test]
fn test_cardinality_parsing() {
    let record = make_record(&[
        "550e8400-e29b-41d4-a716-446655440001",
        "20240101",
        "1",
        "900000000000207008",
        "723604009",
        "363698007",
        "404684003",
        "1",
        "1..*",
        "1..1",
        "723597001",
        "723596005",
    ]);

    let attr_domain = MrcmAttributeDomain::from_record(&record).unwrap();
    assert_eq!(attr_domain.attribute_cardinality, Cardinality::one_or_more());
    assert_eq!(attr_domain.attribute_in_group_cardinality, Cardinality::required());
}

#[test]
fn attribute_domain_test_filter_inactive() {
    let record = make_record(&[
        "550e8400-e29b-41d4-a716-446655440001",
        "20240101",
        "0",
        "900000000000207008",
        "723604009",
        "363698007",
        "404684003",
        "1",
        "0..*",
        "0..1",
        "723597001",
        "723596005",
    ]);

    let attr_domain = MrcmAttributeDomain::from_record(&record).unwrap();

    let config_active_only = Rf2Config { active_only: true, ..Default::default() };
    assert!(!attr_domain.passes_filter(&config_active_only));

    let config_all = Rf2Config { active_only: false, ..Default::default() };
    assert!(attr_domain.passes_filter(&config_all));
}

#[test]
fn test_attribute_domain_bad_cardinality_is_invalid_integer() {
    let mut record = make_attribute_domain_record();
    record[8] = "many".to_string();
    assert_eq!(
        MrcmAttributeDomain::from_record(&record),
        Err(Rf2Error::InvalidInteger { value: "many".to_string() })
    );
    record.truncate(8);
    assert_eq!(
        MrcmAttributeDomain::from_record(&record),
        Err(Rf2Error::MissingColumn { column: "attributeCardinality".to_string() })
    );
}

fn make_attribute_range_record() -> Vec<String> {
    make_record(&[
        "550e8400-e29b-41d4-a716-446655440002",
        "20240101",
        "1",
        "900000000000207008",
        "723592007",
        "363698007",
        "<< 123037004 |Body structure|",
        "",
        "723597001",
        "723596005",
    ])
}

#[test]
fn test_parse_mrcm_attribute_range() {
    let record = make_attribute_range_record();
    let attr_range = MrcmAttributeRange::from_record(&record).unwrap();

    assert_eq!(attr_range.id, "550e8400-e29b-41d4-a716-446655440002");
    assert_eq!(attr_range.effective_time, 20240101);
    assert!(attr_range.active);
    assert_eq!(attr_range.module_id, 900000000000207008);
    assert_eq!(attr_range.refset_id, well_known::MRCM_ATTRIBUTE_RANGE_REFSET);
    assert_eq!(attr_range.referenced_component_id, well_known::FINDING_SITE);
    assert_eq!(attr_range.range_constraint, "<< 123037004 |Body structure|");
    assert!(attr_range.attribute_rule.is_none());
    assert_eq!(attr_range.rule_strength_id, well_known::MANDATORY_CONCEPT_MODEL_RULE);
    assert_eq!(attr_range.content_type_id, well_known::ALL_SNOMED_CT_CONTENT);
}

#[test]
fn test_with_attribute_rule() {
    let record = make_record(&[
        "550e8400-e29b-41d4-a716-446655440002",
        "20240101",
        "1",
        "900000000000207008",
        "723592007",
        "363698007",
        "<< 123037004 |Body structure|",
        "Some additional rule text",
        "723597001",
        "723596005",
    ]);

    let attr_range = MrcmAttributeRange::from_record(&record).unwrap();
    assert!(attr_range.has_attribute_rule());
    assert_eq!(attr_range.attribute_rule.as_deref(), Some("Some additional rule text"));
}

#[test]
fn attribute_range_test_is_mandatory() {
    let record = make_attribute_range_record();
    let attr_range = MrcmAttributeRange::from_record(&record).unwrap();
    assert!(attr_range.is_mandatory());
}

#[test]
fn attribute_range_test_is_optional() {
    let record = make_record(&[
        "550e8400-e29b-41d4-a716-446655440002",
        "20240101",
        "1",
        "900000000000207008",
        "723592007",
        "363698007",
        "<< 123037004",
        "",
        "723598006",
        "723596005",
    ]);

    let attr_range = MrcmAttributeRange::from_record(&record).unwrap();
    assert!(!attr_range.is_mandatory());
}

#[test]
fn attribute_range_test_filter_inactive() {
    let record = make_record(&[
        "550e8400-e29b-41d4-a716-446655440002",
        "20240101",
        "0",
        "900000000000207008",
        "723592007",
        "363698007",
        "<< 123037004",
        "",
        "723597001",
        "723596005",
    ]);

    let attr_range = MrcmAttributeRange::from_record(&record).unwrap();

    let config_active_only = Rf2Config { active_only: true, ..Default::default() };
    assert!(!attr_range.passes_filter(&config_active_only));

    let config_all = Rf2Config { active_only: false, ..Default::default() };
    assert!(attr_range.passes_filter(&config_all));
}

#[test]
fn test_complex_range_constraint() {
    let record = make_record(&[
        "550e8400-e29b-41d4-a716-446655440002",
        "20240101",
        "1",
        "900000000000207008",
        "723592007",
        "246112005",
        "<< 272141005 |Severities (qualifier value)| OR << 371928007 |Severity modifier (attribute)|",
        "",
        "723597001",
        "723596005",
    ]);

    let attr_range = MrcmAttributeRange::from_record(&record).unwrap();
    assert_eq!(attr_range.referenced_component_id, well_known::SEVERITY);
    assert!(attr_range.range_constraint.contains("OR"));
}

#[test]
fn test_rf2_config_default() {
    let config = Rf2Config::default();
    assert!(config.active_only);
    assert_eq!(config.batch_size, 10_000);
}

#[test]
fn test_description_config_english_terms() {
    let config = DescriptionConfig::english_terms();
    assert_eq!(config.language_codes, vec!["en"]);
    assert_eq!(config.type_ids.len(), 2);
}

#[test]
fn test_relationship_config_inferred_only() {
    let config = RelationshipConfig::inferred_only();
    assert!(config.type_ids.is_empty());
    assert_eq!(config.characteristic_type_ids, vec![900000000000011006]);
}

#[test]
fn test_rf2_files_missing() {
    let files = Rf2Files {
        concept_file: Some("concept.txt".to_string()),
        description_file: None,
        relationship_file: None,
        ..Default::default()
    };

    assert!(!files.has_required_files());
    let missing = files.missing_files();
    assert_eq!(missing.len(), 2);
    assert!(missing.contains(&"Description"));
    assert!(missing.contains(&"Relationship"));
}

#[test]
fn test_rf2_files_complete() {
    let mut files = Rf2Files::new();
    assert_eq!(files.missing_files(), vec!["Concept", "Description", "Relationship"]);
    files.concept_file = Some("c".to_string());
    files.description_file = Some("d".to_string());
    files.relationship_file = Some("r".to_string());
    assert!(files.has_required_files());
    assert!(files.missing_files().is_empty());
    assert_eq!(DescriptionConfig::fsn_only().type_ids, vec![900000000000003001]);
    assert_eq!(RelationshipConfig::is_a_only().type_ids, vec![116680003]);
    assert!(RelationshipConfig::default().characteristic_type_ids.is_empty());
}
