use snomed_terminology::mrcm::Cardinality;
use snomed_terminology::well_known;
use snomed_terminology::{
    MrcmAttributeDomain, MrcmAttributeRange, MrcmDomain, MrcmStore, Rf2Config, Rf2Error,
};

fn make_test_domain() -> MrcmDomain {
    MrcmDomain {
        id: "test-domain-1".to_string(),
        effective_time: 20240101,
        active: true,
        module_id: 900000000000207008,
        refset_id: well_known::MRCM_DOMAIN_REFSET,
        referenced_component_id: well_known::CLINICAL_FINDING,
        domain_constraint: "<< 404684003".to_string(),
        parent_domain: None,
        proximal_primitive_constraint: "<< 404684003".to_string(),
        proximal_primitive_refinement: None,
        domain_template_for_precoordination: "template".to_string(),
        domain_template_for_postcoordination: "template".to_string(),
        guide_url: None,
    }
}

fn make_test_attribute_domain() -> MrcmAttributeDomain {
    MrcmAttributeDomain {
        id: "test-attr-domain-1".to_string(),
        effective_time: 20240101,
        active: true,
        module_id: 900000000000207008,
        refset_id: well_known::MRCM_ATTRIBUTE_DOMAIN_REFSET,
        referenced_component_id: well_known::FINDING_SITE,
        domain_id: well_known::CLINICAL_FINDING,
        grouped: true,
        attribute_cardinality: Cardinality::unbounded(),
        attribute_in_group_cardinality: Cardinality::optional(),
        rule_strength_id: well_known::MANDATORY_CONCEPT_MODEL_RULE,
        content_type_id: well_known::ALL_SNOMED_CT_CONTENT,
    }
}

fn make_test_attribute_range() -> MrcmAttributeRange {
    MrcmAttributeRange {
        id: "test-attr-range-1".to_string(),
        effective_time: 20240101,
        active: true,
        module_id: 900000000000207008,
        refset_id: well_known::MRCM_ATTRIBUTE_RANGE_REFSET,
        referenced_component_id: well_known::FINDING_SITE,
        range_constraint: "<< 123037004 |Body structure|".to_string(),
        attribute_rule: None,
        rule_strength_id: well_known::MANDATORY_CONCEPT_MODEL_RULE,
        content_type_id: well_known::ALL_SNOMED_CT_CONTENT,
    }
}

#[test]
fn test_new_store_is_empty() {
    let store = MrcmStore::new();
    assert!(store.is_empty());
    assert_eq!(store.domain_count(), 0);
    assert_eq!(store.attribute_domain_count(), 0);
    assert_eq!(store.attribute_range_count(), 0);
}

#[test]
fn test_insert_and_retrieve_domain() {
    let mut store = MrcmStore::new();
    let domain = make_test_domain();

    store.insert_domain(domain.clone());

    assert_eq!(store.domain_count(), 1);

    let retrieved = store.get_domains_for_concept(well_known::CLINICAL_FINDING);
    assert!(retrieved.is_some());
    assert_eq!(retrieved.unwrap().len(), 1);
    assert_eq!(retrieved.unwrap()[0].id, domain.id);
}

#[test]
fn test_insert_and_retrieve_attribute_domain() {
    let mut store = MrcmStore::new();
    let attr_domain = make_test_attribute_domain();

    store.insert_attribute_domain(attr_domain.clone());

    assert_eq!(store.attribute_domain_count(), 1);

    let retrieved = store.get_attribute_domains(well_known::FINDING_SITE);
    assert!(retrieved.is_some());
    assert_eq!(retrieved.unwrap().len(), 1);
}

#[test]
fn test_insert_and_retrieve_attribute_range() {
    let mut store = MrcmStore::new();
    let attr_range = make_test_attribute_range();

    store.insert_attribute_range(attr_range.clone());

    assert_eq!(store.attribute_range_count(), 1);

    let retrieved = store.get_attribute_range(well_known::FINDING_SITE);
    assert!(retrieved.is_some());
}

#[test]
fn test_is_attribute_valid_for_domain() {
    let mut store = MrcmStore::new();
    let attr_domain = make_test_attribute_domain();

    store.insert_attribute_domain(attr_domain);

    assert!(store
        .is_attribute_valid_for_domain(well_known::FINDING_SITE, well_known::CLINICAL_FINDING));

    assert!(!store.is_attribute_valid_for_domain(well_known::FINDING_SITE, well_known::PROCEDURE));
}

#[test]
fn test_is_attribute_grouped() {
    let mut store = MrcmStore::new();
    let attr_domain = make_test_attribute_domain();

    store.insert_attribute_domain(attr_domain);

    assert!(store.is_attribute_grouped(well_known::FINDING_SITE));
}

#[test]
fn test_get_range_constraint() {
    let mut store = MrcmStore::new();
    let attr_range = make_test_attribute_range();

    store.insert_attribute_range(attr_range);

    let constraint = store.get_range_constraint(well_known::FINDING_SITE);
    assert!(constraint.is_some());
    assert!(constraint.unwrap().contains("Body structure"));
}

#[test]
fn test_get_valid_domains_for_attribute() {
    let mut store = MrcmStore::new();
    let attr_domain = make_test_attribute_domain();

    store.insert_attribute_domain(attr_domain);

    let domains = store.get_valid_domains_for_attribute(well_known::FINDING_SITE);
    assert_eq!(domains.len(), 1);
    assert!(domains.contains(&well_known::CLINICAL_FINDING));
}

#[test]
fn test_get_valid_attributes_for_domain() {
    let mut store = MrcmStore::new();
    let attr_domain = make_test_attribute_domain();

    store.insert_attribute_domain(attr_domain);

    let attrs = store.get_valid_attributes_for_domain(well_known::CLINICAL_FINDING);
    assert_eq!(attrs.len(), 1);
    assert!(attrs.contains(&well_known::FINDING_SITE));
}

#[test]
fn test_inactive_records_filtered_in_queries() {
    let mut store = MrcmStore::new();
    let mut attr_domain = make_test_attribute_domain();
    attr_domain.active = false;

    store.insert_attribute_domain(attr_domain);

    assert!(!store
        .is_attribute_valid_for_domain(well_known::FINDING_SITE, well_known::CLINICAL_FINDING));

    assert!(!store.is_attribute_grouped(well_known::FINDING_SITE));
}

#[test]
fn test_statistics() {
    let mut store = MrcmStore::new();

    store.insert_domain(make_test_domain());

    let attr_domain1 = make_test_attribute_domain();
    let mut attr_domain2 = make_test_attribute_domain();
    attr_domain2.domain_id = well_known::PROCEDURE;

    store.insert_attribute_domain(attr_domain1);
    store.insert_attribute_domain(attr_domain2);

    store.insert_attribute_range(make_test_attribute_range());

    assert_eq!(store.domain_count(), 1);
    assert_eq!(store.total_domain_records(), 1);
    assert_eq!(store.attribute_domain_count(), 1);
    assert_eq!(store.total_attribute_domain_records(), 2);
    assert_eq!(store.attribute_range_count(), 1);
    assert_eq!(store.total_attribute_range_records(), 1);
    assert!(!store.is_empty());
}

#[test]
fn test_mrcm_queries_keep_row_order_and_skip_inactive() {
    let mut store = MrcmStore::with_capacity(4, 4, 4);
    let mut first = make_test_attribute_range();
    first.active = false;
    first.range_constraint = "<< 1".to_string();
    let mut second = make_test_attribute_range();
    second.range_constraint = "<< 2".to_string();
    let mut third = make_test_attribute_range();
    third.range_constraint = "<< 3".to_string();
    store.insert_attribute_ranges(vec![first, second, third]);
    assert_eq!(store.get_range_constraint(well_known::FINDING_SITE), Some("<< 2"));
    assert_eq!(store.get_range_constraint(well_known::SEVERITY), None);

    let mut in_procedure = make_test_attribute_domain();
    in_procedure.domain_id = well_known::PROCEDURE;
    let mut inactive = make_test_attribute_domain();
    inactive.domain_id = well_known::BODY_STRUCTURE;
    inactive.active = false;
    let mut severity = make_test_attribute_domain();
    severity.referenced_component_id = well_known::SEVERITY;
    severity.grouped = false;
    store.insert_attribute_domains(vec![
        in_procedure,
        inactive,
        make_test_attribute_domain(),
        severity,
    ]);
    assert_eq!(
        store.get_valid_domains_for_attribute(well_known::FINDING_SITE),
        vec![well_known::PROCEDURE, well_known::CLINICAL_FINDING]
    );
    assert_eq!(
        store.get_valid_attributes_for_domain(well_known::CLINICAL_FINDING),
        vec![well_known::FINDING_SITE, well_known::SEVERITY]
    );
    assert_eq!(
        store.get_valid_attributes_for_domain(well_known::PROCEDURE),
        vec![well_known::FINDING_SITE]
    );
    assert!(store.get_valid_attributes_for_domain(well_known::BODY_STRUCTURE).is_empty());
    assert!(!store.is_attribute_grouped(well_known::SEVERITY));
    assert_eq!(store.attribute_domain_count(), 2);
    assert_eq!(store.total_attribute_domain_records(), 4);
    assert!(store.get_domains_for_concept(well_known::PROCEDURE).is_none());
}

const DOMAIN_HEADER: &str = "id\teffectiveTime\tactive\tmoduleId\trefsetId\treferencedComponentId\tdomainConstraint\tparentDomain\tproximalPrimitiveConstraint\tproximalPrimitiveRefinement\tdomainTemplateForPrecoordination\tdomainTemplateForPostcoordination\tguideURL\n";

#[test]
fn test_mrcm_load_domains_from_bytes() {
    let data = format!(
        "{}{}{}",
        DOMAIN_HEADER,
        "a\t20240101\t1\t900000000000207008\t723589008\t404684003\t<< 404684003\t\t<< 404684003\t\tt1\tt2\t\n",
        "b\t20240101\t0\t900000000000207008\t723589008\t71388002\t<< 71388002\t\t<< 71388002\t\tt1\tt2\t\n",
    );
    let mut store = MrcmStore::new();
    assert_eq!(store.load_domains(data.as_bytes(), Rf2Config::default()), Ok(1));
    assert_eq!(store.domain_count(), 1);
    assert_eq!(store.get_domains_for_concept(404684003).unwrap()[0].id, "a");

    let mut all = MrcmStore::new();
    let config = Rf2Config { active_only: false, batch_size: 10 };
    assert_eq!(all.load_domains(data.as_bytes(), config), Ok(2));
    assert_eq!(all.total_domain_records(), 2);
}

#[test]
fn test_mrcm_load_stops_at_first_bad_row() {
    let data = format!(
        "{}{}{}{}",
        DOMAIN_HEADER,
        "a\t20240101\t1\t900000000000207008\t723589008\t404684003\t<< 404684003\t\t<< 404684003\t\tt1\tt2\t\n",
        "b\t2024\t1\t900000000000207008\t723589008\t71388002\t<< 71388002\t\t<< 71388002\t\tt1\tt2\t\n",
        "c\t20240101\t1\t900000000000207008\t723589008\t123037004\t<< 123037004\t\t<< 123037004\t\tt1\tt2\t\n",
    );
    let mut store = MrcmStore::new();
    assert_eq!(
        store.load_domains(data.as_bytes(), Rf2Config::default()),
        Err(Rf2Error::InvalidDate { value: "2024".to_string() })
    );
    assert_eq!(store.total_domain_records(), 1);
    assert!(store.get_domains_for_concept(123037004).is_none());

    assert!(MrcmStore::from_files(Some(data.as_bytes()), None, None).is_err());
    let empty = MrcmStore::from_files(None, None, None).unwrap();
    assert!(empty.is_empty());
}

#[test]
fn test_mrcm_load_refuses_wrong_header() {
    let data = "id\teffectiveTime\tactive\n";
    let mut store = MrcmStore::new();
    assert_eq!(
        store.load_domains(data.as_bytes(), Rf2Config::default()),
        Err(Rf2Error::InvalidHeader { expected: 13, found: 3 })
    );
    assert!(store.is_empty());
}
