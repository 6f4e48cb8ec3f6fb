use snomed_terminology::{
    Rf2Concept, Rf2Config, Rf2Description, Rf2Error, Rf2Parser, Rf2Relationship,
};

const CONCEPT_HEADER: &str = "id\teffectiveTime\tactive\tmoduleId\tdefinitionStatusId\n";

fn concept(id: u64, active: bool) -> Rf2Concept {
    Rf2Concept {
        id,
        effective_time: 20020131,
        active,
        module_id: 900000000000207008,
        definition_status_id: 900000000000074008,
    }
}

#[test]
fn test_parser_reads_rows_in_file_order() {
    let data = format!(
        "{}{}{}{}",
        CONCEPT_HEADER,
        "404684003\t20020131\t1\t900000000000207008\t900000000000074008\n",
        "100005\t20020131\t0\t900000000000207008\t900000000000074008\n",
        "73211009\t20020131\t1\t900000000000207008\t900000000000074008\n",
    );
    let parser = Rf2Parser::<Rf2Concept>::from_reader(data.as_bytes(), Rf2Config::default()).unwrap();
    assert_eq!(parser.records_read(), 0);
    assert!(parser.config().active_only);
    assert_eq!(parser.parse_all().unwrap(), vec![concept(404684003, true), concept(73211009, true)]);

    let all = Rf2Config { active_only: false, batch_size: 2 };
    let parser = Rf2Parser::<Rf2Concept>::from_reader(data.as_bytes(), all).unwrap();
    assert_eq!(
        parser.parse_all().unwrap(),
        vec![concept(404684003, true), concept(100005, false), concept(73211009, true)]
    );
}

#[test]
fn test_parser_next_surfaces_errors_and_goes_on() {
    let data = format!(
        "{}{}{}{}{}",
        CONCEPT_HEADER,
        "404684003\t20020131\t1\t900000000000207008\t900000000000074008\n",
        "oops\t20020131\t1\t900000000000207008\t900000000000074008\n",
        " \t \t \t \t \n",
        "73211009\t20020131\t1\t900000000000207008\t900000000000074008\n",
    );
    let mut parser =
        Rf2Parser::<Rf2Concept>::from_reader(data.as_bytes(), Rf2Config::default()).unwrap();
    assert_eq!(parser.next(), Some(Ok(concept(404684003, true))));
    assert_eq!(parser.records_read(), 1);
    assert_eq!(parser.next(), Some(Err(Rf2Error::InvalidSctId { value: "oops".to_string() })));
    assert_eq!(parser.next(), Some(Ok(concept(73211009, true))));
    assert_eq!(parser.records_read(), 4);
    assert_eq!(parser.next(), None);
    assert_eq!(parser.next(), None);

    let parser = Rf2Parser::<Rf2Concept>::from_reader(data.as_bytes(), Rf2Config::default()).unwrap();
    let (records, failure) = parser.parse_until_error();
    assert_eq!(records, vec![concept(404684003, true)]);
    assert_eq!(failure, Some(Rf2Error::InvalidSctId { value: "oops".to_string() }));
}

#[test]
fn test_parser_row_of_other_length_is_a_reader_error() {
    let data = format!(
        "{}{}{}",
        CONCEPT_HEADER,
        "404684003\t20020131\t1\t900000000000207008\n",
        "73211009\t20020131\t1\t900000000000207008\t900000000000074008\n",
    );
    let mut parser =
        Rf2Parser::<Rf2Concept>::from_reader(data.as_bytes(), Rf2Config::default()).unwrap();
    assert!(matches!(parser.next(), Some(Err(Rf2Error::Csv(_)))));
    assert_eq!(parser.next(), Some(Ok(concept(73211009, true))));
    assert_eq!(parser.next(), None);
}

#[test]
fn test_parser_header_validation() {
    let short = "id\teffectiveTime\tactive\n";
    assert_eq!(
        Rf2Parser::<Rf2Concept>::from_reader(short.as_bytes(), Rf2Config::default()).err(),
        Some(Rf2Error::InvalidHeader { expected: 5, found: 3 })
    );
    let wrong = "id\teffectiveTime\tstatus\tmoduleId\tdefinitionStatusId\n";
    assert_eq!(
        Rf2Parser::<Rf2Concept>::from_reader(wrong.as_bytes(), Rf2Config::default()).err(),
        Some(Rf2Error::UnexpectedColumn {
            position: 2,
            expected: "active".to_string(),
            found: "status".to_string(),
        })
    );
    let empty = "";
    assert_eq!(
        Rf2Parser::<Rf2Concept>::from_reader(empty.as_bytes(), Rf2Config::default()).err(),
        Some(Rf2Error::InvalidHeader { expected: 5, found: 0 })
    );
    let with_bom = format!(
        "\u{feff}{}{}",
        "id\teffectiveTime\tactive\tmoduleId\tdefinitionStatusId\textra\n",
        "404684003\t20020131\t1\t900000000000207008\t900000000000074008\tx\n"
    );
    let parser =
        Rf2Parser::<Rf2Concept>::from_reader(with_bom.as_bytes(), Rf2Config::default()).unwrap();
    assert_eq!(parser.parse_all().unwrap(), vec![concept(404684003, true)]);
    let relationship_header = "id\teffectiveTime\tactive\tmoduleId\tsourceId\tdestinationId\trelationshipGroup\ttypeId\tcharacteristicTypeId\tmodifierId\n";
    assert!(
        Rf2Parser::<Rf2Relationship>::from_reader(relationship_header.as_bytes(), Rf2Config::default())
            .is_ok()
    );
    assert!(
        Rf2Parser::<Rf2Description>::from_reader(relationship_header.as_bytes(), Rf2Config::default())
            .is_err()
    );
}

#[test]
fn test_parser_header_only_file_has_no_rows() {
    let mut parser =
        Rf2Parser::<Rf2Concept>::from_reader(CONCEPT_HEADER.as_bytes(), Rf2Config::default())
            .unwrap();
    assert_eq!(parser.next(), None);
    assert_eq!(parser.records_read(), 0);
}
