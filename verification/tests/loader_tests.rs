use snomed_terminology::loader::{
    is_refset_file, mrcm_file, note_mrcm_file, note_terminology_file, terminology_file, MrcmFile,
    TerminologyFile,
};
use snomed_terminology::{extract_release_date, format_bytes, Rf2Files};

#[test]
fn test_extract_release_date() {
    assert_eq!(
        extract_release_date("sct2_Concept_Snapshot_INT_20251201.txt"),
        Some("20251201".to_string())
    );
    assert_eq!(
        extract_release_date("sct2_Description_Snapshot-en_INT_20251201.txt"),
        Some("20251201".to_string())
    );
    assert_eq!(extract_release_date("invalid_filename.txt"), None);
}

#[test]
fn test_format_bytes() {
    assert_eq!(format_bytes(500), "500 bytes");
    assert_eq!(format_bytes(1024), "1.00 KB");
    assert_eq!(format_bytes(1536), "1.50 KB");
    assert_eq!(format_bytes(1024 * 1024), "1.00 MB");
    assert_eq!(format_bytes(1024 * 1024 * 1024), "1.00 GB");
}

#[test]
fn test_extract_release_date_edge_cases() {
    assert_eq!(extract_release_date("20251201"), Some("20251201".to_string()));
    assert_eq!(extract_release_date("20251201.txt.txt"), Some("20251201".to_string()));
    assert_eq!(extract_release_date("x_20251201.csv"), None);
    assert_eq!(extract_release_date("x_2025120.txt"), None);
    assert_eq!(extract_release_date("x_202512011.txt"), None);
    assert_eq!(extract_release_date("x_2025120a.txt"), None);
    assert_eq!(extract_release_date("x_20251201_.txt"), None);
    assert_eq!(extract_release_date(""), None);
    assert_eq!(extract_release_date(".txt"), None);
}

fn with_floats(bytes: usize) -> String {
    const KB: usize = 1024;
    const MB: usize = KB * 1024;
    const GB: usize = MB * 1024;
    if bytes >= GB {
        format!("{:.2} GB", bytes as f64 / GB as f64)
    } else if bytes >= MB {
        format!("{:.2} MB", bytes as f64 / MB as f64)
    } else if bytes >= KB {
        format!("{:.2} KB", bytes as f64 / KB as f64)
    } else {
        format!("{} bytes", bytes)
    }
}

#[test]
fn test_format_bytes_rounds_as_floating_point_does() {
    assert_eq!(format_bytes(0), "0 bytes");
    assert_eq!(format_bytes(1023), "1023 bytes");
    assert_eq!(format_bytes(1152), "1.12 KB");
    assert_eq!(format_bytes(1029), "1.00 KB");
    assert_eq!(format_bytes(1030), "1.01 KB");
    assert_eq!(format_bytes(1024 * 1024 - 1), "1024.00 KB");
    let mut cases: Vec<usize> = (0..5000).collect();
    for shift in 10..64 {
        let base = 1usize << shift;
        for delta in [0usize, 1, 2, 3, 5, 127, 128, 129, 511, 512, 513, 1023] {
            cases.push(base.wrapping_add(delta));
            cases.push(base.wrapping_sub(delta));
            cases.push(base.wrapping_add(base / 8));
            cases.push(base.wrapping_add(base / 200).wrapping_add(delta));
            cases.push(base / 100 * 100 + delta);
        }
    }
    cases.push(usize::MAX);
    cases.push(usize::MAX - 1024);
    cases.push(usize::MAX / 3);
    let mut seed: u64 = 0x9e3779b97f4a7c15;
    for _ in 0..20000 {
        seed ^= seed << 13;
        seed ^= seed >> 7;
        seed ^= seed << 17;
        cases.push((seed >> (seed % 50)) as usize);
    }
    for bytes in cases {
        assert_eq!(format_bytes(bytes), with_floats(bytes), "for {}", bytes);
    }
}

#[test]
fn test_file_names_tell_the_record_family() {
    assert_eq!(
        terminology_file("sct2_Concept_Snapshot_INT_20251201.txt"),
        Some(TerminologyFile::Concept)
    );
    assert_eq!(
        terminology_file("sct2_Description_Snapshot-en_INT_20251201.txt"),
        Some(TerminologyFile::Description)
    );
    assert_eq!(
        terminology_file("sct2_Relationship_Snapshot_INT_20251201.txt"),
        Some(TerminologyFile::Relationship)
    );
    assert_eq!(
        terminology_file("sct2_StatedRelationship_Snapshot_INT_20251201.txt"),
        Some(TerminologyFile::StatedRelationship)
    );
    assert_eq!(
        terminology_file("sct2_TextDefinition_Snapshot-en_INT_20251201.txt"),
        Some(TerminologyFile::TextDefinition)
    );
    assert_eq!(
        terminology_file("sct2_RelationshipConcreteValues_Snapshot_INT_20251201.txt"),
        Some(TerminologyFile::ConcreteRelationship)
    );
    assert_eq!(
        terminology_file("sct2_sRefset_OWLExpressionSnapshot_INT_20251201.txt"),
        Some(TerminologyFile::OwlExpression)
    );
    assert_eq!(terminology_file("sct2_Concept_Snapshot_INT_20251201.csv"), None);
    assert_eq!(terminology_file("sct2_Concept_Full_INT_20251201.txt"), None);
    assert_eq!(terminology_file("readme.txt"), None);
    assert_eq!(
        mrcm_file("der2_cissccRefset_MRCMDomainSnapshot_INT_20251201.txt"),
        Some(MrcmFile::Domain)
    );
    assert_eq!(
        mrcm_file("der2_cissccRefset_MRCMAttributeDomainSnapshot_INT_20251201.txt"),
        Some(MrcmFile::AttributeDomain)
    );
    assert_eq!(
        mrcm_file("der2_ssccRefset_MRCMAttributeRangeSnapshot_INT_20251201.txt"),
        Some(MrcmFile::AttributeRange)
    );
    assert_eq!(mrcm_file("der2_cRefset_MRCMModuleScopeSnapshot_INT_20251201.txt"), None);
    assert_eq!(mrcm_file("der2_cRefset_MRCMDomainSnapshot_INT_20251201.tsv"), None);
    assert!(is_refset_file("der2_Refset_SimpleRefsetSnapshot_INT_20251201.txt", "SimpleRefset"));
    assert!(!is_refset_file("der2_Refset_SimpleRefsetFull_INT_20251201.txt", "SimpleRefset"));
    assert!(!is_refset_file("der2_Refset_SimpleRefsetSnapshot_INT_20251201.txt", "LanguageRefset"));
}

#[test]
fn test_noting_files_fills_the_file_set() {
    let mut files = Rf2Files::new();
    note_terminology_file(&mut files, "sct2_Concept_Snapshot_INT_20251201.txt", "c".to_string());
    note_terminology_file(&mut files, "sct2_Description_Snapshot-en_INT_20251201.txt", "d".to_string());
    note_terminology_file(&mut files, "sct2_sRefset_OWLExpressionSnapshot_INT_20251201.txt", "o".to_string());
    note_terminology_file(&mut files, "notes.txt", "n".to_string());
    note_mrcm_file(&mut files, "der2_cRefset_MRCMDomainSnapshot_INT_20251201.txt", "m".to_string());
    assert_eq!(files.concept_file, Some("c".to_string()));
    assert_eq!(files.release_date, Some("20251201".to_string()));
    assert_eq!(files.description_file, Some("d".to_string()));
    assert_eq!(files.owl_expression_files, vec!["o".to_string()]);
    assert_eq!(files.mrcm_domain, Some("m".to_string()));
    assert_eq!(files.relationship_file, None);
    assert_eq!(files.missing_files(), vec!["Relationship"]);
}
