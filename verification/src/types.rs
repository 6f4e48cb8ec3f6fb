//! Errors and configuration of the release file decoders.

use vstd::prelude::*;
use vstd::string::StringExecFns;
use crate::number::{decimal_digits, push_decimal};

use crate::enums::{CharacteristicType, DescriptionType};
use crate::well_known::IS_A;

verus! {

/// Errors of reading release files.
#[derive(Debug, Clone, PartialEq, Eq)]
#[allow(inconsistent_fields)]
pub enum Rf2Error {
    /// I/O error while reading a release file, with its message.
    Io(String),
    /// The tab-separated reader refused a row, with its message.
    Csv(String),
    /// A cell does not hold an identifier.
    InvalidSctId {
        /// The cell.
        value: String,
    },
    /// A required column is missing from a row.
    MissingColumn {
        /// The name of the column.
        column: String,
    },
    /// A cell does not hold a date of eight digits.
    InvalidDate {
        /// The cell.
        value: String,
    },
    /// A cell holds neither `0` nor `1`.
    InvalidBoolean {
        /// The cell.
        value: String,
    },
    /// A cell does not hold an integer.
    InvalidInteger {
        /// The cell.
        value: String,
    },
    /// A file does not exist.
    FileNotFound {
        /// The path that was looked for.
        path: String,
    },
    /// A directory does not exist.
    DirectoryNotFound {
        /// The path that was looked for.
        path: String,
    },
    /// A required file family is absent from a release directory.
    RequiredFileMissing {
        /// The families that are absent.
        file_type: String,
        /// The directory that was searched.
        directory: String,
    },
    /// The header row has fewer columns than the record family needs.
    InvalidHeader {
        /// Number of columns that the family needs.
        expected: usize,
        /// Number of columns found.
        found: usize,
    },
    /// A header cell does not hold the expected column name.
    UnexpectedColumn {
        /// Position of the column, from zero.
        position: usize,
        /// The name that the family needs there.
        expected: String,
        /// The name found there.
        found: String,
    },
    /// Any other decoding error, with its message.
    Parse(String),
}

/// Mathematical model of an [`Rf2Error`]: the same variants over character
/// sequences.
#[allow(inconsistent_fields)]
pub enum Rf2ErrorView {
    Io(Seq<char>),
    Csv(Seq<char>),
    InvalidSctId { value: Seq<char> },
    MissingColumn { column: Seq<char> },
    InvalidDate { value: Seq<char> },
    InvalidBoolean { value: Seq<char> },
    InvalidInteger { value: Seq<char> },
    FileNotFound { path: Seq<char> },
    DirectoryNotFound { path: Seq<char> },
    RequiredFileMissing { file_type: Seq<char>, directory: Seq<char> },
    InvalidHeader { expected: usize, found: usize },
    UnexpectedColumn { position: usize, expected: Seq<char>, found: Seq<char> },
    Parse(Seq<char>),
}

impl View for Rf2Error {
    type V = Rf2ErrorView;

    open spec fn view(&self) -> Rf2ErrorView {
        match self {
            Rf2Error::Io(m) => Rf2ErrorView::Io(m@),
            Rf2Error::Csv(m) => Rf2ErrorView::Csv(m@),
            Rf2Error::InvalidSctId { value } => Rf2ErrorView::InvalidSctId { value: value@ },
            Rf2Error::MissingColumn { column } => Rf2ErrorView::MissingColumn { column: column@ },
            Rf2Error::InvalidDate { value } => Rf2ErrorView::InvalidDate { value: value@ },
            Rf2Error::InvalidBoolean { value } => Rf2ErrorView::InvalidBoolean { value: value@ },
            Rf2Error::InvalidInteger { value } => Rf2ErrorView::InvalidInteger { value: value@ },
            Rf2Error::FileNotFound { path } => Rf2ErrorView::FileNotFound { path: path@ },
            Rf2Error::DirectoryNotFound { path } => Rf2ErrorView::DirectoryNotFound {
                path: path@,
            },
            Rf2Error::RequiredFileMissing { file_type, directory } => {
                Rf2ErrorView::RequiredFileMissing { file_type: file_type@, directory: directory@ }
            },
            Rf2Error::InvalidHeader { expected, found } => Rf2ErrorView::InvalidHeader {
                expected: *expected,
                found: *found,
            },
            Rf2Error::UnexpectedColumn { position, expected, found } => {
                Rf2ErrorView::UnexpectedColumn {
                    position: *position,
                    expected: expected@,
                    found: found@,
                }
            },
            Rf2Error::Parse(m) => Rf2ErrorView::Parse(m@),
        }
    }
}

impl Rf2ErrorView {
    /// The error in words.
    pub open spec fn message(self) -> Seq<char> {
        match self {
            Rf2ErrorView::Io(m) => "IO error reading RF2 file: "@ + m,
            Rf2ErrorView::Csv(m) => "CSV parsing error: "@ + m,
            Rf2ErrorView::InvalidSctId { value } => "Invalid SCTID format: "@ + value,
            Rf2ErrorView::MissingColumn { column } => "Missing required column: "@ + column,
            Rf2ErrorView::InvalidDate { value } => "Invalid date format: "@ + value,
            Rf2ErrorView::InvalidBoolean { value } => "Invalid boolean value: "@ + value
                + " (expected 0 or 1)"@,
            Rf2ErrorView::InvalidInteger { value } => "Invalid integer value: "@ + value,
            Rf2ErrorView::FileNotFound { path } => "File not found: "@ + path,
            Rf2ErrorView::DirectoryNotFound { path } => "Directory not found: "@ + path,
            Rf2ErrorView::RequiredFileMissing { file_type, directory } => {
                "Required RF2 file not found: "@ + file_type + " in "@ + directory
            },
            Rf2ErrorView::InvalidHeader { expected, found } => "Invalid header: expected "@
                + decimal_digits(expected as nat) + " columns, found "@ + decimal_digits(
                found as nat,
            ),
            Rf2ErrorView::UnexpectedColumn { position, expected, found } => {
                "Unexpected column '"@ + found + "' at position "@ + decimal_digits(
                    position as nat,
                ) + ", expected '"@ + expected + "'"@
            },
            Rf2ErrorView::Parse(m) => "Parse error: "@ + m,
        }
    }
}

impl Rf2Error {
    /// The error in words.
    pub fn message(&self) -> (r: String)
        ensures
            r@ == self@.message(),
    {
        let mut out = String::new();
        match self {
            Rf2Error::Io(m) => {
                out.append("IO error reading RF2 file: ");
                out.append(m.as_str());
            },
            Rf2Error::Csv(m) => {
                out.append("CSV parsing error: ");
                out.append(m.as_str());
            },
            Rf2Error::InvalidSctId { value } => {
                out.append("Invalid SCTID format: ");
                out.append(value.as_str());
            },
            Rf2Error::MissingColumn { column } => {
                out.append("Missing required column: ");
                out.append(column.as_str());
            },
            Rf2Error::InvalidDate { value } => {
                out.append("Invalid date format: ");
                out.append(value.as_str());
            },
            Rf2Error::InvalidBoolean { value } => {
                out.append("Invalid boolean value: ");
                out.append(value.as_str());
                out.append(" (expected 0 or 1)");
            },
            Rf2Error::InvalidInteger { value } => {
                out.append("Invalid integer value: ");
                out.append(value.as_str());
            },
            Rf2Error::FileNotFound { path } => {
                out.append("File not found: ");
                out.append(path.as_str());
            },
            Rf2Error::DirectoryNotFound { path } => {
                out.append("Directory not found: ");
                out.append(path.as_str());
            },
            Rf2Error::RequiredFileMissing { file_type, directory } => {
                out.append("Required RF2 file not found: ");
                out.append(file_type.as_str());
                out.append(" in ");
                out.append(directory.as_str());
            },
            Rf2Error::InvalidHeader { expected, found } => {
                out.append("Invalid header: expected ");
                push_decimal(&mut out, *expected as u64);
                out.append(" columns, found ");
                push_decimal(&mut out, *found as u64);
            },
            Rf2Error::UnexpectedColumn { position, expected, found } => {
                out.append("Unexpected column '");
                out.append(found.as_str());
                out.append("' at position ");
                push_decimal(&mut out, *position as u64);
                out.append(", expected '");
                out.append(expected.as_str());
                out.append("'");
            },
            Rf2Error::Parse(m) => {
                out.append("Parse error: ");
                out.append(m.as_str());
            },
        }
        assert(out@ =~= self@.message());
        out
    }
}

/// Result of an operation on release files.
pub type Rf2Result<T> = Result<T, Rf2Error>;

/// The model of a result whose value is its own model.
pub open spec fn plain<T>(r: Rf2Result<T>) -> Result<T, Rf2ErrorView> {
    match r {
        Ok(v) => Ok(v),
        Err(e) => Err(e@),
    }
}

/// The model of a result, value and error each by its view.
pub open spec fn viewed<T: View>(r: Rf2Result<T>) -> Result<T::V, Rf2ErrorView> {
    match r {
        Ok(v) => Ok(v@),
        Err(e) => Err(e@),
    }
}

/// Configuration of a row parser.
#[derive(Debug, Clone)]
pub struct Rf2Config {
    /// Whether only active records are kept.
    pub active_only: bool,
    /// Number of records handed over at a time in batched mode.
    pub batch_size: usize,
}

impl Default for Rf2Config {
    /// Active records only, in batches of ten thousand.
    fn default() -> (r: Self)
        ensures
            r.active_only,
            r.batch_size == 10_000,
    {
        Rf2Config { active_only: true, batch_size: 10_000 }
    }
}

/// Whether `v` holds `x`.
pub fn has_id(v: &Vec<u64>, x: u64) -> (r: bool)
    ensures
        r == v@.contains(x),
{
    let mut i: usize = 0;
    while i < v.len()
        invariant
            i <= v.len(),
            forall|k: int| 0 <= k < i ==> v@[k] != x,
        decreases v.len() - i,
    {
        if v[i] == x {
            return true;
        }
        i = i + 1;
    }
    false
}

/// Whether one of the texts in `v` equals `x`.
pub open spec fn holds_text(v: Seq<String>, x: Seq<char>) -> bool {
    exists|i: int| 0 <= i < v.len() && (#[trigger] v[i])@ == x
}

/// Whether one of the texts in `v` equals `x`.
pub fn has_text_in(v: &Vec<String>, x: &String) -> (r: bool)
    ensures
        r == holds_text(v@, x@),
{
    let mut i: usize = 0;
    while i < v.len()
        invariant
            i <= v.len(),
            forall|k: int| 0 <= k < i ==> (#[trigger] v@[k])@ != x@,
        decreases v.len() - i,
    {
        if v[i] == *x {
            return true;
        }
        i = i + 1;
    }
    false
}

/// Configuration of description loading.
#[derive(Debug, Clone)]
pub struct DescriptionConfig {
    /// Base configuration.
    pub base: Rf2Config,
    /// Language codes to keep; empty keeps every language.
    pub language_codes: Vec<String>,
    /// Description type identifiers to keep; empty keeps every type.
    pub type_ids: Vec<u64>,
}

impl Default for DescriptionConfig {
    /// Active English descriptions of every type.
    fn default() -> (r: Self)
        ensures
            r.base.active_only,
            r.base.batch_size == 10_000,
            r.language_codes@.len() == 1,
            r.language_codes@[0]@ == "en"@,
            r.type_ids@.len() == 0,
    {
        DescriptionConfig {
            base: Rf2Config::default(),
            language_codes: vec!["en".to_owned()],
            type_ids: Vec::new(),
        }
    }
}

impl DescriptionConfig {
    /// Active English fully specified names and synonyms.
    pub fn english_terms() -> (r: Self)
        ensures
            r.base.active_only,
            r.base.batch_size == 10_000,
            r.language_codes@.len() == 1,
            r.language_codes@[0]@ == "en"@,
            r.type_ids@ == seq![DescriptionType::FSN_ID, DescriptionType::SYNONYM_ID],
    {
        DescriptionConfig {
            base: Rf2Config::default(),
            language_codes: vec!["en".to_owned()],
            type_ids: vec![DescriptionType::FSN_ID, DescriptionType::SYNONYM_ID],
        }
    }

    /// Active English fully specified names.
    pub fn fsn_only() -> (r: Self)
        ensures
            r.base.active_only,
            r.base.batch_size == 10_000,
            r.language_codes@.len() == 1,
            r.language_codes@[0]@ == "en"@,
            r.type_ids@ == seq![DescriptionType::FSN_ID],
    {
        DescriptionConfig {
            base: Rf2Config::default(),
            language_codes: vec!["en".to_owned()],
            type_ids: vec![DescriptionType::FSN_ID],
        }
    }
}

/// Configuration of relationship loading.
#[derive(Debug, Clone)]
pub struct RelationshipConfig {
    /// Base configuration.
    pub base: Rf2Config,
    /// Relationship type identifiers to keep; empty keeps every type.
    pub type_ids: Vec<u64>,
    /// Characteristic type identifiers to keep; empty keeps every one.
    pub characteristic_type_ids: Vec<u64>,
}

impl Default for RelationshipConfig {
    /// Active relationships of every type and characteristic type.
    fn default() -> (r: Self)
        ensures
            r.base.active_only,
            r.base.batch_size == 10_000,
            r.type_ids@.len() == 0,
            r.characteristic_type_ids@.len() == 0,
    {
        RelationshipConfig {
            base: Rf2Config::default(),
            type_ids: Vec::new(),
            characteristic_type_ids: Vec::new(),
        }
    }
}

impl RelationshipConfig {
    /// Active inferred relationships of every type.
    pub fn inferred_only() -> (r: Self)
        ensures
            r.base.active_only,
            r.base.batch_size == 10_000,
            r.type_ids@.len() == 0,
            r.characteristic_type_ids@ == seq![CharacteristicType::INFERRED_ID],
    {
        RelationshipConfig {
            base: Rf2Config::default(),
            type_ids: Vec::new(),
            characteristic_type_ids: vec![CharacteristicType::INFERRED_ID],
        }
    }

    /// Active IS-A relationships of every characteristic type.
    pub fn is_a_only() -> (r: Self)
        ensures
            r.base.active_only,
            r.base.batch_size == 10_000,
            r.type_ids@ == seq![IS_A],
            r.characteristic_type_ids@.len() == 0,
    {
        RelationshipConfig {
            base: Rf2Config::default(),
            type_ids: vec![IS_A],
            characteristic_type_ids: Vec::new(),
        }
    }
}

/// Counters of one parsing run.
#[derive(Debug, Clone, Default)]
pub struct ParseStats {
    /// Records read from the file.
    pub total_records: usize,
    /// Records that passed the filters.
    pub filtered_records: usize,
    /// Records skipped by the filters.
    pub skipped_records: usize,
    /// Rows that failed to decode.
    pub error_count: usize,
    /// Time taken, in milliseconds.
    pub parse_time_ms: u64,
}

/// The files of a release, by record family; each path as text.
#[derive(Debug, Clone, Default)]
pub struct Rf2Files {
    /// Concept file.
    pub concept_file: Option<String>,
    /// Description file.
    pub description_file: Option<String>,
    /// Inferred relationship file.
    pub relationship_file: Option<String>,
    /// Stated relationship file, where it is separate.
    pub stated_relationship_file: Option<String>,
    /// Text definition file.
    pub text_definition_file: Option<String>,
    /// MRCM domain reference set file.
    pub mrcm_domain: Option<String>,
    /// MRCM attribute domain reference set file.
    pub mrcm_attribute_domain: Option<String>,
    /// MRCM attribute range reference set file.
    pub mrcm_attribute_range: Option<String>,
    /// Simple reference set files.
    pub simple_refset_files: Vec<String>,
    /// Language reference set files.
    pub language_refset_files: Vec<String>,
    /// Association reference set files.
    pub association_refset_files: Vec<String>,
    /// OWL expression reference set files.
    pub owl_expression_files: Vec<String>,
    /// Concrete relationship file.
    pub concrete_relationship_file: Option<String>,
    /// Release date taken from a file name, as eight digits.
    pub release_date: Option<String>,
}

impl Rf2Files {
    /// The names of the required families that `self` lacks, in the order
    /// concept, description, relationship.
    pub open spec fn spec_missing(&self) -> Seq<Seq<char>> {
        (if self.concept_file is None {
            seq!["Concept"@]
        } else {
            Seq::empty()
        }) + (if self.description_file is None {
            seq!["Description"@]
        } else {
            Seq::empty()
        }) + (if self.relationship_file is None {
            seq!["Relationship"@]
        } else {
            Seq::empty()
        })
    }

    /// A file set with no file in it.
    pub fn new() -> (r: Self)
        ensures
            r.concept_file is None,
            r.description_file is None,
            r.relationship_file is None,
            r.stated_relationship_file is None,
            r.text_definition_file is None,
            r.mrcm_domain is None,
            r.mrcm_attribute_domain is None,
            r.mrcm_attribute_range is None,
            r.simple_refset_files@.len() == 0,
            r.language_refset_files@.len() == 0,
            r.association_refset_files@.len() == 0,
            r.owl_expression_files@.len() == 0,
            r.concrete_relationship_file is None,
            r.release_date is None,
    {
        Rf2Files {
            concept_file: None,
            description_file: None,
            relationship_file: None,
            stated_relationship_file: None,
            text_definition_file: None,
            mrcm_domain: None,
            mrcm_attribute_domain: None,
            mrcm_attribute_range: None,
            simple_refset_files: Vec::new(),
            language_refset_files: Vec::new(),
            association_refset_files: Vec::new(),
            owl_expression_files: Vec::new(),
            concrete_relationship_file: None,
            release_date: None,
        }
    }

    /// Whether the concept, description and relationship files are all there.
    pub fn has_required_files(&self) -> (r: bool)
        ensures
            r == (self.concept_file is Some && self.description_file is Some
                && self.relationship_file is Some),
            r == (self.spec_missing().len() == 0),
    {
        self.concept_file.is_some() && self.description_file.is_some()
            && self.relationship_file.is_some()
    }

    /// The required families that are absent.
    pub fn missing_files(&self) -> (r: Vec<&'static str>)
        ensures
            r@.len() == self.spec_missing().len(),
            forall|i: int| 0 <= i < r@.len() ==> (#[trigger] r@[i])@ == self.spec_missing()[i],
    {
        let mut missing: Vec<&'static str> = Vec::new();
        if self.concept_file.is_none() {
            missing.push("Concept");
        }
        if self.description_file.is_none() {
            missing.push("Description");
        }
        if self.relationship_file.is_none() {
            missing.push("Relationship");
        }
        missing
    }
}

} // verus!
