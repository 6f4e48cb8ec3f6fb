//! What a release directory holds, told from file names: the record family
//! of each file and the release date; and the size of a file in words.

use vstd::prelude::*;
use vstd::string::StringExecFns;
use crate::types::Rf2Files;
use crate::text::{
    begins_with, chars_of, contains_text, digit, ends_with, ends_with_text, finishes_with,
    has_text, last_index_of, rfind_char, slice_of,
};
use crate::number::{all_digits, decimal_digits, digit_char, push_decimal};

verus! {

/// The extension of release files.
pub open spec fn txt() -> Seq<char> {
    seq!['.', 't', 'x', 't']
}

/// A file name without the extensions `.txt` at its end, however many.
pub open spec fn without_txt(name: Seq<char>) -> Seq<char>
    decreases name.len(),
{
    if ends_with_text(name, txt()) {
        without_txt(name.take(name.len() - 4))
    } else {
        name
    }
}

/// The part of a name behind its last underscore; the whole name where it
/// has none.
pub open spec fn last_part(name: Seq<char>) -> Seq<char> {
    name.skip(last_index_of(name, '_', name.len() as int) + 1)
}

/// The release date that a file name carries: the part behind the last
/// underscore, the extension left out, where that part is eight digits.
pub open spec fn spec_release_date(name: Seq<char>) -> Option<Seq<char>> {
    let last = last_part(without_txt(name));
    if last.len() == 8 && all_digits(last) {
        Some(last)
    } else {
        None
    }
}

/// The release date that a file name such as
/// `sct2_Concept_Snapshot_INT_20251201.txt` carries, as eight digits.
pub fn extract_release_date(filename: &str) -> (r: Option<String>)
    ensures
        match r {
            Some(date) => spec_release_date(filename@) == Some(date@),
            None => spec_release_date(filename@) is None,
        },
{
    let mut stem = chars_of(filename);
    let ext: Vec<char> = vec!['.', 't', 'x', 't'];
    assert(ext@ =~= txt());
    assert(filename@.take(stem.len() as int) =~= filename@);
    loop
        invariant_except_break
            without_txt(filename@) == without_txt(stem@),
        invariant
            ext@ == txt(),
            stem.len() <= filename@.len(),
            stem@ == filename@.take(stem.len() as int),
        ensures
            without_txt(filename@) == stem@,
        decreases stem.len(),
    {
        if !ends_with(&stem, &ext) {
            break;
        }
        let shorter = stem.len() - 4;
        stem.truncate(shorter);
        assert(stem@ =~= filename@.take(shorter as int));
    }
    let end = stem.len();
    let start: usize = match rfind_char(&stem, '_', end) {
        Some(i) => i + 1,
        None => 0,
    };
    assert(stem@.skip(start as int) =~= filename@.subrange(start as int, end as int));
    if end - start != 8 {
        return None;
    }
    let mut i: usize = start;
    while i < end
        invariant
            start <= i <= end,
            end == stem.len(),
            end - start == 8,
            without_txt(filename@) == stem@,
            start == last_index_of(stem@, '_', end as int) + 1,
            forall|k: int| start <= k < i ==> crate::text::is_digit(#[trigger] stem@[k]),
        decreases end - i,
    {
        if !digit(stem[i]) {
            assert(!crate::text::is_digit(stem@.skip(start as int)[i - start]));
            return None;
        }
        i = i + 1;
    }
    assert(all_digits(stem@.skip(start as int))) by {
        assert forall|k: int| 0 <= k < end - start implies crate::text::is_digit(
            #[trigger] stem@.skip(start as int)[k],
        ) by {
            assert(stem@.skip(start as int)[k] == stem@[start + k]);
        }
    }
    Some(slice_of(filename, start, end))
}

/// The record family of a file of a terminology directory.
#[derive(Debug, Clone, Copy, PartialEq, Eq, Structural)]
pub enum TerminologyFile {
    /// Concepts.
    Concept,
    /// Descriptions.
    Description,
    /// Inferred relationships.
    Relationship,
    /// Stated relationships.
    StatedRelationship,
    /// Text definitions.
    TextDefinition,
    /// Concrete relationships.
    ConcreteRelationship,
    /// OWL expressions.
    OwlExpression,
}

/// The record family that the name of a file of a terminology directory
/// tells: the name ends in `.txt` and begins with the prefix of the family;
/// an OWL expression file holds `sRefset_OWL` and `Snapshot` anywhere.
pub open spec fn spec_terminology_file(name: Seq<char>) -> Option<TerminologyFile> {
    if !ends_with_text(name, txt()) {
        None
    } else if "sct2_Concept_Snapshot"@.is_prefix_of(name) {
        Some(TerminologyFile::Concept)
    } else if "sct2_Description_Snapshot"@.is_prefix_of(name) {
        Some(TerminologyFile::Description)
    } else if "sct2_Relationship_Snapshot"@.is_prefix_of(name) {
        Some(TerminologyFile::Relationship)
    } else if "sct2_StatedRelationship_Snapshot"@.is_prefix_of(name) {
        Some(TerminologyFile::StatedRelationship)
    } else if "sct2_TextDefinition_Snapshot"@.is_prefix_of(name) {
        Some(TerminologyFile::TextDefinition)
    } else if "sct2_RelationshipConcreteValues_Snapshot"@.is_prefix_of(name) {
        Some(TerminologyFile::ConcreteRelationship)
    } else if contains_text(name, "sRefset_OWL"@) && contains_text(name, "Snapshot"@) {
        Some(TerminologyFile::OwlExpression)
    } else {
        None
    }
}

/// The record family of a file of a terminology directory, from its name.
pub fn terminology_file(name: &str) -> (r: Option<TerminologyFile>)
    ensures
        r == spec_terminology_file(name@),
{
    proof {
        reveal_strlit(".txt");
    }
    assert(".txt"@ =~= txt());
    if !finishes_with(name, ".txt") {
        None
    } else if begins_with(name, "sct2_Concept_Snapshot") {
        Some(TerminologyFile::Concept)
    } else if begins_with(name, "sct2_Description_Snapshot") {
        Some(TerminologyFile::Description)
    } else if begins_with(name, "sct2_Relationship_Snapshot") {
        Some(TerminologyFile::Relationship)
    } else if begins_with(name, "sct2_StatedRelationship_Snapshot") {
        Some(TerminologyFile::StatedRelationship)
    } else if begins_with(name, "sct2_TextDefinition_Snapshot") {
        Some(TerminologyFile::TextDefinition)
    } else if begins_with(name, "sct2_RelationshipConcreteValues_Snapshot") {
        Some(TerminologyFile::ConcreteRelationship)
    } else if has_text(name, "sRefset_OWL") && has_text(name, "Snapshot") {
        Some(TerminologyFile::OwlExpression)
    } else {
        None
    }
}

/// The record family of an MRCM file.
#[derive(Debug, Clone, Copy, PartialEq, Eq, Structural)]
pub enum MrcmFile {
    /// Domains.
    Domain,
    /// Attribute domains.
    AttributeDomain,
    /// Attribute ranges.
    AttributeRange,
}

/// The record family that the name of a file of a metadata directory tells:
/// the name ends in `.txt` and holds the name of the family; a module scope
/// file is no domain file.
pub open spec fn spec_mrcm_file(name: Seq<char>) -> Option<MrcmFile> {
    if !ends_with_text(name, txt()) {
        None
    } else if contains_text(name, "MRCMDomainSnapshot"@) && !contains_text(name, "ModuleScope"@) {
        Some(MrcmFile::Domain)
    } else if contains_text(name, "MRCMAttributeDomainSnapshot"@) {
        Some(MrcmFile::AttributeDomain)
    } else if contains_text(name, "MRCMAttributeRangeSnapshot"@) {
        Some(MrcmFile::AttributeRange)
    } else {
        None
    }
}

/// The record family of a file of a metadata directory, from its name.
pub fn mrcm_file(name: &str) -> (r: Option<MrcmFile>)
    ensures
        r == spec_mrcm_file(name@),
{
    proof {
        reveal_strlit(".txt");
    }
    assert(".txt"@ =~= txt());
    if !finishes_with(name, ".txt") {
        None
    } else if has_text(name, "MRCMDomainSnapshot") && !has_text(name, "ModuleScope") {
        Some(MrcmFile::Domain)
    } else if has_text(name, "MRCMAttributeDomainSnapshot") {
        Some(MrcmFile::AttributeDomain)
    } else if has_text(name, "MRCMAttributeRangeSnapshot") {
        Some(MrcmFile::AttributeRange)
    } else {
        None
    }
}

/// Whether a file name is that of a snapshot file of a kind of reference
/// set: it ends in `.txt` and holds the name of the kind and `Snapshot`.
pub fn is_refset_file(name: &str, kind: &str) -> (r: bool)
    ensures
        r == (ends_with_text(name@, txt()) && contains_text(name@, kind@) && contains_text(
            name@,
            "Snapshot"@,
        )),
{
    proof {
        reveal_strlit(".txt");
    }
    assert(".txt"@ =~= txt());
    finishes_with(name, ".txt") && has_text(name, kind) && has_text(name, "Snapshot")
}

/// Notes a file of a terminology directory in a file set: the path under
/// the family that the name tells, and with a concept file the release date
/// that its name carries. A file of no family changes nothing.
pub fn note_terminology_file(files: &mut Rf2Files, name: &str, path: String)
    ensures
        match spec_terminology_file(name@) {
            None => *final(files) == *old(files),
            Some(TerminologyFile::Concept) => {
                &&& final(files).concept_file == Some(path)
                &&& match spec_release_date(name@) {
                    Some(date) => final(files).release_date is Some && final(files).release_date->0@
                        == date,
                    None => final(files).release_date == old(files).release_date,
                }
                &&& *final(files) == (Rf2Files {
                    concept_file: final(files).concept_file,
                    release_date: final(files).release_date,
                    ..*old(files)
                })
            },
            Some(TerminologyFile::Description) => *final(files) == (Rf2Files {
                description_file: Some(path),
                ..*old(files)
            }),
            Some(TerminologyFile::Relationship) => *final(files) == (Rf2Files {
                relationship_file: Some(path),
                ..*old(files)
            }),
            Some(TerminologyFile::StatedRelationship) => *final(files) == (Rf2Files {
                stated_relationship_file: Some(path),
                ..*old(files)
            }),
            Some(TerminologyFile::TextDefinition) => *final(files) == (Rf2Files {
                text_definition_file: Some(path),
                ..*old(files)
            }),
            Some(TerminologyFile::ConcreteRelationship) => *final(files) == (Rf2Files {
                concrete_relationship_file: Some(path),
                ..*old(files)
            }),
            Some(TerminologyFile::OwlExpression) => {
                &&& final(files).owl_expression_files@ == old(files).owl_expression_files@.push(
                    path,
                )
                &&& *final(files) == (Rf2Files {
                    owl_expression_files: final(files).owl_expression_files,
                    ..*old(files)
                })
            },
        },
{
    match terminology_file(name) {
        None => {},
        Some(TerminologyFile::Concept) => {
            files.concept_file = Some(path);
            match extract_release_date(name) {
                Some(date) => {
                    files.release_date = Some(date);
                },
                None => {},
            }
        },
        Some(TerminologyFile::Description) => {
            files.description_file = Some(path);
        },
        Some(TerminologyFile::Relationship) => {
            files.relationship_file = Some(path);
        },
        Some(TerminologyFile::StatedRelationship) => {
            files.stated_relationship_file = Some(path);
        },
        Some(TerminologyFile::TextDefinition) => {
            files.text_definition_file = Some(path);
        },
        Some(TerminologyFile::ConcreteRelationship) => {
            files.concrete_relationship_file = Some(path);
        },
        Some(TerminologyFile::OwlExpression) => {
            files.owl_expression_files.push(path);
        },
    }
}

/// Notes a file of a metadata directory in a file set, under the MRCM
/// family that its name tells.
pub fn note_mrcm_file(files: &mut Rf2Files, name: &str, path: String)
    ensures
        match spec_mrcm_file(name@) {
            None => *final(files) == *old(files),
            Some(MrcmFile::Domain) => *final(files) == (Rf2Files {
                mrcm_domain: Some(path),
                ..*old(files)
            }),
            Some(MrcmFile::AttributeDomain) => *final(files) == (Rf2Files {
                mrcm_attribute_domain: Some(path),
                ..*old(files)
            }),
            Some(MrcmFile::AttributeRange) => *final(files) == (Rf2Files {
                mrcm_attribute_range: Some(path),
                ..*old(files)
            }),
        },
{
    match mrcm_file(name) {
        None => {},
        Some(MrcmFile::Domain) => {
            files.mrcm_domain = Some(path);
        },
        Some(MrcmFile::AttributeDomain) => {
            files.mrcm_attribute_domain = Some(path);
        },
        Some(MrcmFile::AttributeRange) => {
            files.mrcm_attribute_range = Some(path);
        },
    }
}

/// The number of bytes in a kilobyte.
pub const KB: u128 = 1024;

/// The number of bytes in a megabyte.
pub const MB: u128 = 1024 * 1024;

/// The number of bytes in a gigabyte.
pub const GB: u128 = 1024 * 1024 * 1024;

/// The largest whole number below which every whole number is a double
/// precision number: two to the power 53.
pub const EXACT: u128 = 0x20_0000_0000_0000;

/// The quotient of `n` by `d`, rounded to the nearest whole number; a
/// quotient half way between two goes to the even one.
pub open spec fn half_even(n: nat, d: nat) -> nat {
    let q = n / d;
    let r = n % d;
    if 2 * r > d || (2 * r == d && q % 2 == 1) {
        q + 1
    } else {
        q
    }
}

/// The power of two by which a whole number is cut down to 53 significant
/// bits.
pub open spec fn double_scale(n: nat) -> nat
    decreases n,
{
    if n < EXACT {
        1
    } else {
        2 * double_scale(n / 2)
    }
}

/// The double precision number nearest to a whole number: the number
/// rounded to 53 significant bits, half way cases to the even side.
pub open spec fn as_double(n: nat) -> nat {
    half_even(n, double_scale(n)) * double_scale(n)
}

/// The hundredths of a number of bytes in a unit: a hundred times the bytes
/// as a double precision number, by the unit, rounded half to even.
pub open spec fn hundredths(bytes: nat, unit: nat) -> nat {
    half_even(as_double(bytes) * 100, unit)
}

/// A number of hundredths as a decimal with two places.
pub open spec fn two_places(h: nat) -> Seq<char> {
    decimal_digits(h / 100) + seq!['.', digit_char(h / 10 % 10), digit_char(h % 10)]
}

/// The size of a file in words: in gigabytes, megabytes or kilobytes with
/// two decimal places, by the largest unit that the size reaches; in bytes
/// below a kilobyte.
pub open spec fn spec_format_bytes(bytes: nat) -> Seq<char> {
    if bytes >= GB {
        two_places(hundredths(bytes, GB as nat)) + " GB"@
    } else if bytes >= MB {
        two_places(hundredths(bytes, MB as nat)) + " MB"@
    } else if bytes >= KB {
        two_places(hundredths(bytes, KB as nat)) + " KB"@
    } else {
        decimal_digits(bytes) + " bytes"@
    }
}

/// The quotient of `n` by `d`, rounded half to even.
fn round_half_even(n: u128, d: u128) -> (r: u128)
    requires
        d > 0,
        n < 0x1_0000_0000_0000_0000_0000,
        d < 0x1_0000_0000_0000_0000_0000,
    ensures
        r == half_even(n as nat, d as nat),
        r <= n,
        r * d <= n + d,
{
    let q = n / d;
    let rest = n % d;
    assert(q <= n && q * d <= n && (q + 1) * d <= n + d) by (nonlinear_arith)
        requires
            q == n / d,
            d > 0,
    ;
    if 2 * rest > d || (2 * rest == d && q % 2 == 1) {
        assert(q < n) by (nonlinear_arith)
            requires
                q == n / d,
                rest == n % d,
                d > 0,
                rest > 0,
        ;
        q + 1
    } else {
        q
    }
}

/// The double precision number nearest to a number of bytes.
fn nearest_double(bytes: u128) -> (r: u128)
    requires
        bytes < 0x1_0000_0000_0000_0000,
    ensures
        r == as_double(bytes as nat),
        r <= 0x2_0000_0000_0000_0000,
{
    let mut top = bytes;
    let mut scale: u128 = 1;
    while top >= EXACT
        invariant
            top <= bytes,
            bytes < 0x1_0000_0000_0000_0000,
            1 <= scale <= 4096,
            top * scale <= bytes,
            double_scale(bytes as nat) == scale * double_scale(top as nat),
        decreases top,
    {
        let ghost before = top;
        let ghost held = scale;
        top = top / 2;
        assert(top * (held * 2) <= before * held) by (nonlinear_arith)
            requires
                top == before / 2,
        ;
        assert(held * 2 <= 4096) by (nonlinear_arith)
            requires
                before >= 0x20_0000_0000_0000,
                before * held <= bytes,
                bytes < 0x1_0000_0000_0000_0000,
                held >= 1,
        ;
        scale = scale * 2;
        assert(held * (2 * double_scale(top as nat)) == (held * 2) * double_scale(top as nat))
            by (nonlinear_arith);
    }
    assert(double_scale(top as nat) == 1);
    assert(scale * 1 == scale);
    let rounded = round_half_even(bytes, scale);
    rounded * scale
}

/// Appends a number of hundredths as a decimal with two places.
fn push_two_places(out: &mut String, h: u128)
    requires
        h <= 0xffff_ffff_ffff_ffff,
    ensures
        final(out)@ == old(out)@ + two_places(h as nat),
{
    proof {
        reveal_strlit(".");
    }
    push_decimal(out, (h / 100) as u64);
    out.append(".");
    let ghost middle = out@;
    push_decimal(out, (h / 10 % 10) as u64);
    push_decimal(out, (h % 10) as u64);
    assert(final(out)@ =~= old(out)@ + two_places(h as nat)) by {
        assert(decimal_digits((h / 10 % 10) as nat) =~= seq![digit_char((h / 10 % 10) as nat)]);
        assert(decimal_digits((h % 10) as nat) =~= seq![digit_char((h % 10) as nat)]);
    }
}

/// The size of a file in words, such as `1.50 KB`.
pub fn format_bytes(bytes: usize) -> (r: String)
    ensures
        r@ == spec_format_bytes(bytes as nat),
{
    let b = bytes as u128;
    let mut out = String::new();
    if b >= KB {
        let unit: u128 = if b >= GB {
            GB
        } else if b >= MB {
            MB
        } else {
            KB
        };
        let exact = nearest_double(b);
        let h = round_half_even(exact * 100, unit);
        assert(h <= 0xffff_ffff_ffff_ffff) by (nonlinear_arith)
            requires
                h * unit <= exact * 100 + unit,
                exact <= 0x2_0000_0000_0000_0000,
                unit >= 1024,
        ;
        push_two_places(&mut out, h);
        if b >= GB {
            out.append(" GB");
        } else if b >= MB {
            out.append(" MB");
        } else {
            out.append(" KB");
        }
    } else {
        push_decimal(&mut out, bytes as u64);
        out.append(" bytes");
    }
    assert(out@ =~= spec_format_bytes(bytes as nat));
    out
}

} // verus!
