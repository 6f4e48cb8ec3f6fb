//! Rows of release files as typed records: the columns of each record
//! family, the decoder from the cells of a row, and the filter on activity.

use vstd::prelude::*;
use crate::types::{viewed, Rf2Config, Rf2ErrorView, Rf2Result};
use crate::types::Rf2Error;
use crate::text::cells_of;

verus! {

/// The cell at position `i`; the empty text where the row is shorter.
pub open spec fn cell(cells: Seq<Seq<char>>, i: int) -> Seq<char> {
    if 0 <= i < cells.len() {
        cells[i]
    } else {
        Seq::empty()
    }
}

/// The cell at position `i`; the empty text where the row is shorter.
pub fn cell_at(row: &Vec<String>, i: usize) -> (r: &str)
    ensures
        r@ == cell(cells_of(row@), i as int),
{
    if i < row.len() {
        row[i].as_str()
    } else {
        proof {
            reveal_strlit("");
        }
        let r = "";
        assert(r@ =~= Seq::<char>::empty());
        r
    }
}

/// Whether a record passes the base filter: with `active_only`, only active
/// records do.
pub open spec fn kept(active: bool, active_only: bool) -> bool {
    !active_only || active
}

/// A record family of the release format.
pub trait Rf2Record: Sized + View {
    /// The column names of the family, in file order.
    spec fn spec_columns() -> Seq<Seq<char>>;

    /// The record that the cells of a row denote, or the error of the first
    /// cell that does not decode.
    spec fn decode(cells: Seq<Seq<char>>) -> Result<Self::V, Rf2ErrorView>;

    /// Whether a record of this family is active.
    spec fn is_active(v: Self::V) -> bool;

    /// The cells that a record is written as, in file order.
    spec fn encode(v: Self::V) -> Seq<Seq<char>>;

    /// Whether a record can be written so that it reads back as itself.
    spec fn writable(v: Self::V) -> bool;

    /// Whether the cells of a row are in their canonical writing: as many
    /// as the family has columns, and each number without a sign and without
    /// leading zeros.
    spec fn canonical(cells: Seq<Seq<char>>) -> bool;

    /// The column names of the family, in file order.
    fn expected_columns() -> (r: Vec<&'static str>)
        ensures
            r@.len() == Self::spec_columns().len(),
            forall|i: int| 0 <= i < r@.len() ==> (#[trigger] r@[i])@ == Self::spec_columns()[i],
    ;

    /// Decodes the cells of one row.
    fn from_record(record: &Vec<String>) -> (r: Rf2Result<Self>)
        ensures
            viewed(r) == Self::decode(cells_of(record@)),
    ;

    /// Whether the record passes the filter of a configuration.
    fn passes_filter(&self, config: &Rf2Config) -> (r: bool)
        ensures
            r == kept(Self::is_active(self@), config.active_only),
    ;

    /// The cells of the row that the record is written as.
    fn to_record(&self) -> (r: Vec<String>)
        ensures
            cells_of(r@) == Self::encode(self@),
    ;

    /// Writing a record and decoding the row gives the record back.
    proof fn lemma_decode_encode(v: Self::V)
        requires
            Self::writable(v),
        ensures
            Self::decode(Self::encode(v)) == Ok::<Self::V, Rf2ErrorView>(v),
    ;

    /// Decoding a row in canonical writing and writing the record gives the
    /// row back.
    proof fn lemma_encode_decode(cells: Seq<Seq<char>>)
        requires
            Self::canonical(cells),
            Self::decode(cells) is Ok,
        ensures
            Self::encode(Self::decode(cells)->Ok_0) == cells,
    ;
}

/// The cell at position `i`, or the error that the column `name` is missing
/// where the row is shorter.
pub open spec fn required(cells: Seq<Seq<char>>, i: int, name: Seq<char>) -> Result<
    Seq<char>,
    Rf2ErrorView,
> {
    if 0 <= i < cells.len() {
        Ok(cells[i])
    } else {
        Err(Rf2ErrorView::MissingColumn { column: name })
    }
}

/// The cell at position `i`, or the error that the column `name` is missing
/// where the row is shorter.
pub fn required_cell<'a>(row: &'a Vec<String>, i: usize, name: &str) -> (r: Rf2Result<&'a str>)
    ensures
        match r {
            Ok(s) => required(cells_of(row@), i as int, name@) == Ok::<Seq<char>, Rf2ErrorView>(
                s@,
            ),
            Err(e) => required(cells_of(row@), i as int, name@) == Err::<Seq<char>, Rf2ErrorView>(
                e@,
            ),
        },
{
    if i < row.len() {
        Ok(row[i].as_str())
    } else {
        Err(Rf2Error::MissingColumn { column: name.to_owned() })
    }
}

/// The models of a run of records.
pub open spec fn views_of<T: View>(records: Seq<T>) -> Seq<T::V> {
    Seq::new(records.len(), |i: int| records[i]@)
}

} // verus!
