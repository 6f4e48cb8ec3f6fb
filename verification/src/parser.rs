//! Streaming parser of tab-separated release files: it checks the header
//! row against the columns of a record family, then hands out the records of
//! the family one by one, passing over blank rows and over records that the
//! configuration filters out.

use vstd::prelude::*;
use std::marker::PhantomData;
use crate::types::{viewed, Rf2Config, Rf2Error, Rf2ErrorView, Rf2Result};
use crate::text::{blank, cells_of, chars_of, is_blank, same_chars, slice_of};
use crate::record::{kept, Rf2Record};
use crate::record::views_of;

verus! {

/// `csv::Reader`, the reader of tab-separated rows. Its values are opaque:
/// the contracts speak of one only through the rows that it has still to
/// hand out.
#[verifier::external_type_specification]
#[verifier::external_body]
#[verifier::reject_recursive_types(R)]
pub struct ExCsvReader<R>(csv::Reader<R>);

/// One row as the tab-separated reader hands it out: its cells, or the
/// message of the error that the reader raised for it.
pub type Row = Result<Seq<Seq<char>>, Seq<char>>;

/// The header row that the tab-separated reader finds in the bytes of a
/// file: the first row of the file, or the reader's error for it.
pub uninterp spec fn csv_header(data: Seq<u8>) -> Result<Seq<Seq<char>>, Seq<char>>;

/// The rows that the tab-separated reader finds after the header row in the
/// bytes of a file, in file order.
pub uninterp spec fn csv_rows(data: Seq<u8>) -> Seq<Result<Seq<Seq<char>>, Seq<char>>>;

/// The rows that a reader has still to hand out.
pub uninterp spec fn csv_pending(reader: csv::Reader<&[u8]>) -> Seq<
    Result<Seq<Seq<char>>, Seq<char>>,
>;

/// Whether a row handed out by a wrapper is the row of the model.
pub open spec fn row_is(got: Result<Vec<String>, String>, row: Row) -> bool {
    match (got, row) {
        (Ok(cells), Ok(model)) => cells_of(cells@) == model,
        (Err(message), Err(model)) => message@ == model,
        _ => false,
    }
}

/// Opens a `csv::Reader` on the bytes of a file, built by
/// `csv::ReaderBuilder` with a tab as delimiter, a header row, rows of one
/// length and no trimming, and reads the header row with `Reader::headers`.
/// The contract names what the reader finds: the header is `csv_header` of
/// the bytes, and the rows still to come are `csv_rows` of the bytes. An
/// error of the reader is handed out as its message.
#[verifier::external_body]
fn csv_open<'a>(data: &'a [u8]) -> (r: (csv::Reader<&'a [u8]>, Result<Vec<String>, String>))
    ensures
        csv_pending(r.0) == csv_rows(data@),
        row_is(r.1, csv_header(data@)),
{
    let mut reader = csv::ReaderBuilder::new()
        .delimiter(b'\t')
        .has_headers(true)
        .flexible(false)
        .trim(csv::Trim::None)
        .from_reader(data);
    let header = reader.headers().map(|h| h.iter().map(String::from).collect());
    (reader, header.map_err(|e| e.to_string()))
}

/// What `csv::Reader::read_record` answers for the first pending row and
/// the cells that it leaves in the record: `Ok(true)` with the cells of the
/// row, `Err` with the message of the reader's error for the row, and
/// `Ok(false)` where no row is pending.
pub open spec fn read_is(outcome: Result<bool, String>, cells: Vec<String>, pending: Seq<Row>)
    -> bool {
    match outcome {
        Ok(more) => if more {
            pending.len() > 0 && pending[0] == Ok::<Seq<Seq<char>>, Seq<char>>(cells_of(cells@))
        } else {
            pending.len() == 0
        },
        Err(message) => pending.len() > 0 && pending[0] == Err::<Seq<Seq<char>>, Seq<char>>(
            message@,
        ),
    }
}

/// The pending rows behind the first; none where none is pending.
pub open spec fn rows_behind(pending: Seq<Row>) -> Seq<Row> {
    if pending.len() > 0 {
        pending.skip(1)
    } else {
        pending
    }
}

/// Reads the next row with `csv::Reader::read_record` and hands out what the
/// call answered, an error as its message, with the cells of the record. The
/// contract says that the answer is that for the first of the pending rows
/// of the reader, and that the reader keeps the rows behind it: after a row
/// or an error it goes on to the next row, and once no row is pending it
/// stays as it is.
#[verifier::external_body]
fn csv_next(reader: &mut csv::Reader<&[u8]>) -> (r: (Result<bool, String>, Vec<String>))
    ensures
        read_is(r.0, r.1, csv_pending(*old(reader))),
        csv_pending(*final(reader)) == rows_behind(csv_pending(*old(reader))),
{
    let mut record = csv::StringRecord::new();
    let outcome = reader.read_record(&mut record).map_err(|e| e.to_string());
    (outcome, record.iter().map(String::from).collect())
}

/// The byte order mark.
pub open spec fn bom() -> char {
    '\u{feff}'
}

/// The end of the run of byte order marks that starts at `from`.
pub open spec fn bom_run_end(s: Seq<char>, from: int) -> int
    decreases s.len() - from,
{
    if 0 <= from < s.len() && s[from] == bom() {
        bom_run_end(s, from + 1)
    } else {
        from
    }
}

/// A header cell without the byte order marks at its start.
pub open spec fn without_bom(s: Seq<char>) -> Seq<char> {
    s.skip(bom_run_end(s, 0))
}

/// The first position at or after `from` where the header does not hold the
/// expected column name, as an error; `None` where every expected column is
/// in its place.
pub open spec fn first_mismatch(header: Seq<Seq<char>>, expected: Seq<Seq<char>>, from: int)
    -> Option<Rf2ErrorView>
    decreases expected.len() - from,
{
    if from < 0 || from >= expected.len() || from >= header.len() {
        None
    } else if without_bom(header[from]) != expected[from] {
        Some(
            Rf2ErrorView::UnexpectedColumn {
                position: from as usize,
                expected: expected[from],
                found: without_bom(header[from]),
            },
        )
    } else {
        first_mismatch(header, expected, from + 1)
    }
}

/// What is wrong with a header row, if anything: it has fewer columns than
/// the family needs, or a column does not hold the expected name. Columns
/// beyond the expected ones are allowed.
pub open spec fn header_error(header: Seq<Seq<char>>, expected: Seq<Seq<char>>) -> Option<
    Rf2ErrorView,
> {
    if header.len() < expected.len() {
        Some(
            Rf2ErrorView::InvalidHeader {
                expected: expected.len() as usize,
                found: header.len() as usize,
            },
        )
    } else {
        first_mismatch(header, expected, 0)
    }
}

/// Whether a row is blank: every cell holds nothing but white space. A row
/// without cells is blank.
pub open spec fn row_blank(cells: Seq<Seq<char>>) -> bool {
    forall|i: int| 0 <= i < cells.len() ==> is_blank(#[trigger] cells[i])
}

/// What a row gives rise to: nothing, where it is blank or its record is
/// filtered out; else the record or the error of the row.
pub open spec fn row_outcome<T: Rf2Record>(row: Row, active_only: bool) -> Option<
    Result<T::V, Rf2ErrorView>,
> {
    match row {
        Err(message) => Some(Err(Rf2ErrorView::Csv(message))),
        Ok(cells) => if row_blank(cells) {
            None
        } else {
            match T::decode(cells) {
                Err(e) => Some(Err(e)),
                Ok(v) => if kept(T::is_active(v), active_only) {
                    Some(Ok(v))
                } else {
                    None
                },
            }
        },
    }
}

/// The number of rows at the start that give rise to nothing.
pub open spec fn silent_rows<T: Rf2Record>(rows: Seq<Row>, active_only: bool) -> nat
    decreases rows.len(),
{
    if rows.len() > 0 && row_outcome::<T>(rows[0], active_only) is None {
        1 + silent_rows::<T>(rows.skip(1), active_only)
    } else {
        0
    }
}

/// The number of rows that the reader handed out as rows, not as errors.
pub open spec fn rows_read(rows: Seq<Row>) -> nat
    decreases rows.len(),
{
    if rows.len() == 0 {
        0
    } else {
        rows_read(rows.drop_last()) + if rows.last() is Ok {
            1nat
        } else {
            0nat
        }
    }
}

/// The records that rows give rise to, in order; rows with an error give
/// none.
pub open spec fn kept_records<T: Rf2Record>(rows: Seq<Row>, active_only: bool) -> Seq<T::V>
    decreases rows.len(),
{
    if rows.len() == 0 {
        Seq::empty()
    } else {
        let rest = kept_records::<T>(rows.skip(1), active_only);
        match row_outcome::<T>(rows[0], active_only) {
            Some(Ok(v)) => seq![v] + rest,
            _ => rest,
        }
    }
}

/// The error of the first row that fails, if any does.
pub open spec fn first_failure<T: Rf2Record>(rows: Seq<Row>, active_only: bool) -> Option<
    Rf2ErrorView,
>
    decreases rows.len(),
{
    if rows.len() == 0 {
        None
    } else {
        match row_outcome::<T>(rows[0], active_only) {
            Some(Err(e)) => Some(e),
            _ => first_failure::<T>(rows.skip(1), active_only),
        }
    }
}

/// The records that the rows before the first failing row give rise to, in
/// order; those of all rows where none fails.
pub open spec fn records_before_failure<T: Rf2Record>(rows: Seq<Row>, active_only: bool) -> Seq<
    T::V,
>
    decreases rows.len(),
{
    if rows.len() == 0 {
        Seq::empty()
    } else {
        match row_outcome::<T>(rows[0], active_only) {
            Some(Err(_)) => Seq::empty(),
            Some(Ok(v)) => seq![v] + records_before_failure::<T>(rows.skip(1), active_only),
            None => records_before_failure::<T>(rows.skip(1), active_only),
        }
    }
}

/// A counter raised by `n`, held at the largest value where it would pass
/// it.
pub open spec fn raised(count: usize, n: nat) -> usize {
    if count + n > usize::MAX {
        usize::MAX
    } else {
        (count + n) as usize
    }
}

/// The silent rows lie within the rows.
pub proof fn lemma_silent_rows<T: Rf2Record>(rows: Seq<Row>, active_only: bool)
    ensures
        silent_rows::<T>(rows, active_only) <= rows.len(),
        forall|i: int|
            0 <= i < silent_rows::<T>(rows, active_only) ==> row_outcome::<T>(
                #[trigger] rows[i],
                active_only,
            ) is None,
        silent_rows::<T>(rows, active_only) < rows.len() ==> row_outcome::<T>(
            rows[silent_rows::<T>(rows, active_only) as int],
            active_only,
        ) is Some,
    decreases rows.len(),
{
    if rows.len() > 0 && row_outcome::<T>(rows[0], active_only) is None {
        lemma_silent_rows::<T>(rows.skip(1), active_only);
        let k = silent_rows::<T>(rows.skip(1), active_only) as int;
        assert forall|i: int| 0 <= i < k + 1 implies row_outcome::<T>(
            #[trigger] rows[i],
            active_only,
        ) is None by {
            if i > 0 {
                assert(rows.skip(1)[i - 1] == rows[i]);
            }
        }
        if k + 1 < rows.len() {
            assert(rows.skip(1)[k] == rows[k + 1]);
        }
    }
}

/// Silent rows at the start add no record.
pub proof fn lemma_kept_records_skip<T: Rf2Record>(rows: Seq<Row>, active_only: bool, k: int)
    requires
        0 <= k <= rows.len(),
        forall|i: int| 0 <= i < k ==> row_outcome::<T>(#[trigger] rows[i], active_only) is None,
    ensures
        kept_records::<T>(rows, active_only) == kept_records::<T>(rows.skip(k), active_only),
    decreases k,
{
    if k == 0 {
        assert(rows.skip(0) =~= rows);
    } else {
        assert(row_outcome::<T>(rows[0], active_only) is None);
        assert forall|i: int| 0 <= i < k - 1 implies row_outcome::<T>(
            #[trigger] rows.skip(1)[i],
            active_only,
        ) is None by {
            assert(rows.skip(1)[i] == rows[i + 1]);
        }
        lemma_kept_records_skip::<T>(rows.skip(1), active_only, k - 1);
        assert(rows.skip(1).skip(k - 1) =~= rows.skip(k));
    }
}

/// Silent rows at the start change neither the first failure nor the
/// records before it.
pub proof fn lemma_failure_skip<T: Rf2Record>(rows: Seq<Row>, active_only: bool, k: int)
    requires
        0 <= k <= rows.len(),
        forall|i: int| 0 <= i < k ==> row_outcome::<T>(#[trigger] rows[i], active_only) is None,
    ensures
        first_failure::<T>(rows, active_only) == first_failure::<T>(rows.skip(k), active_only),
        records_before_failure::<T>(rows, active_only) == records_before_failure::<T>(
            rows.skip(k),
            active_only,
        ),
    decreases k,
{
    if k == 0 {
        assert(rows.skip(0) =~= rows);
    } else {
        assert(row_outcome::<T>(rows[0], active_only) is None);
        assert forall|i: int| 0 <= i < k - 1 implies row_outcome::<T>(
            #[trigger] rows.skip(1)[i],
            active_only,
        ) is None by {
            assert(rows.skip(1)[i] == rows[i + 1]);
        }
        lemma_failure_skip::<T>(rows.skip(1), active_only, k - 1);
        assert(rows.skip(1).skip(k - 1) =~= rows.skip(k));
    }
}

/// Whether every cell of a row holds nothing but white space.
fn blank_row(cells: &Vec<String>) -> (r: bool)
    ensures
        r == row_blank(cells_of(cells@)),
{
    let mut i: usize = 0;
    while i < cells.len()
        invariant
            i <= cells.len(),
            forall|k: int| 0 <= k < i ==> is_blank(#[trigger] cells_of(cells@)[k]),
        decreases cells.len() - i,
    {
        if !blank(cells[i].as_str()) {
            assert(!is_blank(cells_of(cells@)[i as int]));
            return false;
        }
        i = i + 1;
    }
    true
}

/// Checks a header row against the columns that a family expects.
pub fn check_header(header: &Vec<String>, expected: &Vec<&'static str>) -> (r: Rf2Result<()>)
    ensures
        match r {
            Ok(_) => header_error(cells_of(header@), names_of(expected@)) is None,
            Err(e) => header_error(cells_of(header@), names_of(expected@)) == Some(e@),
        },
{
    if header.len() < expected.len() {
        return Err(Rf2Error::InvalidHeader { expected: expected.len(), found: header.len() });
    }
    let mut i: usize = 0;
    while i < expected.len()
        invariant
            i <= expected.len() <= header.len(),
            first_mismatch(cells_of(header@), names_of(expected@), 0) == first_mismatch(
                cells_of(header@),
                names_of(expected@),
                i as int,
            ),
        decreases expected.len() - i,
    {
        let cell = header[i].as_str();
        let chars = chars_of(cell);
        let mut start: usize = 0;
        while start < chars.len() && chars[start] == '\u{feff}'
            invariant
                start <= chars.len(),
                bom_run_end(chars@, 0) == bom_run_end(chars@, start as int),
            decreases chars.len() - start,
        {
            start = start + 1;
        }
        let found = slice_of(cell, start, chars.len());
        assert(found@ =~= without_bom(cells_of(header@)[i as int]));
        let found_chars = chars_of(found.as_str());
        let expected_chars = chars_of(expected[i]);
        assert(expected_chars@ == names_of(expected@)[i as int]);
        if !same_chars(&found_chars, &expected_chars) {
            return Err(
                Rf2Error::UnexpectedColumn {
                    position: i,
                    expected: expected[i].to_owned(),
                    found,
                },
            );
        }
        i = i + 1;
    }
    Ok(())
}

/// The column names of a family, each as a character sequence.
pub open spec fn names_of(names: Seq<&'static str>) -> Seq<Seq<char>> {
    Seq::new(names.len(), |i: int| names[i]@)
}

/// A streaming parser of one release file, for the records of one family.
pub struct Rf2Parser<'a, T: Rf2Record> {
    reader: csv::Reader<&'a [u8]>,
    config: Rf2Config,
    records_read: usize,
    _marker: PhantomData<T>,
}

impl<'a, T: Rf2Record> Rf2Parser<'a, T> {
    /// The rows that the parser has still to read.
    pub closed spec fn pending(&self) -> Seq<Row> {
        csv_pending(self.reader)
    }

    /// The configuration of the parser.
    pub closed spec fn spec_config(&self) -> Rf2Config {
        self.config
    }

    /// The number of rows read so far.
    pub closed spec fn spec_records_read(&self) -> usize {
        self.records_read
    }

    /// What opening a parser on the bytes of a file fails with, if it does:
    /// the reader's error for the header row, or what is wrong with the
    /// header.
    pub open spec fn open_error(data: Seq<u8>) -> Option<Rf2ErrorView> {
        match csv_header(data) {
            Err(message) => Some(Rf2ErrorView::Csv(message)),
            Ok(header) => header_error(header, T::spec_columns()),
        }
    }

    /// Opens a parser on the bytes of a file and checks the header row.
    pub fn from_reader(reader: &'a [u8], config: Rf2Config) -> (r: Rf2Result<Self>)
        ensures
            match r {
                Ok(p) => {
                    &&& Self::open_error(reader@) is None
                    &&& p.pending() == csv_rows(reader@)
                    &&& p.spec_config() == config
                    &&& p.spec_records_read() == 0
                },
                Err(e) => Self::open_error(reader@) == Some(e@),
            },
    {
        let (csv_reader, header) = csv_open(reader);
        let header = match header {
            Ok(h) => h,
            Err(message) => {
                return Err(Rf2Error::Csv(message));
            },
        };
        let expected = T::expected_columns();
        assert(names_of(expected@) =~= T::spec_columns());
        match check_header(&header, &expected) {
            Ok(_) => {},
            Err(e) => {
                return Err(e);
            },
        }
        Ok(Rf2Parser { reader: csv_reader, config, records_read: 0, _marker: PhantomData })
    }

    /// The number of rows read so far.
    pub fn records_read(&self) -> (r: usize)
        ensures
            r == self.spec_records_read(),
    {
        self.records_read
    }

    /// The configuration of the parser.
    pub fn config(&self) -> (r: &Rf2Config)
        ensures
            *r == self.spec_config(),
    {
        &self.config
    }

    /// The next record or error of the file; `None` at its end. Blank rows
    /// and records that the configuration filters out are passed over. After
    /// an error the parser can be asked for the next record.
    pub fn next(&mut self) -> (r: Option<Rf2Result<T>>)
        ensures
            final(self).spec_config() == old(self).spec_config(),
            ({
                let rows = old(self).pending();
                let k = silent_rows::<T>(rows, old(self).spec_config().active_only) as int;
                if k == rows.len() {
                    &&& r is None
                    &&& final(self).pending().len() == 0
                    &&& final(self).spec_records_read() == raised(
                        old(self).spec_records_read(),
                        rows_read(rows),
                    )
                } else {
                    &&& r is Some
                    &&& Some(viewed(r->0)) == row_outcome::<T>(
                        rows[k],
                        old(self).spec_config().active_only,
                    )
                    &&& final(self).pending() == rows.skip(k + 1)
                    &&& final(self).spec_records_read() == raised(
                        old(self).spec_records_read(),
                        rows_read(rows.take(k + 1)),
                    )
                }
            }),
    {
        let ghost rows = self.pending();
        let ghost active_only = self.config.active_only;
        let ghost start = self.records_read;
        let ghost done: int = 0;
        proof {
            assert(rows.skip(0) =~= rows);
            assert(rows.take(0) =~= Seq::<Row>::empty());
        }
        loop
            invariant
                0 <= done <= rows.len(),
                self.pending() == rows.skip(done),
                self.config == old(self).config,
                active_only == self.config.active_only,
                rows == old(self).pending(),
                start == old(self).records_read,
                self.records_read == raised(start, rows_read(rows.take(done))),
                forall|i: int|
                    0 <= i < done ==> row_outcome::<T>(#[trigger] rows[i], active_only) is None,
                silent_rows::<T>(rows, active_only) == done + silent_rows::<T>(
                    rows.skip(done),
                    active_only,
                ),
            decreases rows.len() - done,
        {
            let (outcome, cells) = csv_next(&mut self.reader);
            proof {
                if done < rows.len() {
                    assert(rows.skip(done)[0] == rows[done]);
                    assert(rows.skip(done).skip(1) =~= rows.skip(done + 1));
                    assert(rows.take(done + 1).drop_last() =~= rows.take(done));
                    assert(rows.take(done + 1).last() == rows[done]);
                }
            }
            match outcome {
                Ok(false) => {
                    assert(rows.take(done) =~= rows);
                    return None;
                },
                Err(message) => {
                    return Some(Err(Rf2Error::Csv(message)));
                },
                Ok(true) => {
                    if self.records_read < usize::MAX {
                        self.records_read = self.records_read + 1;
                    }
                    if !blank_row(&cells) {
                        match T::from_record(&cells) {
                            Ok(record) => {
                                if record.passes_filter(&self.config) {
                                    return Some(Ok(record));
                                }
                            },
                            Err(e) => {
                                return Some(Err(e));
                            },
                        }
                    }
                    proof {
                        done = done + 1;
                    }
                },
            }
        }
    }

    /// Every record of the rest of the file, in file order. Rows that fail
    /// to decode are left out.
    pub fn parse_all(self) -> (r: Rf2Result<Vec<T>>)
        ensures
            r is Ok,
            views_of(r->Ok_0@) == kept_records::<T>(
                self.pending(),
                self.spec_config().active_only,
            ),
    {
        let mut parser = self;
        let mut results: Vec<T> = Vec::new();
        let ghost rows = parser.pending();
        let ghost active_only = parser.config.active_only;
        loop
            invariant
                active_only == parser.config.active_only,
                kept_records::<T>(rows, active_only) == views_of(results@) + kept_records::<T>(
                    parser.pending(),
                    active_only,
                ),
            ensures
                views_of(results@) == kept_records::<T>(rows, active_only),
            decreases parser.pending().len(),
        {
            let ghost before = parser.pending();
            let ghost collected = views_of(results@);
            proof {
                lemma_silent_rows::<T>(before, active_only);
                lemma_kept_records_skip::<T>(
                    before,
                    active_only,
                    silent_rows::<T>(before, active_only) as int,
                );
            }
            let ghost k = silent_rows::<T>(before, active_only) as int;
            match parser.next() {
                None => {
                    assert(before.skip(k) =~= Seq::<Row>::empty());
                    assert(collected + Seq::<T::V>::empty() =~= collected);
                    break;
                },
                Some(item) => {
                    proof {
                        assert(before.skip(k)[0] == before[k]);
                        assert(before.skip(k).skip(1) =~= before.skip(k + 1));
                    }
                    match item {
                        Ok(record) => {
                            results.push(record);
                            assert(views_of(results@) =~= collected + seq![record@]);
                            assert(kept_records::<T>(rows, active_only) =~= views_of(results@)
                                + kept_records::<T>(parser.pending(), active_only));
                        },
                        Err(_) => {},
                    }
                },
            }
        }
        Ok(results)
    }

    /// The records of the rest of the file up to the first row that fails,
    /// in file order, and the error of that row, if there is one.
    pub fn parse_until_error(self) -> (r: (Vec<T>, Option<Rf2Error>))
        ensures
            views_of(r.0@) == records_before_failure::<T>(
                self.pending(),
                self.spec_config().active_only,
            ),
            match r.1 {
                Some(e) => first_failure::<T>(self.pending(), self.spec_config().active_only)
                    == Some(e@),
                None => first_failure::<T>(self.pending(), self.spec_config().active_only)
                    is None,
            },
    {
        let mut parser = self;
        let mut results: Vec<T> = Vec::new();
        let mut failure: Option<Rf2Error> = None;
        let ghost rows = parser.pending();
        let ghost active_only = parser.config.active_only;
        loop
            invariant_except_break
                failure is None,
                records_before_failure::<T>(rows, active_only) == views_of(results@)
                    + records_before_failure::<T>(parser.pending(), active_only),
                first_failure::<T>(rows, active_only) == first_failure::<T>(
                    parser.pending(),
                    active_only,
                ),
            invariant
                active_only == parser.config.active_only,
            ensures
                views_of(results@) == records_before_failure::<T>(rows, active_only),
                match failure {
                    Some(e) => first_failure::<T>(rows, active_only) == Some(e@),
                    None => first_failure::<T>(rows, active_only) is None,
                },
            decreases parser.pending().len(),
        {
            let ghost before = parser.pending();
            let ghost collected = views_of(results@);
            let ghost k = silent_rows::<T>(before, active_only) as int;
            proof {
                lemma_silent_rows::<T>(before, active_only);
                lemma_failure_skip::<T>(before, active_only, k);
                if k < before.len() {
                    assert(before.skip(k)[0] == before[k]);
                    assert(before.skip(k).skip(1) =~= before.skip(k + 1));
                }
            }
            match parser.next() {
                None => {
                    assert(before.skip(k) =~= Seq::<Row>::empty());
                    assert(collected + Seq::<T::V>::empty() =~= collected);
                    break;
                },
                Some(Err(e)) => {
                    assert(collected + Seq::<T::V>::empty() =~= collected);
                    failure = Some(e);
                    break;
                },
                Some(Ok(record)) => {
                    results.push(record);
                    assert(views_of(results@) =~= collected + seq![record@]);
                    assert(records_before_failure::<T>(rows, active_only) =~= views_of(results@)
                        + records_before_failure::<T>(parser.pending(), active_only));
                },
            }
        }
        (results, failure)
    }

    /// The next batch of records: as many as the batch size of the
    /// configuration, at least one, or fewer where the file ends before. Rows
    /// that fail to decode are left out. An empty batch tells that the file
    /// has no further record.
    pub fn next_batch(&mut self) -> (r: Vec<T>)
        ensures
            final(self).spec_config() == old(self).spec_config(),
            r@.len() <= batch_limit(old(self).spec_config().batch_size),
            kept_records::<T>(old(self).pending(), old(self).spec_config().active_only)
                == views_of(r@) + kept_records::<T>(
                final(self).pending(),
                old(self).spec_config().active_only,
            ),
            r@.len() < batch_limit(old(self).spec_config().batch_size)
                ==> final(self).pending().len() == 0,
            final(self).pending().len() <= old(self).pending().len(),
            r@.len() > 0 ==> final(self).pending().len() < old(self).pending().len(),
    {
        let limit: usize = if self.config.batch_size == 0 {
            1
        } else {
            self.config.batch_size
        };
        let mut batch: Vec<T> = Vec::new();
        let ghost rows = self.pending();
        let ghost active_only = self.config.active_only;
        assert(views_of(batch@) + kept_records::<T>(rows, active_only) =~= kept_records::<T>(
            rows,
            active_only,
        ));
        while batch.len() < limit
            invariant
                self.config == old(self).config,
                active_only == self.config.active_only,
                rows == old(self).pending(),
                limit == batch_limit(self.config.batch_size),
                batch@.len() <= limit,
                kept_records::<T>(rows, active_only) == views_of(batch@) + kept_records::<T>(
                    self.pending(),
                    active_only,
                ),
                self.pending().len() <= rows.len(),
                batch@.len() > 0 ==> self.pending().len() < rows.len(),
            ensures
                batch@.len() < limit ==> self.pending().len() == 0,
            decreases self.pending().len(),
        {
            let ghost before = self.pending();
            let ghost collected = views_of(batch@);
            let ghost k = silent_rows::<T>(before, active_only) as int;
            proof {
                lemma_silent_rows::<T>(before, active_only);
                lemma_kept_records_skip::<T>(before, active_only, k);
                if k < before.len() {
                    assert(before.skip(k)[0] == before[k]);
                    assert(before.skip(k).skip(1) =~= before.skip(k + 1));
                }
            }
            match self.next() {
                None => {
                    break;
                },
                Some(Ok(record)) => {
                    batch.push(record);
                    assert(views_of(batch@) =~= collected + seq![record@]);
                    assert(kept_records::<T>(rows, active_only) =~= views_of(batch@)
                        + kept_records::<T>(self.pending(), active_only));
                },
                Some(Err(_)) => {},
            }
        }
        batch
    }

    /// Hands the records of the rest of the file to a sink, batch by batch,
    /// and counts them. Every batch but the last holds as many records as
    /// the batch limit. The error of the sink for a batch ends the run: the
    /// batches before it were taken, and none after it is handed over.
    pub fn parse_batched<F: Fn(Vec<T>) -> Rf2Result<()>>(self, callback: F) -> (r: Rf2Result<
        usize,
    >)
        requires
            forall|batch: Vec<T>| call_requires(callback, (batch,)),
        ensures
            ({
                let kept = kept_records::<T>(self.pending(), self.spec_config().active_only);
                let batches = batches_of(kept, batch_limit(self.spec_config().batch_size) as nat);
                match r {
                    Ok(total) => total == raised(0, kept.len()) && taken_before::<T, F>(
                        callback,
                        batches,
                        batches.len() as int,
                    ),
                    Err(e) => exists|k: int|
                        {
                            &&& 0 <= k < batches.len()
                            &&& #[trigger] taken_before::<T, F>(callback, batches, k)
                            &&& sink_gives::<T, F>(callback, batches[k], Err(e))
                        },
                }
            }),
    {
        let ghost batches = batches_of(
            kept_records::<T>(self.pending(), self.spec_config().active_only),
            batch_limit(self.spec_config().batch_size) as nat,
        );
        let mut parser = self;
        let mut total: usize = 0;
        let mut failure: Option<Rf2Error> = None;
        let ghost rows = parser.pending();
        let ghost active_only = parser.config.active_only;
        let ghost limit = batch_limit(parser.config.batch_size) as nat;
        let ghost handed = Seq::<T::V>::empty();
        let ghost done = Seq::<Seq<T::V>>::empty();
        assert(handed + kept_records::<T>(rows, active_only) =~= kept_records::<T>(
            rows,
            active_only,
        ));
        assert(done + batches =~= batches);
        loop
            invariant_except_break
                failure is None,
                kept_records::<T>(rows, active_only) == handed + kept_records::<T>(
                    parser.pending(),
                    active_only,
                ),
                batches == done + batches_of(
                    kept_records::<T>(parser.pending(), active_only),
                    limit,
                ),
                total == raised(0, handed.len()),
            invariant
                forall|batch: Vec<T>| call_requires(callback, (batch,)),
                active_only == parser.config.active_only,
                limit == batch_limit(parser.config.batch_size),
                done.len() <= batches.len(),
                forall|k: int|
                    0 <= k < done.len() ==> sink_gives::<T, F>(
                        callback,
                        #[trigger] batches[k],
                        Ok(()),
                    ),
            ensures
                match failure {
                    None => total == raised(0, kept_records::<T>(rows, active_only).len())
                        && done.len() == batches.len(),
                    Some(e) => done.len() < batches.len() && sink_gives::<T, F>(
                        callback,
                        batches[done.len() as int],
                        Err(e),
                    ),
                },
            decreases parser.pending().len(),
        {
            let ghost before = kept_records::<T>(parser.pending(), active_only);
            let batch = parser.next_batch();
            if batch.len() == 0 {
                assert(kept_records::<T>(parser.pending(), active_only) =~= Seq::<T::V>::empty());
                assert(handed + Seq::<T::V>::empty() =~= handed);
                assert(before =~= Seq::<T::V>::empty());
                assert(done + Seq::<Seq<T::V>>::empty() =~= done);
                break;
            }
            let ghost given = batch;
            proof {
                let after = kept_records::<T>(parser.pending(), active_only);
                assert(handed + (views_of(batch@) + after) =~= (handed + views_of(batch@)) + after);
                handed = handed + views_of(batch@);
                lemma_batches_step(before, views_of(batch@), after, limit);
                assert(done + (seq![views_of(batch@)] + batches_of(after, limit)) =~= (done
                    + seq![views_of(batch@)]) + batches_of(after, limit));
                assert(batches[done.len() as int] == views_of(batch@));
            }
            if total > usize::MAX - batch.len() {
                total = usize::MAX;
            } else {
                total = total + batch.len();
            }
            match callback(batch) {
                Ok(done_with) => {
                    proof {
                        assert(done_with == ());
                        assert(call_ensures(callback, (given,), Ok(())));
                        done = done + seq![views_of(given@)];
                    }
                },
                Err(e) => {
                    assert(call_ensures(callback, (given,), Err(e)));
                    failure = Some(e);
                    break;
                },
            }
        }
        proof {
            assert(batches == batches_of(kept_records::<T>(rows, active_only), limit));
            assert(taken_before::<T, F>(callback, batches, done.len() as int));
        }
        match failure {
            Some(e) => Err(e),
            None => Ok(total),
        }
    }
}

/// The batches into which a list of records falls for a batch limit: each
/// holds as many records as the limit, the last one what is left.
pub open spec fn batches_of<V>(records: Seq<V>, limit: nat) -> Seq<Seq<V>>
    decreases records.len(),
{
    if records.len() == 0 || limit == 0 {
        Seq::empty()
    } else if records.len() <= limit {
        seq![records]
    } else {
        seq![records.take(limit as int)] + batches_of(records.skip(limit as int), limit)
    }
}

/// Whether a sink took each of the first `k` batches.
pub open spec fn taken_before<T: Rf2Record, F: Fn(Vec<T>) -> Rf2Result<()>>(
    callback: F,
    batches: Seq<Seq<T::V>>,
    k: int,
) -> bool {
    forall|j: int| 0 <= j < k ==> sink_gives::<T, F>(callback, #[trigger] batches[j], Ok(()))
}

/// Whether a sink gives an outcome for a batch of the given records.
pub open spec fn sink_gives<T: Rf2Record, F: Fn(Vec<T>) -> Rf2Result<()>>(
    callback: F,
    records: Seq<T::V>,
    outcome: Rf2Result<()>,
) -> bool {
    exists|batch: Vec<T>|
        views_of(batch@) == records && #[trigger] call_ensures(callback, (batch,), outcome)
}

/// The batches of a list that begins with a full batch, or is one batch
/// that is not full.
proof fn lemma_batches_step<V>(records: Seq<V>, first: Seq<V>, rest: Seq<V>, limit: nat)
    requires
        records == first + rest,
        0 < first.len() <= limit,
        first.len() < limit ==> rest.len() == 0,
    ensures
        batches_of(records, limit) == seq![first] + batches_of(rest, limit),
{
    if rest.len() == 0 {
        assert(records =~= first);
        assert(seq![first] + Seq::<Seq<V>>::empty() =~= seq![first]);
    } else {
        assert(records.take(limit as int) =~= first);
        assert(records.skip(limit as int) =~= rest);
    }
}

/// The number of records of a batch for a batch size: the batch size, and
/// one for a batch size of zero.
pub open spec fn batch_limit(batch_size: usize) -> usize {
    if batch_size == 0 {
        1
    } else {
        batch_size
    }
}

/// The models of two runs of records, one after the other, are the models
/// of the first followed by those of the second.
pub proof fn lemma_views_of_add<T: View>(a: Seq<T>, b: Seq<T>)
    ensures
        views_of(a + b) == views_of(a) + views_of(b),
{
    assert(views_of(a + b) =~= views_of(a) + views_of(b));
}

/// The bytes of a list of files, file by file.
pub open spec fn files_of(files: Seq<Vec<u8>>) -> Seq<Seq<u8>> {
    Seq::new(files.len(), |i: int| files[i]@)
}

/// The records of the files of a list, in the order of the list and of
/// each file, up to the first file whose header is refused.
pub open spec fn records_of_files<T: Rf2Record>(files: Seq<Seq<u8>>, active_only: bool) -> Seq<
    T::V,
>
    decreases files.len(),
{
    if files.len() > 0 && Rf2Parser::<T>::open_error(files[0]) is None {
        kept_records::<T>(csv_rows(files[0]), active_only) + records_of_files::<T>(
            files.skip(1),
            active_only,
        )
    } else {
        Seq::empty()
    }
}

/// The error of the first file of a list whose header is refused, if there
/// is one.
pub open spec fn files_error<T: Rf2Record>(files: Seq<Seq<u8>>) -> Option<Rf2ErrorView>
    decreases files.len(),
{
    if files.len() == 0 {
        None
    } else {
        match Rf2Parser::<T>::open_error(files[0]) {
            Some(e) => Some(e),
            None => files_error::<T>(files.skip(1)),
        }
    }
}

/// Reads the records of the files of a list, given as their bytes, up to
/// the first file whose header is refused. Rows that fail to decode are left
/// out.
pub fn parse_files<T: Rf2Record>(files: &Vec<Vec<u8>>, active_only: bool, batch_size: usize) -> (r:
    (Vec<T>, Option<Rf2Error>))
    ensures
        views_of(r.0@) == records_of_files::<T>(files_of(files@), active_only),
        match r.1 {
            Some(e) => files_error::<T>(files_of(files@)) == Some(e@),
            None => files_error::<T>(files_of(files@)) is None,
        },
{
    let mut records: Vec<T> = Vec::new();
    let mut i: usize = 0;
    let ghost all = files_of(files@);
    assert(all.skip(0) =~= all);
    assert(views_of(records@) + records_of_files::<T>(all, active_only) =~= records_of_files::<T>(
        all,
        active_only,
    ));
    while i < files.len()
        invariant
            i <= files.len(),
            all == files_of(files@),
            records_of_files::<T>(all, active_only) == views_of(records@) + records_of_files::<T>(
                all.skip(i as int),
                active_only,
            ),
            files_error::<T>(all) == files_error::<T>(all.skip(i as int)),
        decreases files.len() - i,
    {
        let config = Rf2Config { active_only, batch_size };
        assert(all.skip(i as int)[0] == files@[i as int]@);
        assert(all.skip(i as int).skip(1) =~= all.skip(i + 1));
        let parser = match Rf2Parser::<T>::from_reader(files[i].as_slice(), config) {
            Ok(parser) => parser,
            Err(e) => {
                assert(views_of(records@) + Seq::<T::V>::empty() =~= views_of(records@));
                return (records, Some(e));
            },
        };
        let mut found = match parser.parse_all() {
            Ok(found) => found,
            Err(e) => {
                return (records, Some(e));
            },
        };
        proof {
            lemma_views_of_add(records@, found@);
        }
        records.append(&mut found);
        i = i + 1;
    }
    assert(all.skip(files.len() as int) =~= Seq::<Seq<u8>>::empty());
    assert(views_of(records@) + Seq::<T::V>::empty() =~= views_of(records@));
    (records, None)
}

} // verus!
