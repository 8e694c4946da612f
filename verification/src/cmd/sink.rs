//! Laying out a sequence of rows as a JSON array or as CSV, one row at a time.
//!
//! A row arrives as its record type rendered it: the text of one JSON value
//! and the values of its CSV fields. The sink decides what is written around
//! and between rows, and stops at the first row that fails.
use vstd::prelude::*;
use crate::cmd::Format;
use crate::error::{EncodeError, Error};

verus! {

/// One report row as its record type renders it.
#[derive(Clone, Debug, PartialEq, Eq)]
pub struct Row {
    /// The row as the text of one JSON value, laid out as if it stood alone.
    pub json: Vec<u8>,
    /// The values of the row's CSV fields, in the order of the header; a
    /// field without a value is the empty text.
    pub fields: Vec<String>,
}

/// The texts of a list of strings.
pub open spec fn texts(fields: Seq<String>) -> Seq<Seq<char>> {
    Seq::new(fields.len(), |i: int| fields[i]@)
}

/// What a fresh `csv::Writer` with the default settings puts into its buffer
/// for one record with the given fields, terminator included; `None` where
/// the writer reports an error.
pub uninterp spec fn csv_record_bytes(fields: Seq<Seq<char>>) -> Option<Seq<u8>>;

/// Calls `csv::Writer::from_writer` on an empty buffer, `write_record` with
/// the fields and `into_inner`. The bytes depend on the fields alone; the
/// contract names them and promises neither success nor anything of their
/// content.
#[verifier::external_body]
fn csv_record(fields: &Vec<String>) -> (r: Option<Vec<u8>>)
    ensures
        match r {
            Some(line) => csv_record_bytes(texts(fields@)) == Some(line@),
            None => csv_record_bytes(texts(fields@)).is_none(),
        },
{
    let mut writer = csv::Writer::from_writer(Vec::new());
    match writer.write_record(fields) {
        Ok(()) => writer.into_inner().ok(),
        Err(_) => None,
    }
}

/// One byte of a nested JSON text: a line feed takes the two spaces of the
/// array's indentation after it.
pub open spec fn json_piece(byte: u8) -> Seq<u8> {
    if byte == 10 {
        seq![10u8, 32u8, 32u8]
    } else {
        seq![byte]
    }
}

/// A JSON text moved one level into an array: each of its lines but the
/// first starts two spaces further in.
pub open spec fn json_indented(text: Seq<u8>) -> Seq<u8>
    decreases text.len(),
{
    if text.len() == 0 {
        Seq::empty()
    } else {
        json_indented(text.drop_last()) + json_piece(text.last())
    }
}

/// What stands before an element of the array: a comma unless it is the
/// first, then a new line and the indentation.
pub open spec fn json_lead(first: bool) -> Seq<u8> {
    if first {
        seq![10u8, 32u8, 32u8]
    } else {
        seq![44u8, 10u8, 32u8, 32u8]
    }
}

/// What is written before the first row: the opening bracket, or the header
/// record. `None` where the CSV writer refuses the header.
pub open spec fn opening(format: Format, header: Seq<Seq<char>>) -> Option<Seq<u8>> {
    match format {
        Format::Json => Some(seq![91u8]),
        Format::Csv => csv_record_bytes(header),
    }
}

/// Why a row cannot be written, if it cannot.
pub open spec fn row_error(format: Format, columns: nat, row: Row) -> Option<EncodeError> {
    match format {
        Format::Json => None,
        Format::Csv => if row.fields@.len() != columns {
            Some(EncodeError::FieldCount { expected: columns as usize, found: row.fields.len() })
        } else if csv_record_bytes(texts(row.fields@)).is_none() {
            Some(EncodeError::Refused)
        } else {
            None
        },
    }
}

/// What is written for one row; empty for a row that cannot be written.
pub open spec fn row_bytes(format: Format, first: bool, row: Row) -> Seq<u8> {
    match format {
        Format::Json => json_lead(first) + json_indented(row.json@),
        Format::Csv => match csv_record_bytes(texts(row.fields@)) {
            Some(line) => line,
            None => Seq::empty(),
        },
    }
}

/// What is written after the last row: the closing bracket, on a line of its
/// own unless the array is empty. CSV has no closing.
pub open spec fn closing(format: Format, any_rows: bool) -> Seq<u8> {
    match format {
        Format::Json => if any_rows {
            seq![10u8, 93u8]
        } else {
            seq![93u8]
        },
        Format::Csv => Seq::empty(),
    }
}

/// Whether an item of the source can be written: it is a row, and the row
/// has no encoding error.
pub open spec fn writable(format: Format, columns: nat, item: Result<Row, Error>) -> bool {
    match item {
        Ok(row) => row_error(format, columns, row).is_none(),
        Err(_) => false,
    }
}

/// The number of items before the first one that cannot be written.
pub open spec fn written(format: Format, columns: nat, items: Seq<Result<Row, Error>>) -> nat
    decreases items.len(),
{
    if items.len() == 0 || !writable(format, columns, items[0]) {
        0
    } else {
        1 + written(format, columns, items.drop_first())
    }
}

/// The bytes of the first `n` items, in source order.
pub open spec fn laid_out(format: Format, items: Seq<Result<Row, Error>>, n: nat) -> Seq<u8>
    decreases n,
{
    if n == 0 || n > items.len() {
        Seq::empty()
    } else {
        laid_out(format, items, (n - 1) as nat) + match items[n - 1] {
            Ok(row) => row_bytes(format, n == 1, row),
            Err(_) => Seq::empty(),
        }
    }
}

/// Everything a run writes for a header and a source sequence: the opening,
/// the rows before the first failure, and the closing if there was none.
pub open spec fn emitted(format: Format, header: Seq<Seq<char>>, items: Seq<Result<Row, Error>>) -> Seq<u8> {
    match opening(format, header) {
        None => Seq::empty(),
        Some(open) => {
            let n = written(format, header.len(), items);
            open + laid_out(format, items, n) + if n == items.len() {
                closing(format, n > 0)
            } else {
                Seq::empty()
            }
        },
    }
}

/// How a run ends: well if every item was written, else with the failure of
/// the first item that was not.
pub open spec fn outcome(format: Format, header: Seq<Seq<char>>, items: Seq<Result<Row, Error>>) -> Result<(), Error> {
    if opening(format, header).is_none() {
        Err(Error::Encoding(EncodeError::Refused))
    } else {
        let n = written(format, header.len(), items);
        if n == items.len() {
            Ok(())
        } else {
            match items[n as int] {
                Err(e) => Err(e),
                Ok(row) => Err(Error::Encoding(row_error(format, header.len(), row).unwrap())),
            }
        }
    }
}

/// Where an output stands.
#[derive(Clone, Copy, Debug, PartialEq, Eq, Structural)]
pub enum Phase {
    /// Rows can be written.
    Open,
    /// The closing was written.
    Finished,
    /// A failure ended the output; nothing more is written.
    Aborted,
}

/// The state of one output. It holds no row: what is written for a row
/// depends on the format, on whether a row came before, and on that row.
#[derive(Clone, Copy, Debug, PartialEq, Eq, Structural)]
pub struct Sink {
    pub format: Format,
    /// The number of names in the header.
    pub columns: usize,
    /// Whether a row has been written.
    pub started: bool,
    pub phase: Phase,
}

/// A JSON text moved one level into an array.
pub fn indent_json(text: &Vec<u8>) -> (r: Vec<u8>)
    ensures
        r@ == json_indented(text@),
{
    let mut r: Vec<u8> = Vec::new();
    let mut i: usize = 0;
    while i < text.len()
        invariant
            i <= text.len(),
            r@ == json_indented(text@.take(i as int)),
        decreases text.len() - i,
    {
        let byte: u8 = text[i];
        proof {
            let next = text@.take(i + 1);
            assert(next.drop_last() =~= text@.take(i as int));
            assert(next.last() == byte);
        }
        r.push(byte);
        if byte == 10 {
            r.push(32);
            r.push(32);
        }
        assert(r@ =~= json_indented(text@.take(i as int)) + json_piece(byte));
        i += 1;
    }
    assert(text@.take(text.len() as int) =~= text@);
    r
}

impl Sink {
    /// Opens an output: gives its state and the bytes that stand before the
    /// first row. The header is written for CSV only; its length is the
    /// number of fields that every row must have.
    pub fn start(format: Format, header: &Vec<String>) -> (r: Result<(Sink, Vec<u8>), EncodeError>)
        ensures
            match r {
                Ok((sink, bytes)) => opening(format, texts(header@)) == Some(bytes@) && sink == (Sink {
                    format,
                    columns: header.len(),
                    started: false,
                    phase: Phase::Open,
                }),
                Err(e) => opening(format, texts(header@)).is_none() && e == EncodeError::Refused,
            },
    {
        let sink = Sink { format, columns: header.len(), started: false, phase: Phase::Open };
        match format {
            Format::Json => {
                let mut bytes: Vec<u8> = Vec::new();
                bytes.push(91);
                assert(bytes@ =~= seq![91u8]);
                Ok((sink, bytes))
            },
            Format::Csv => match csv_record(header) {
                Some(line) => Ok((sink, line)),
                None => Err(EncodeError::Refused),
            },
        }
    }

    /// Gives the bytes of one more row. A row that cannot be written aborts
    /// the output; an output that is not open takes no row.
    pub fn write(&mut self, row: &Row) -> (r: Result<Vec<u8>, EncodeError>)
        ensures
            match r {
                Ok(bytes) => old(self).phase == Phase::Open && row_error(
                    old(self).format,
                    old(self).columns as nat,
                    *row,
                ).is_none() && bytes@ == row_bytes(old(self).format, !old(self).started, *row)
                    && *final(self) == (Sink { started: true, ..*old(self) }),
                Err(e) => if old(self).phase != Phase::Open {
                    e == EncodeError::Closed && *final(self) == *old(self)
                } else {
                    row_error(old(self).format, old(self).columns as nat, *row) == Some(e)
                        && *final(self) == (Sink { phase: Phase::Aborted, ..*old(self) })
                },
            },
    {
        match self.phase {
            Phase::Open => {},
            _ => {
                return Err(EncodeError::Closed);
            },
        }
        match self.format {
            Format::Json => {
                let mut bytes: Vec<u8> = Vec::new();
                if self.started {
                    bytes.push(44);
                }
                bytes.push(10);
                bytes.push(32);
                bytes.push(32);
                assert(bytes@ =~= json_lead(!self.started));
                let mut body = indent_json(&row.json);
                bytes.append(&mut body);
                self.started = true;
                Ok(bytes)
            },
            Format::Csv => {
                if row.fields.len() != self.columns {
                    self.phase = Phase::Aborted;
                    return Err(
                        EncodeError::FieldCount { expected: self.columns, found: row.fields.len() },
                    );
                }
                match csv_record(&row.fields) {
                    Some(line) => {
                        self.started = true;
                        Ok(line)
                    },
                    None => {
                        self.phase = Phase::Aborted;
                        Err(EncodeError::Refused)
                    },
                }
            },
        }
    }

    /// Records that the source failed: an open output is aborted, and
    /// nothing is written for it any more.
    pub fn abort(&mut self)
        ensures
            *final(self) == (Sink {
                phase: if old(self).phase == Phase::Open {
                    Phase::Aborted
                } else {
                    old(self).phase
                },
                ..*old(self)
            }),
    {
        match self.phase {
            Phase::Open => {
                self.phase = Phase::Aborted;
            },
            _ => {},
        }
    }

    /// Finishes an open output and gives the bytes that stand after the last
    /// row.
    pub fn finish(&mut self) -> (r: Result<Vec<u8>, EncodeError>)
        ensures
            match r {
                Ok(bytes) => old(self).phase == Phase::Open && bytes@ == closing(
                    old(self).format,
                    old(self).started,
                ) && *final(self) == (Sink { phase: Phase::Finished, ..*old(self) }),
                Err(e) => old(self).phase != Phase::Open && e == EncodeError::Closed && *final(self)
                    == *old(self),
            },
    {
        match self.phase {
            Phase::Open => {},
            _ => {
                return Err(EncodeError::Closed);
            },
        }
        let mut bytes: Vec<u8> = Vec::new();
        match self.format {
            Format::Json => {
                if self.started {
                    bytes.push(10);
                }
                bytes.push(93);
            },
            Format::Csv => {},
        }
        assert(bytes@ =~= closing(self.format, self.started));
        self.phase = Phase::Finished;
        Ok(bytes)
    }
}

/// The count of written items is the one index up to which every item can
/// be written and at which, if it is an index, the item cannot.
pub proof fn lemma_written_is(format: Format, columns: nat, items: Seq<Result<Row, Error>>, n: nat)
    requires
        n <= items.len(),
        forall|i: int| 0 <= i < n ==> writable(format, columns, #[trigger] items[i]),
        n < items.len() ==> !writable(format, columns, items[n as int]),
    ensures
        written(format, columns, items) == n,
    decreases items.len(),
{
    if n > 0 {
        let rest = items.drop_first();
        assert forall|i: int| 0 <= i < n - 1 implies writable(format, columns, #[trigger] rest[i]) by {
            assert(rest[i] == items[i + 1]);
        }
        lemma_written_is(format, columns, rest, (n - 1) as nat);
    }
}

/// Every item before the count of written items can be written, and the
/// item at the count, if there is one, cannot.
pub proof fn lemma_written_bounds(format: Format, columns: nat, items: Seq<Result<Row, Error>>)
    ensures
        written(format, columns, items) <= items.len(),
        forall|i: int|
            0 <= i < written(format, columns, items) ==> writable(format, columns, #[trigger] items[i]),
        written(format, columns, items) < items.len() ==> !writable(
            format,
            columns,
            items[written(format, columns, items) as int],
        ),
    decreases items.len(),
{
    if items.len() > 0 && writable(format, columns, items[0]) {
        let rest = items.drop_first();
        lemma_written_bounds(format, columns, rest);
        assert forall|i: int| 0 <= i < written(format, columns, items) implies writable(
            format,
            columns,
            #[trigger] items[i],
        ) by {
            if i > 0 {
                assert(items[i] == rest[i - 1]);
            }
        }
        let n = written(format, columns, rest);
        if n < rest.len() {
            assert(rest[n as int] == items[n as int + 1]);
        }
    }
}

/// The bytes of the first `n` items do not depend on the items after them.
pub proof fn lemma_laid_out_of_prefix(
    format: Format,
    items: Seq<Result<Row, Error>>,
    other: Seq<Result<Row, Error>>,
    n: nat,
)
    requires
        n <= items.len(),
        n <= other.len(),
        forall|i: int| 0 <= i < n ==> items[i] == other[i],
    ensures
        laid_out(format, items, n) == laid_out(format, other, n),
    decreases n,
{
    if n > 0 {
        lemma_laid_out_of_prefix(format, items, other, (n - 1) as nat);
    }
}

/// The bytes of fewer items are the beginning of the bytes of more items.
pub proof fn lemma_laid_out_grows(format: Format, items: Seq<Result<Row, Error>>, n: nat, m: nat)
    requires
        n <= m <= items.len(),
    ensures
        laid_out(format, items, n).is_prefix_of(laid_out(format, items, m)),
    decreases m,
{
    if n < m {
        lemma_laid_out_grows(format, items, n, (m - 1) as nat);
        let shorter = laid_out(format, items, (m - 1) as nat);
        let longer = laid_out(format, items, m);
        assert(shorter.is_prefix_of(longer));
        assert(laid_out(format, items, n).is_prefix_of(longer));
    }
}

impl Format {
    /// Writes a source sequence to `out` in this format: the opening, each
    /// row in source order, and the closing. The first item that is a
    /// failure, or a row that cannot be encoded, ends the run: nothing is
    /// written for it or after it, no closing either, and its failure is
    /// returned.
    pub fn output(&self, out: &mut Vec<u8>, header: &Vec<String>, rows: Vec<Result<Row, Error>>) -> (r:
        Result<(), Error>)
        ensures
            final(out)@ == old(out)@ + emitted(*self, texts(header@), rows@),
            r == outcome(*self, texts(header@), rows@),
    {
        let ghost items = rows@;
        let mut pending = rows;
        let ghost names = texts(header@);
        let ghost columns = header@.len();
        assert(names.len() == columns);
        let started = Sink::start(*self, header);
        let (mut sink, mut head) = match started {
            Ok(pair) => pair,
            Err(e) => {
                assert(out@ =~= old(out)@ + emitted(*self, names, items));
                return Err(Error::Encoding(e));
            },
        };
        let ghost open = head@;
        out.append(&mut head);
        let mut i: usize = 0;
        while i < pending.len()
            invariant
                pending@ == items,
                rows@ == items,
                i <= items.len(),
                columns == header@.len(),
                names == texts(header@),
                opening(*self, names) == Some(open),
                forall|j: int| 0 <= j < i ==> writable(*self, columns, #[trigger] items[j]),
                out@ == old(out)@ + open + laid_out(*self, items, i as nat),
                sink == (Sink { format: *self, columns: header.len(), started: i > 0, phase: Phase::Open }),
            decreases items.len() - i,
        {
            match &pending[i] {
                Ok(row) => {
                    match sink.write(row) {
                        Ok(mut bytes) => {
                            out.append(&mut bytes);
                            assert(out@ =~= old(out)@ + open + laid_out(*self, items, (i + 1) as nat));
                        },
                        Err(e) => {
                            proof {
                                lemma_written_is(*self, columns, items, i as nat);
                                assert(out@ =~= old(out)@ + emitted(*self, names, items));
                            }
                            return Err(Error::Encoding(e));
                        },
                    }
                },
                Err(_) => {
                    sink.abort();
                    proof {
                        lemma_written_is(*self, columns, items, i as nat);
                        assert(out@ =~= old(out)@ + emitted(*self, names, items));
                    }
                    let item = pending.swap_remove(i);
                    match item {
                        Err(e) => {
                            return Err(e);
                        },
                        Ok(_) => {
                            assert(false);
                            return Ok(());
                        },
                    }
                },
            }
            i += 1;
        }
        proof {
            lemma_written_is(*self, columns, items, i as nat);
        }
        match sink.finish() {
            Ok(mut tail) => {
                out.append(&mut tail);
                assert(out@ =~= old(out)@ + emitted(*self, names, items));
                Ok(())
            },
            Err(_) => {
                assert(false);
                Ok(())
            },
        }
    }
}

/// A run that fails at an index leaves exactly the rows before it, with no
/// closing after them, and what it leaves is the beginning of what any run
/// writes whose source starts with the same rows.
pub proof fn lemma_failure_truncates(
    format: Format,
    header: Seq<Seq<char>>,
    items: Seq<Result<Row, Error>>,
    index: nat,
    longer: Seq<Result<Row, Error>>,
)
    requires
        opening(format, header).is_some(),
        index < items.len(),
        forall|i: int| 0 <= i < index ==> writable(format, header.len(), #[trigger] items[i]),
        !writable(format, header.len(), items[index as int]),
        index <= longer.len(),
        forall|i: int| 0 <= i < index ==> longer[i] == items[i],
    ensures
        emitted(format, header, items) == opening(format, header).unwrap() + laid_out(format, items, index),
        outcome(format, header, items).is_err(),
        emitted(format, header, items).is_prefix_of(emitted(format, header, longer)),
{
    let open = opening(format, header).unwrap();
    let columns = header.len();
    lemma_written_is(format, columns, items, index);
    assert(emitted(format, header, items) =~= open + laid_out(format, items, index));
    lemma_written_bounds(format, columns, longer);
    let m = written(format, columns, longer);
    if m < index {
        assert(longer[m as int] == items[m as int]);
        assert(false);
    }
    lemma_laid_out_of_prefix(format, items, longer, index);
    lemma_laid_out_grows(format, longer, index, m);
    let whole = emitted(format, header, longer);
    let body = laid_out(format, longer, m);
    let part = laid_out(format, longer, index);
    assert(part.is_prefix_of(body));
    assert((open + part).is_prefix_of(open + body)) by {
        assert((open + body).subrange(0, (open + part).len() as int) =~= open + part);
    }
    assert((open + body).is_prefix_of(whole)) by {
        assert(whole.subrange(0, (open + body).len() as int) =~= open + body);
    }
    assert((open + part).is_prefix_of(whole)) by {
        assert(whole.subrange(0, (open + part).len() as int) =~= open + part);
    }
}

/// A source without failures is written whole: the opening, every row once
/// and in source order, and the closing.
pub proof fn lemma_complete_output(format: Format, header: Seq<Seq<char>>, items: Seq<Result<Row, Error>>)
    requires
        opening(format, header).is_some(),
        forall|i: int| 0 <= i < items.len() ==> writable(format, header.len(), #[trigger] items[i]),
    ensures
        outcome(format, header, items) == Ok::<(), Error>(()),
        emitted(format, header, items) == opening(format, header).unwrap() + laid_out(
            format,
            items,
            items.len(),
        ) + closing(format, items.len() > 0),
        forall|n: nat|
            0 < n <= items.len() ==> #[trigger] laid_out(format, items, n) == laid_out(
                format,
                items,
                (n - 1) as nat,
            ) + row_bytes(format, n == 1, items[n - 1].unwrap()),
{
    lemma_written_is(format, header.len(), items, items.len());
    assert forall|n: nat| 0 < n <= items.len() implies #[trigger] laid_out(format, items, n) == laid_out(
        format,
        items,
        (n - 1) as nat,
    ) + row_bytes(format, n == 1, items[n - 1].unwrap()) by {
        assert(writable(format, header.len(), items[n - 1]));
    }
}

} // verus!
