use vstd::prelude::*;

use crate::column::{
    lemma_parsed_schema_well_formed, lemma_value_has_schema_type,
    lemma_well_formed_schema_is_readable, take_schema, take_value, Schema, Value, ValueView,
};
use crate::error::{Error, ErrorView};
use crate::ext::{
    is_vlq, lemma_pow128_le, lemma_pow128_values, lemma_vlq_prefix, lemma_vlq_read, take_bytes,
    take_u16_be, take_vlq, vlq_value, ByteReader, ReadExt,
};

verus! {

/// The first byte of all BSV data.
pub const MAGIC: u8 = 0xBF;

/// The header of BSV data whose schemas stand in the header itself.
#[derive(Debug, Clone, PartialEq, Eq, Hash)]
pub struct AnonymousSchemaBsvHeader {
    /// The number of bytes of the header that follow its size.
    pub size: u16,
    pub row_count: u64,
    pub max_row_size: u64,
    pub schema_version: u32,
    pub schema_count: u32,
    /// The schema of each column, in order.
    pub schemas: Vec<Schema>,
}

/// An [`AnonymousSchemaBsvHeader`] as contracts speak of it.
pub struct HeaderView {
    pub size: u16,
    pub row_count: u64,
    pub max_row_size: u64,
    pub schema_version: u32,
    pub schema_count: u32,
    pub schemas: Seq<Schema>,
}

impl View for AnonymousSchemaBsvHeader {
    type V = HeaderView;

    open spec fn view(&self) -> HeaderView {
        HeaderView {
            size: self.size,
            row_count: self.row_count,
            max_row_size: self.max_row_size,
            schema_version: self.schema_version,
            schema_count: self.schema_count,
            schemas: self.schemas@,
        }
    }
}

/// Reading `n` schemas, one after the other, from the front of `s`; the first
/// that fails ends the reading.
pub open spec fn take_schemas(s: Seq<u8>, n: nat) -> (Result<Seq<Schema>, ErrorView>, Seq<u8>)
    decreases n,
{
    if n == 0 {
        (Ok(Seq::empty()), s)
    } else {
        match take_schemas(s, (n - 1) as nat) {
            (Ok(list), rest) => match take_schema(rest) {
                (Ok(schema), rest2) => (Ok(list.push(schema)), rest2),
                (Err(e), rest2) => (Err(e), rest2),
            },
            (Err(e), rest) => (Err(e), rest),
        }
    }
}

/// The header that the bytes `body` describe: the row count, the largest row
/// size, the schema version and the schema count, as variable-length
/// quantities, followed by the schemas. What follows them is not read.
pub open spec fn header_from_body(size: u16, body: Seq<u8>) -> Result<HeaderView, ErrorView> {
    match take_vlq(body, 8) {
        (Ok(row_count), b1) => match take_vlq(b1, 8) {
            (Ok(max_row_size), b2) => match take_vlq(b2, 4) {
                (Ok(version), b3) => match take_vlq(b3, 4) {
                    (Ok(count), b4) => match take_schemas(b4, (count as u32) as nat).0 {
                        Ok(schemas) => Ok(
                            HeaderView {
                                size,
                                row_count,
                                max_row_size,
                                schema_version: version as u32,
                                schema_count: count as u32,
                                schemas,
                            },
                        ),
                        Err(e) => Err(e),
                    },
                    (Err(e), _) => Err(ErrorView::IoError(e)),
                },
                (Err(e), _) => Err(ErrorView::IoError(e)),
            },
            (Err(e), _) => Err(ErrorView::IoError(e)),
        },
        (Err(e), _) => Err(ErrorView::IoError(e)),
    }
}

/// Reading a header from the front of `s`: its size as a big-endian `u16`,
/// then that many bytes, which describe it.
pub open spec fn take_header(s: Seq<u8>) -> (Result<HeaderView, ErrorView>, Seq<u8>) {
    match take_u16_be(s) {
        (Ok(size), rest) => match take_bytes(rest, size as nat) {
            (Ok(body), rest2) => (header_from_body(size, body), rest2),
            (Err(e), rest2) => (Err(ErrorView::IoError(e)), rest2),
        },
        (Err(e), rest) => (Err(ErrorView::IoError(e)), rest),
    }
}

/// The row count of a header is the first variable-length quantity of its
/// body, of up to 8 bytes, and the rest of the header does not depend on it:
/// where `p` is such a quantity (each byte but the last with its high bit set,
/// the last with it clear), the body `p + rest` reads as the body `[0] + rest`
/// (a row count of 0) does, but with the whole number that `p` writes as the
/// row count.
pub proof fn lemma_row_count_field(size: u16, p: Seq<u8>, rest: Seq<u8>)
    requires
        1 <= p.len() <= 8,
        forall|j: int| 0 <= j < p.len() - 1 ==> #[trigger] p[j] >= 0x80,
        p[p.len() - 1] < 0x80,
    ensures
        vlq_value(p) <= u64::MAX,
        header_from_body(size, p + rest) == match header_from_body(size, seq![0u8] + rest) {
            Ok(h) => Ok(
                HeaderView {
                    size: h.size,
                    row_count: vlq_value(p) as u64,
                    max_row_size: h.max_row_size,
                    schema_version: h.schema_version,
                    schema_count: h.schema_count,
                    schemas: h.schemas,
                },
            ),
            Err(e) => Err::<HeaderView, ErrorView>(e),
        },
{
    let s = p + rest;
    let z = seq![0u8] + rest;
    assert forall|j: int| 0 <= j < p.len() - 1 implies #[trigger] s[j] >= 0x80 by {
        assert(s[j] == p[j]);
    }
    assert(s[p.len() - 1] == p[p.len() - 1]);
    lemma_vlq_read(s, p.len(), 8);
    assert(s.take(p.len() as int) =~= p);
    assert(s.skip(p.len() as int) =~= rest);
    lemma_vlq_read(z, 1, 8);
    assert(z.take(1) =~= seq![0u8]);
    assert(seq![0u8].drop_last() =~= Seq::<u8>::empty());
    assert(seq![0u8].last() == 0u8);
    assert(vlq_value(Seq::<u8>::empty()) == 0);
    assert(vlq_value(seq![0u8]) == vlq_value(seq![0u8].drop_last()) * 128 + seq![0u8].last() % 128);
    assert(vlq_value(seq![0u8]) == 0);
    assert(z.skip(1) =~= rest);
    lemma_pow128_values();
    lemma_pow128_le(p.len(), 8);
}

/// The body of a header is four variable-length quantities, the row count and
/// the largest row size of up to 8 bytes each and the schema version and the
/// schema count of up to 4 bytes each, followed by as many schemas as the
/// count says: where the body is laid out so, the header holds those four
/// whole numbers and the schemas that follow, or the error of the first schema
/// that fails to read.
pub proof fn lemma_header_layout(
    size: u16,
    rows: Seq<u8>,
    max_row: Seq<u8>,
    version: Seq<u8>,
    count: Seq<u8>,
    rest: Seq<u8>,
)
    requires
        is_vlq(rows) && rows.len() <= 8,
        is_vlq(max_row) && max_row.len() <= 8,
        is_vlq(version) && version.len() <= 4,
        is_vlq(count) && count.len() <= 4,
    ensures
        vlq_value(rows) <= u64::MAX,
        vlq_value(max_row) <= u64::MAX,
        vlq_value(version) <= u32::MAX,
        vlq_value(count) <= u32::MAX,
        header_from_body(size, rows + max_row + version + count + rest) == match take_schemas(
            rest,
            vlq_value(count),
        ).0 {
            Ok(schemas) => Ok(
                HeaderView {
                    size,
                    row_count: vlq_value(rows) as u64,
                    max_row_size: vlq_value(max_row) as u64,
                    schema_version: vlq_value(version) as u32,
                    schema_count: vlq_value(count) as u32,
                    schemas,
                },
            ),
            Err(e) => Err::<HeaderView, ErrorView>(e),
        },
{
    let t3 = count + rest;
    let t2 = version + t3;
    let t1 = max_row + t2;
    assert(rows + max_row + version + count + rest =~= rows + t1);
    lemma_vlq_prefix(rows, t1, 8);
    lemma_vlq_prefix(max_row, t2, 8);
    lemma_vlq_prefix(version, t3, 4);
    lemma_vlq_prefix(count, rest, 4);
    lemma_pow128_values();
    lemma_pow128_le(rows.len(), 8);
    lemma_pow128_le(max_row.len(), 8);
    lemma_pow128_le(version.len(), 4);
    lemma_pow128_le(count.len(), 4);
}

/// Where reading the first `k` schemas fails, reading `n >= k` fails in the
/// same way.
proof fn lemma_take_schemas_err(s: Seq<u8>, k: nat, n: nat)
    requires
        k <= n,
        take_schemas(s, k).0 is Err,
    ensures
        take_schemas(s, n) == take_schemas(s, k),
    decreases n - k,
{
    if k < n {
        lemma_take_schemas_err(s, k, (n - 1) as nat);
    }
}

impl AnonymousSchemaBsvHeader {
    /// Reads a header: its size as a big-endian `u16`, then that many bytes,
    /// which describe it.
    pub fn from_reader<R: ReadExt>(reader: &mut R) -> (r: Result<Self, Error>)
        ensures
            (crate::error::outcome(r), final(reader).unread()) == take_header(old(reader).unread()),
    {
        let size = match reader.read_u16_be() {
            Ok(size) => size,
            Err(e) => return Err(Error::IoError(e)),
        };
        let buffer = match reader.read_exact(size as usize) {
            Ok(b) => b,
            Err(e) => return Err(Error::IoError(e)),
        };
        let ghost body = buffer@;
        let mut inner = ByteReader::new(buffer);
        let row_count = match inner.read_vlq(8) {
            Ok(v) => v,
            Err(e) => return Err(Error::IoError(e)),
        };
        let max_row_size = match inner.read_vlq(8) {
            Ok(v) => v,
            Err(e) => return Err(Error::IoError(e)),
        };
        let schema_version = match inner.read_vlq(4) {
            Ok(v) => v as u32,
            Err(e) => return Err(Error::IoError(e)),
        };
        let schema_count = match inner.read_vlq(4) {
            Ok(v) => v as u32,
            Err(e) => return Err(Error::IoError(e)),
        };
        let ghost b4 = inner.unread();
        let ghost done = |schemas: Seq<Schema>|
            HeaderView {
                size,
                row_count,
                max_row_size,
                schema_version,
                schema_count,
                schemas,
            };
        assert(header_from_body(size, body) == match take_schemas(b4, schema_count as nat).0 {
            Ok(l) => Ok(done(l)),
            Err(e) => Err::<HeaderView, ErrorView>(e),
        });
        let mut schemas: Vec<Schema> = Vec::new();
        let mut k: u32 = 0;
        while k < schema_count
            invariant
                take_header(old(reader).unread()) == (header_from_body(size, body), reader.unread()),
                header_from_body(size, body) == match take_schemas(b4, schema_count as nat).0 {
                    Ok(l) => Ok(done(l)),
                    Err(e) => Err::<HeaderView, ErrorView>(e),
                },
                k <= schema_count,
                take_schemas(b4, k as nat) == (Ok::<Seq<Schema>, ErrorView>(schemas@), inner.unread()),
            decreases schema_count - k,
        {
            match Schema::parse(&mut inner) {
                Ok(schema) => schemas.push(schema),
                Err(e) => {
                    proof {
                        lemma_take_schemas_err(b4, (k + 1) as nat, schema_count as nat);
                    }
                    return Err(e);
                },
            }
            k = k + 1;
        }
        Ok(
            AnonymousSchemaBsvHeader {
                size,
                row_count,
                max_row_size,
                schema_version,
                schema_count,
                schemas,
            },
        )
    }
}

/// Reading the start of BSV data from the front of `s`: the magic byte, a
/// format byte whose low four bits must be 1 (schemas stand in the header),
/// and the header.
pub open spec fn take_start(s: Seq<u8>) -> (Result<HeaderView, ErrorView>, Seq<u8>) {
    match take_bytes(s, 2) {
        (Ok(b), rest) => if b[0] != MAGIC {
            (Err(ErrorView::InvalidMagic), rest)
        } else if b[1] & 0xf != 1 {
            (Err(ErrorView::Unimplemented("apriori BSV"@)), rest)
        } else {
            take_header(rest)
        },
        (Err(e), rest) => (Err(ErrorView::IoError(e)), rest),
    }
}

/// Reading one row from the front of `s`: a value for each schema, in order;
/// the first that fails ends the reading.
pub open spec fn take_row(schemas: Seq<Schema>, s: Seq<u8>) -> (
    Result<Seq<ValueView>, ErrorView>,
    Seq<u8>,
)
    decreases schemas.len(),
{
    if schemas.len() == 0 {
        (Ok(Seq::empty()), s)
    } else {
        match take_row(schemas.drop_last(), s) {
            (Ok(values), rest) => match take_value(schemas.last(), rest) {
                (Ok(v), rest2) => (Ok(values.push(v)), rest2),
                (Err(e), rest2) => (Err(e), rest2),
            },
            (Err(e), rest) => (Err(e), rest),
        }
    }
}

/// Where reading the values of the first `k` schemas fails, reading the whole
/// row fails in the same way.
proof fn lemma_take_row_err(schemas: Seq<Schema>, s: Seq<u8>, k: nat)
    requires
        k <= schemas.len(),
        take_row(schemas.take(k as int), s).0 is Err,
    ensures
        take_row(schemas, s) == take_row(schemas.take(k as int), s),
    decreases schemas.len() - k,
{
    if k < schemas.len() {
        assert(schemas.drop_last().take(k as int) =~= schemas.take(k as int));
        lemma_take_row_err(schemas.drop_last(), s, k);
    } else {
        assert(schemas.take(k as int) =~= schemas);
    }
}

/// Reading `n` schemas gives `n` of them, each well-formed.
pub proof fn lemma_schemas_well_formed(s: Seq<u8>, n: nat)
    ensures
        take_schemas(s, n).0 matches Ok(list) ==> list.len() == n && forall|i: int|
            0 <= i < n ==> (#[trigger] list[i]).well_formed(),
    decreases n,
{
    if n > 0 {
        lemma_schemas_well_formed(s, (n - 1) as nat);
        lemma_parsed_schema_well_formed(take_schemas(s, (n - 1) as nat).1);
    }
}

/// A header that reads holds as many schemas as it declares, each
/// well-formed, and reading it takes exactly the two size bytes and the size
/// that they give, whatever the bytes inside describe.
pub proof fn lemma_header_well_formed(s: Seq<u8>)
    ensures
        take_header(s).0 matches Ok(h) ==> {
            &&& h.schemas.len() == h.schema_count
            &&& forall|i: int| 0 <= i < h.schemas.len() ==> (#[trigger] h.schemas[i]).well_formed()
            &&& take_header(s).1 == s.skip(2 + h.size)
        },
{
    if let (Ok(size), rest) = take_u16_be(s) {
        if let (Ok(body), rest2) = take_bytes(rest, size as nat) {
            assert(rest2 =~= s.skip(2 + size));
            if let (Ok(row_count), b1) = take_vlq(body, 8) {
                if let (Ok(max_row_size), b2) = take_vlq(b1, 8) {
                    if let (Ok(version), b3) = take_vlq(b2, 4) {
                        if let (Ok(count), b4) = take_vlq(b3, 4) {
                            lemma_schemas_well_formed(b4, (count as u32) as nat);
                        }
                    }
                }
            }
        }
    }
}

/// A row that reads holds a value for each schema, of that schema's type.
pub proof fn lemma_row_matches_schemas(schemas: Seq<Schema>, s: Seq<u8>)
    ensures
        take_row(schemas, s).0 matches Ok(values) ==> {
            &&& values.len() == schemas.len()
            &&& forall|i: int|
                0 <= i < schemas.len() ==> (#[trigger] values[i]).value_type()
                    == schemas[i].value_type
        },
    decreases schemas.len(),
{
    if schemas.len() > 0 {
        lemma_row_matches_schemas(schemas.drop_last(), s);
        lemma_value_has_schema_type(schemas.last(), take_row(schemas.drop_last(), s).1);
    }
}

/// Reading a row of well-formed schemas never fails with `InvalidSchema`.
pub proof fn lemma_row_never_invalid_schema(schemas: Seq<Schema>, s: Seq<u8>)
    requires
        forall|i: int| 0 <= i < schemas.len() ==> (#[trigger] schemas[i]).well_formed(),
    ensures
        !(take_row(schemas, s).0 matches Err(ErrorView::InvalidSchema)),
    decreases schemas.len(),
{
    if schemas.len() > 0 {
        assert(schemas.last() == schemas[schemas.len() - 1]);
        lemma_row_never_invalid_schema(schemas.drop_last(), s);
        lemma_well_formed_schema_is_readable(
            schemas.last(),
            take_row(schemas.drop_last(), s).1,
        );
    }
}

/// Reading the rows that are left either reads all of them, each with a value
/// per schema, and leaves the reader as it was as to being broken, or fails
/// and leaves it broken.
pub proof fn lemma_rows_all_or_broken(
    schemas: Seq<Schema>,
    remaining: nat,
    broken: bool,
    s: Seq<u8>,
)
    ensures
        ({
            let (res, _, k, broken_after) = take_rows(schemas, remaining, broken, s);
            &&& res matches Ok(rows) ==> {
                &&& rows.len() == remaining
                &&& k == remaining
                &&& forall|i: int| 0 <= i < remaining ==> (#[trigger] rows[i]).len() == schemas.len()
                &&& (remaining == 0 ==> broken_after == broken)
                &&& (remaining > 0 ==> !broken_after)
            }
            &&& res is Err ==> broken_after
        }),
    decreases remaining,
{
    if remaining > 0 && !broken {
        lemma_row_matches_schemas(schemas, s);
        lemma_rows_all_or_broken(schemas, (remaining - 1) as nat, false, take_row(schemas, s).1);
        if let (Ok(row), s2) = take_row(schemas, s) {
            if let (Ok(rows), s3, k, b) = take_rows(schemas, (remaining - 1) as nat, false, s2) {
                assert forall|i: int| 0 <= i < remaining implies (#[trigger] (seq![row]
                    + rows)[i]).len() == schemas.len() by {
                    if i > 0 {
                        assert((seq![row] + rows)[i] == rows[i - 1]);
                    }
                }
            }
        }
    }
}

/// The values of a row, as contracts speak of them.
pub open spec fn row_view(row: Vec<Value>) -> Seq<ValueView> {
    row@.map_values(|v: Value| v@)
}

/// What reading the rest of the rows gives back, where `remaining` rows are
/// left to read and `broken` says whether an earlier read failed: the rows,
/// or the first error; then the bytes left, the number of rows read, and
/// whether the reader is broken afterwards.
pub open spec fn take_rows(schemas: Seq<Schema>, remaining: nat, broken: bool, s: Seq<u8>) -> (
    Result<Seq<Seq<ValueView>>, ErrorView>,
    Seq<u8>,
    nat,
    bool,
)
    decreases remaining,
{
    if remaining == 0 {
        (Ok(Seq::empty()), s, 0, broken)
    } else if broken {
        (Err(ErrorView::BrokenReader), s, 0, true)
    } else {
        match take_row(schemas, s) {
            (Ok(row), s2) => match take_rows(schemas, (remaining - 1) as nat, false, s2) {
                (Ok(rows), s3, k, b) => (Ok(seq![row] + rows), s3, k + 1, b),
                (Err(e), s3, k, b) => (Err(e), s3, k + 1, b),
            },
            (Err(e), s2) => (Err(e), s2, 0, true),
        }
    }
}

/// The rows of `rows`, as contracts speak of them.
pub open spec fn rows_view(rows: Vec<Vec<Value>>) -> Seq<Seq<ValueView>> {
    rows@.map_values(|row: Vec<Value>| row_view(row))
}

/// `done`, `n` rows that were read already, put in front of what reading the
/// rest gave back.
pub open spec fn after_rows(
    done: Seq<Seq<ValueView>>,
    n: nat,
    rest: (Result<Seq<Seq<ValueView>>, ErrorView>, Seq<u8>, nat, bool),
) -> (Result<Seq<Seq<ValueView>>, ErrorView>, Seq<u8>, nat, bool) {
    (
        match rest.0 {
            Ok(rows) => Ok(done + rows),
            Err(e) => Err(e),
        },
        rest.1,
        rest.2 + n,
        rest.3,
    )
}

/// Reads BSV data whose schemas stand in its header, one row at a time, from
/// a byte source that it borrows.
pub struct BsvReader<'a, R: ReadExt> {
    reader: &'a mut R,
    header: AnonymousSchemaBsvHeader,
    row_index: u64,
    row_buffer: Vec<Value>,
    broken: bool,
}

impl<'a, R: ReadExt> BsvReader<'a, R> {
    /// The bytes that have not been read yet.
    pub closed spec fn unread(&self) -> Seq<u8> {
        (*self.reader).unread()
    }

    /// The borrowed byte source: what the lender has back is what this
    /// reference holds when the reader is done with it.
    pub closed spec fn source(&self) -> &'a mut R {
        self.reader
    }

    /// Once the reader is done with its byte source, the source holds what the
    /// reader has not read: the lender has back a source positioned after the
    /// rows that were read.
    pub proof fn lemma_source_when_done(&self)
        requires
            has_resolved(*self),
        ensures
            (*final(self.source())).unread() == self.unread(),
    {
    }

    /// The header, as read when the reader was made.
    pub closed spec fn header_view(&self) -> HeaderView {
        self.header@
    }

    /// The number of rows read so far.
    pub closed spec fn rows_read(&self) -> u64 {
        self.row_index
    }

    /// Whether a read failed in the middle of a row.
    pub closed spec fn is_broken(&self) -> bool {
        self.broken
    }

    /// No more rows have been read than the header declares, and each schema
    /// holds a fixed size exactly where its type has one.
    pub closed spec fn wf(&self) -> bool {
        &&& self.row_index <= self.header.row_count
        &&& forall|i: int|
            0 <= i < self.header.schemas@.len() ==> (#[trigger] self.header.schemas@[i]).well_formed()
    }

    /// Reads the start of BSV data from `reader`: the magic byte, the format
    /// byte and the header. On success the reader keeps `reader` borrowed and
    /// reads the rows from it; on failure `reader` is left after what was read.
    pub fn new(reader: &'a mut R) -> (r: Result<Self, Error>)
        ensures
            r matches Ok(bsv) ==> {
                &&& take_start(old(reader).unread()) == (
                    Ok::<HeaderView, ErrorView>(bsv.header_view()),
                    bsv.unread(),
                )
                &&& *final(reader) == *final(bsv.source())
                &&& bsv.rows_read() == 0
                &&& !bsv.is_broken()
                &&& bsv.wf()
            },
            r matches Err(e) ==> take_start(old(reader).unread()) == (
                Err::<HeaderView, ErrorView>(e@),
                final(reader).unread(),
            ),
    {
        let buffer = match reader.read_exact(2) {
            Ok(b) => b,
            Err(e) => return Err(Error::IoError(e)),
        };
        let magic = buffer[0];
        let bsv_format = buffer[1];
        if magic != MAGIC {
            return Err(Error::InvalidMagic);
        }
        if bsv_format & 0xf != 1 {
            return Err(Error::Unimplemented("apriori BSV"));
        }
        let ghost rest = reader.unread();
        let header = match AnonymousSchemaBsvHeader::from_reader(reader) {
            Ok(h) => h,
            Err(e) => return Err(e),
        };
        proof {
            lemma_header_well_formed(rest);
        }
        let row_buffer = Vec::with_capacity(header.schemas.len());
        Ok(BsvReader { reader, header, row_index: 0, row_buffer, broken: false })
    }

    /// The header.
    pub fn header(&self) -> (r: &AnonymousSchemaBsvHeader)
        ensures
            r@ == self.header_view(),
    {
        &self.header
    }

    /// Reads the next row: `None` once the header's row count has been read;
    /// `BrokenReader` once a read has failed in the middle of a row.
    pub fn next(&mut self) -> (r: Result<Option<&Vec<Value>>, Error>)
        requires
            old(self).wf(),
        ensures
            final(self).wf(),
            final(self).header_view() == old(self).header_view(),
            *final(final(self).source()) == *final(old(self).source()),
            r matches Err(e) ==> !(e@ matches ErrorView::InvalidSchema),
            old(self).rows_read() == old(self).header_view().row_count ==> {
                &&& r matches Ok(None)
                &&& final(self).unread() == old(self).unread()
                &&& final(self).rows_read() == old(self).rows_read()
                &&& final(self).is_broken() == old(self).is_broken()
            },
            old(self).rows_read() != old(self).header_view().row_count && old(self).is_broken() ==> {
                &&& r matches Err(e) && e@ == ErrorView::BrokenReader
                &&& final(self).unread() == old(self).unread()
                &&& final(self).rows_read() == old(self).rows_read()
                &&& final(self).is_broken()
            },
            old(self).rows_read() != old(self).header_view().row_count && !old(self).is_broken() ==> {
                let (res, rest) = take_row(old(self).header_view().schemas, old(self).unread());
                &&& final(self).unread() == rest
                &&& res matches Ok(values) ==> {
                    &&& r matches Ok(Some(row)) && row_view(*row) == values
                    &&& final(self).rows_read() == old(self).rows_read() + 1
                    &&& !final(self).is_broken()
                }
                &&& res matches Err(err) ==> {
                    &&& r matches Err(e) && e@ == err
                    &&& final(self).rows_read() == old(self).rows_read()
                    &&& final(self).is_broken()
                }
            },
    {
        if self.row_index == self.header.row_count {
            return Ok(None);
        }
        if self.broken {
            return Err(Error::BrokenReader);
        }
        self.row_buffer.clear();
        let ghost schemas = self.header.schemas@;
        let ghost s0 = (*self.reader).unread();
        let n = self.header.schemas.len();
        let mut i: usize = 0;
        assert(schemas.take(0) =~= Seq::<Schema>::empty());
        assert(row_view(self.row_buffer) =~= Seq::<ValueView>::empty());
        while i < n
            invariant
                self.header == old(self).header,
                self.row_index == old(self).row_index,
                self.row_index < self.header.row_count,
                !self.broken,
                !old(self).broken,
                old(self).wf(),
                *final(self.reader) == *final(old(self).reader),
                s0 == (*old(self).reader).unread(),
                n == self.header.schemas.len(),
                schemas == self.header.schemas@,
                i <= n,
                take_row(schemas.take(i as int), s0) == (
                    Ok::<Seq<ValueView>, ErrorView>(row_view(self.row_buffer)),
                    (*self.reader).unread(),
                ),
            decreases n - i,
        {
            let schema = self.header.schemas[i];
            assert(schemas.take(i + 1).drop_last() =~= schemas.take(i as int));
            match schema.read_value(self.reader) {
                Ok(v) => {
                    let ghost prev = row_view(self.row_buffer);
                    self.row_buffer.push(v);
                    assert(row_view(self.row_buffer) =~= prev.push(v@));
                },
                Err(e) => {
                    self.broken = true;
                    proof {
                        lemma_take_row_err(schemas, s0, (i + 1) as nat);
                        lemma_row_never_invalid_schema(schemas, s0);
                    }
                    return Err(e);
                },
            }
            i = i + 1;
        }
        assert(schemas.take(n as int) =~= schemas);
        self.row_index = self.row_index + 1;
        Ok(Some(&self.row_buffer))
    }

    /// Reads all the rows that are left, up to the header's row count, or
    /// gives back the first error.
    pub fn read_all(&mut self) -> (r: Result<Vec<Vec<Value>>, Error>)
        requires
            old(self).wf(),
        ensures
            final(self).wf(),
            final(self).header_view() == old(self).header_view(),
            *final(final(self).source()) == *final(old(self).source()),
            ({
                let (res, rest, k, broken) = take_rows(
                    old(self).header_view().schemas,
                    (old(self).header_view().row_count - old(self).rows_read()) as nat,
                    old(self).is_broken(),
                    old(self).unread(),
                );
                &&& final(self).unread() == rest
                &&& final(self).rows_read() == old(self).rows_read() + k
                &&& final(self).is_broken() == broken
                &&& res matches Ok(rows) ==> r matches Ok(v) && rows_view(v) == rows
                &&& res matches Err(err) ==> r matches Err(e) && e@ == err
            }),
            r is Ok ==> final(self).rows_read() == final(self).header_view().row_count,
    {
        let ghost schemas = self.header.schemas@;
        let ghost total = take_rows(
            schemas,
            (self.header.row_count - self.row_index) as nat,
            self.broken,
            (*self.reader).unread(),
        );
        let mut rows: Vec<Vec<Value>> = Vec::new();
        assert(rows_view(rows) =~= Seq::<Seq<ValueView>>::empty());
        assert(total == after_rows(rows_view(rows), 0, total));
        loop
            invariant
                self.wf(),
                self.header@ == old(self).header@,
                *final(self.reader) == *final(old(self).reader),
                schemas == self.header.schemas@,
                old(self).row_index <= self.row_index,
                total == take_rows(
                    schemas,
                    (old(self).header.row_count - old(self).row_index) as nat,
                    old(self).broken,
                    (*old(self).reader).unread(),
                ),
                total == after_rows(
                    rows_view(rows),
                    (self.row_index - old(self).row_index) as nat,
                    take_rows(
                        schemas,
                        (self.header.row_count - self.row_index) as nat,
                        self.broken,
                        (*self.reader).unread(),
                    ),
                ),
            decreases self.header.row_count - self.row_index,
        {
            let ghost before = take_rows(
                schemas,
                (self.header.row_count - self.row_index) as nat,
                self.broken,
                (*self.reader).unread(),
            );
            let ghost done = rows_view(rows);
            match self.next() {
                Ok(Some(row)) => {
                    let copy = row.clone();
                    assert(row_view(copy) =~= row_view(*row));
                    rows.push(copy);
                    assert(rows_view(rows) =~= done.push(row_view(*row)));
                    assert(done.push(row_view(*row)) + take_rows(
                        schemas,
                        (self.header.row_count - self.row_index) as nat,
                        self.broken,
                        (*self.reader).unread(),
                    ).0->Ok_0 =~= done + (seq![row_view(*row)] + take_rows(
                        schemas,
                        (self.header.row_count - self.row_index) as nat,
                        self.broken,
                        (*self.reader).unread(),
                    ).0->Ok_0));
                },
                Ok(None) => {
                    assert(done + Seq::<Seq<ValueView>>::empty() =~= done);
                    proof {
                        lemma_rows_all_or_broken(
                            schemas,
                            (old(self).header.row_count - old(self).row_index) as nat,
                            old(self).broken,
                            (*old(self).reader).unread(),
                        );
                    }
                    return Ok(rows);
                },
                Err(e) => {
                    return Err(e);
                },
            }
        }
    }
}

} // verus!
