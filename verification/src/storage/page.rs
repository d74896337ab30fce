use vstd::prelude::*;

use vstd::string::StringExecFns;

use crate::data::_type::Type;
use crate::data::object::Object;
use crate::data::object::sum_size_in_bytes;
use crate::num::be_val;
use crate::num::signed_val;
use crate::render::lossy_decoded;
use crate::render::spec_sdec;
use crate::render::spec_udec;
use crate::render::trim_zeros;
use crate::render::u128_to_decimal;
use crate::storage::line::Line;
use crate::storage::line::spec_render_entries;
use crate::storage::line::spec_render_line;
use crate::storage::value::Value;

verus! {

/// Why a page operation was refused.  Every failure is reported to the
/// caller; no operation aborts the process.
#[derive(Clone, Copy, Debug, PartialEq, Eq, Structural)]
pub enum PageError {
    /// A read asked for a record index beyond the page's recorded total.
    OutOfRange,
    /// The byte image is too short to hold the requested record.
    TruncatedRecord,
    /// A line's entries do not match the schema's fields one for one.
    SchemaMismatch,
    /// A text value is longer than its field's declared length.
    ValueTooLarge,
}

/// `n` zero bytes.
pub open spec fn zero_bytes(n: int) -> Seq<u8> {
    Seq::new(n as nat, |i: int| 0u8)
}

/// The bytes one value occupies in a record laid out for a field of type
/// `t`: its raw bytes, zero-padded to the declared length for a text field.
pub open spec fn spec_field_bytes(v: Value, t: Type) -> Seq<u8> {
    match (v, t) {
        (Value::String(b), Type::String(length)) => b@ + zero_bytes(length - b@.len()),
        _ => v.spec_bytes(),
    }
}

/// The byte offset of field `i` within a record: the sum of the widths of
/// the fields before it.
pub open spec fn spec_field_offset(fields: Seq<(String, Type)>, i: int) -> int {
    sum_size_in_bytes(fields.take(i))
}

/// The byte offset of record `index` within a page: records are laid out
/// back-to-back, so the stride is the schema's record byte width.
pub open spec fn spec_record_offset(fields: Seq<(String, Type)>, index: int) -> int {
    index * sum_size_in_bytes(fields)
}

/// Whether a line's entries match a schema variant for variant.
pub open spec fn line_matches_schema(
    entries: Seq<(String, Value)>,
    fields: Seq<(String, Type)>,
) -> bool {
    &&& entries.len() == fields.len()
    &&& forall|i: int|
        0 <= i < fields.len() ==> (#[trigger] entries[i]).1.matches_type(fields[i].1)
}

/// Whether a line's entries match a schema and every text value is no longer
/// than its field's declared length.
pub open spec fn line_fits_schema(
    entries: Seq<(String, Value)>,
    fields: Seq<(String, Type)>,
) -> bool {
    &&& entries.len() == fields.len()
    &&& forall|i: int| 0 <= i < fields.len() ==> (#[trigger] entries[i]).1.fits_type(fields[i].1)
}

/// The encoding of a line's first `i` entries, laid out back-to-back.
pub open spec fn spec_encode_prefix(
    entries: Seq<(String, Value)>,
    fields: Seq<(String, Type)>,
    i: int,
) -> Seq<u8>
    decreases i,
{
    if i <= 0 || i > fields.len() {
        Seq::empty()
    } else {
        spec_encode_prefix(entries, fields, i - 1) + spec_field_bytes(
            entries[i - 1].1,
            fields[i - 1].1,
        )
    }
}

/// The encoding of a whole line against a schema: each entry's bytes in
/// declaration order, text fields zero-padded to their declared length.
pub open spec fn spec_encode(entries: Seq<(String, Value)>, fields: Seq<(String, Type)>) -> Seq<
    u8,
> {
    spec_encode_prefix(entries, fields, fields.len() as int)
}

/// The length of a byte image after a record is written at an offset.
pub open spec fn spec_write_len(data_len: int, off: int, rec_len: int) -> int {
    if data_len >= off + rec_len {
        data_len
    } else {
        off + rec_len
    }
}

/// A byte image after a record is written at an offset: the record's bytes
/// land at `[off, off + rec.len())`, bytes outside that range keep their old
/// values, and any gap between the old end and the offset is zero-filled.
pub open spec fn spec_write_at(data: Seq<u8>, off: int, rec: Seq<u8>) -> Seq<u8> {
    Seq::new(
        spec_write_len(data.len() as int, off, rec.len() as int) as nat,
        |j: int|
            if off <= j < off + rec.len() {
                rec[j - off]
            } else if j < data.len() {
                data[j]
            } else {
                0u8
            },
    )
}

/// The displayable form of one field decoded from its raw record bytes.
pub open spec fn spec_field_render(t: Type, raw: Seq<u8>) -> Seq<char> {
    match t {
        Type::UInt8 => spec_udec(be_val(raw)),
        Type::UInt16 => spec_udec(be_val(raw)),
        Type::UInt32 => spec_udec(be_val(raw)),
        Type::UInt64 => spec_udec(be_val(raw)),
        Type::UInt128 => spec_udec(be_val(raw)),
        Type::Int8 => spec_sdec(signed_val(raw)),
        Type::Int16 => spec_sdec(signed_val(raw)),
        Type::Int32 => spec_sdec(signed_val(raw)),
        Type::Int64 => spec_sdec(signed_val(raw)),
        Type::Int128 => spec_sdec(signed_val(raw)),
        Type::String(_) => lossy_decoded(trim_zeros(raw)),
        Type::Bool => if raw[0] != 0 {
            "true"@
        } else {
            "false"@
        },
    }
}

/// The rendering of the fields from `i` on, decoded from a record's bytes.
pub open spec fn spec_decode_render_entries(
    record: Seq<u8>,
    fields: Seq<(String, Type)>,
    i: int,
) -> Seq<char>
    decreases fields.len() - i,
{
    if i < 0 || i >= fields.len() {
        Seq::empty()
    } else {
        let raw = record.subrange(
            spec_field_offset(fields, i),
            spec_field_offset(fields, i) + fields[i].1.spec_size_in_bytes(),
        );
        let entry = fields[i].0@ + ": "@ + spec_field_render(fields[i].1, raw);
        if i + 1 == fields.len() {
            entry
        } else {
            entry + ", "@ + spec_decode_render_entries(record, fields, i + 1)
        }
    }
}

/// The displayable form of a whole record decoded from its bytes.
pub open spec fn spec_read_render(record: Seq<u8>, fields: Seq<(String, Type)>) -> Seq<char> {
    "{"@ + spec_decode_render_entries(record, fields, 0) + "}"@
}

/// The path of a page's backing file.
pub open spec fn spec_page_path(name: Seq<char>, index: int) -> Seq<char> {
    "pages/"@ + name + "-"@ + spec_udec(index) + ".page"@
}

pub proof fn lemma_field_offset_step(fields: Seq<(String, Type)>, i: int)
    requires
        0 <= i < fields.len(),
    ensures
        spec_field_offset(fields, i + 1) == spec_field_offset(fields, i)
            + fields[i].1.spec_size_in_bytes(),
{
    assert(fields.take(i + 1).drop_last() =~= fields.take(i));
    assert(fields.take(i + 1).last() == fields[i]);
}

pub proof fn lemma_field_offset_bounds(fields: Seq<(String, Type)>, i: int)
    requires
        0 <= i <= fields.len(),
    ensures
        0 <= spec_field_offset(fields, i),
        spec_field_offset(fields, i) + sum_size_in_bytes(fields.skip(i)) == sum_size_in_bytes(
            fields,
        ),
        sum_size_in_bytes(fields.skip(i)) >= 0,
    decreases fields.len() - i,
{
    crate::data::object::lemma_sum_nonneg(fields.take(i));
    crate::data::object::lemma_sum_nonneg(fields.skip(i));
    if i == fields.len() {
        assert(fields.take(i) =~= fields);
        assert(fields.skip(i) =~= Seq::<(String, Type)>::empty());
    } else {
        lemma_field_offset_bounds(fields, i + 1);
        lemma_field_offset_step(fields, i);
        assert(fields.skip(i).drop_first() =~= fields.skip(i + 1));
        lemma_sum_first_rest(fields.skip(i));
    }
}

/// A non-empty field list's width is its first field's plus the rest's.
proof fn lemma_sum_first_rest(fields: Seq<(String, Type)>)
    requires
        fields.len() > 0,
    ensures
        sum_size_in_bytes(fields) == fields[0].1.spec_size_in_bytes() + sum_size_in_bytes(
            fields.drop_first(),
        ),
    decreases fields.len(),
{
    if fields.len() == 1 {
        assert(fields.drop_last() =~= Seq::<(String, Type)>::empty());
        assert(fields.drop_first() =~= Seq::<(String, Type)>::empty());
    } else {
        lemma_sum_first_rest(fields.drop_last());
        assert(fields.drop_last().drop_first() =~= fields.drop_first().drop_last());
        assert(fields.drop_last()[0] == fields[0]);
        assert(fields.drop_first().last() == fields.last());
    }
}

/// The byte offsets of two consecutive records differ by exactly the
/// schema's record byte width.
pub proof fn lemma_record_offset_law(fields: Seq<(String, Type)>, index: int)
    ensures
        spec_record_offset(fields, index + 1) == spec_record_offset(fields, index)
            + sum_size_in_bytes(fields),
{
    assert((index + 1) * sum_size_in_bytes(fields) == index * sum_size_in_bytes(fields)
        + sum_size_in_bytes(fields)) by (nonlinear_arith);
}

/// A value that fits its field occupies exactly the field's byte width.
proof fn lemma_field_bytes_len(v: Value, t: Type)
    requires
        v.fits_type(t),
    ensures
        spec_field_bytes(v, t).len() == t.spec_size_in_bytes(),
{
}

/// The encoding of the first `i` entries is exactly as long as the offset of
/// field `i`.
proof fn lemma_encode_prefix_len(
    entries: Seq<(String, Value)>,
    fields: Seq<(String, Type)>,
    i: int,
)
    requires
        line_fits_schema(entries, fields),
        0 <= i <= fields.len(),
    ensures
        spec_encode_prefix(entries, fields, i).len() == spec_field_offset(fields, i),
    decreases i,
{
    if i == 0 {
        assert(fields.take(0) =~= Seq::<(String, Type)>::empty());
    } else {
        lemma_encode_prefix_len(entries, fields, i - 1);
        lemma_field_bytes_len(entries[i - 1].1, fields[i - 1].1);
        lemma_field_offset_step(fields, i - 1);
    }
}

/// A whole encoded record is exactly one record byte width long, and each
/// field's bytes stand at that field's offset.
pub proof fn lemma_encode_layout(
    entries: Seq<(String, Value)>,
    fields: Seq<(String, Type)>,
    i: int,
)
    requires
        line_fits_schema(entries, fields),
        0 <= i < fields.len(),
    ensures
        spec_encode(entries, fields).len() == sum_size_in_bytes(fields),
        spec_encode(entries, fields).subrange(
            spec_field_offset(fields, i),
            spec_field_offset(fields, i) + fields[i].1.spec_size_in_bytes(),
        ) == spec_field_bytes(entries[i].1, fields[i].1),
    decreases fields.len() - i,
{
    lemma_encode_prefix_len(entries, fields, fields.len() as int);
    assert(fields.take(fields.len() as int) =~= fields);
    lemma_encode_between(entries, fields, i, fields.len() as int);
    lemma_encode_prefix_len(entries, fields, i);
    lemma_field_offset_step(fields, i);
    lemma_field_offset_monotonic(fields, i + 1, fields.len() as int);
    lemma_field_offset_bounds(fields, i);
    lemma_field_bytes_len(entries[i].1, fields[i].1);
    let enc = spec_encode_prefix(entries, fields, fields.len() as int);
    let off = spec_field_offset(fields, i);
    let width = fields[i].1.spec_size_in_bytes();
    assert(enc.subrange(off, off + width) =~= spec_field_bytes(entries[i].1, fields[i].1));
}

/// A longer encoding prefix is a shorter one followed by the fields between.
proof fn lemma_encode_between(
    entries: Seq<(String, Value)>,
    fields: Seq<(String, Type)>,
    i: int,
    j: int,
)
    requires
        line_fits_schema(entries, fields),
        0 <= i < j <= fields.len(),
    ensures
        forall|k: int|
            spec_field_offset(fields, i) <= k < spec_field_offset(fields, i)
                + fields[i].1.spec_size_in_bytes() ==> #[trigger] spec_encode_prefix(
                entries,
                fields,
                j,
            )[k] == spec_field_bytes(entries[i].1, fields[i].1)[k - spec_field_offset(fields, i)],
    decreases j,
{
    lemma_encode_prefix_len(entries, fields, j - 1);
    lemma_field_bytes_len(entries[j - 1].1, fields[j - 1].1);
    if i == j - 1 {
    } else {
        lemma_encode_between(entries, fields, i, j - 1);
        lemma_encode_prefix_len(entries, fields, i);
        lemma_field_offset_step(fields, i);
        lemma_field_offset_monotonic(fields, i + 1, j - 1);
    }
}

proof fn lemma_field_offset_monotonic(fields: Seq<(String, Type)>, i: int, j: int)
    requires
        0 <= i <= j <= fields.len(),
    ensures
        spec_field_offset(fields, i) <= spec_field_offset(fields, j),
    decreases j - i,
{
    if i < j {
        lemma_field_offset_monotonic(fields, i + 1, j);
        lemma_field_offset_step(fields, i);
        crate::data::_type::lemma_bytes_le_bits(fields[i].1);
    }
}

/// A value that matches a field type and holds exactly the raw bytes `raw`
/// renders just as the field decoded from `raw` does.
proof fn lemma_value_render_raw(v: Value, t: Type, raw: Seq<u8>)
    requires
        v.matches_type(t),
        v.spec_bytes() == raw,
    ensures
        v.spec_render() == spec_field_render(t, raw),
{
}

/// A line whose entries carry, field for field, the names of a schema and
/// the raw bytes of a record renders exactly as the record decodes.
proof fn lemma_corresponding_render(
    entries: Seq<(String, Value)>,
    record: Seq<u8>,
    fields: Seq<(String, Type)>,
    i: int,
)
    requires
        entries.len() == fields.len(),
        0 <= i <= fields.len(),
        forall|j: int| 0 <= j < fields.len() ==> (#[trigger] entries[j]).0@ == fields[j].0@,
        forall|j: int|
            0 <= j < fields.len() ==> (#[trigger] entries[j]).1.matches_type(fields[j].1),
        forall|j: int|
            0 <= j < fields.len() ==> (#[trigger] entries[j]).1.spec_bytes() == record.subrange(
                spec_field_offset(fields, j),
                spec_field_offset(fields, j) + fields[j].1.spec_size_in_bytes(),
            ),
    ensures
        spec_render_entries(entries, i) == spec_decode_render_entries(record, fields, i),
    decreases fields.len() - i,
{
    if 0 <= i < fields.len() {
        lemma_corresponding_render(entries, record, fields, i + 1);
        lemma_value_render_raw(
            entries[i].1,
            fields[i].1,
            record.subrange(
                spec_field_offset(fields, i),
                spec_field_offset(fields, i) + fields[i].1.spec_size_in_bytes(),
            ),
        );
    }
}

/// Every field type fits in at most 65535 bytes.
proof fn lemma_type_bytes_range(t: Type)
    ensures
        0 <= t.spec_size_in_bytes() <= 0xFFFF,
{
}

/// Round trip: a record written at any record offset lands there intact, and
/// a line of fixed-width (non-text) values, encoded and decoded back, renders
/// field for field exactly as the line itself does.
pub proof fn lemma_write_read_round_trip(
    data: Seq<u8>,
    entries: Seq<(String, Value)>,
    fields: Seq<(String, Type)>,
    index: int,
)
    requires
        line_fits_schema(entries, fields),
        forall|i: int| 0 <= i < fields.len() ==> (#[trigger] entries[i]).0@ == fields[i].0@,
        forall|i: int| 0 <= i < fields.len() ==> !((#[trigger] fields[i]).1 is String),
        index >= 0,
    ensures
        spec_write_at(data, spec_record_offset(fields, index), spec_encode(entries, fields))
            .subrange(
            spec_record_offset(fields, index),
            spec_record_offset(fields, index) + sum_size_in_bytes(fields),
        ) == spec_encode(entries, fields),
        spec_read_render(spec_encode(entries, fields), fields) == spec_render_line(entries),
{
    let off = spec_record_offset(fields, index);
    let enc = spec_encode(entries, fields);
    crate::data::object::lemma_sum_nonneg(fields);
    assert(off >= 0) by (nonlinear_arith)
        requires
            index >= 0,
            sum_size_in_bytes(fields) >= 0,
            off == index * sum_size_in_bytes(fields),
    ;
    lemma_encode_prefix_len(entries, fields, fields.len() as int);
    assert(fields.take(fields.len() as int) =~= fields);
    assert(spec_write_at(data, off, enc).subrange(off, off + sum_size_in_bytes(fields)) =~= enc);

    assert forall|j: int| 0 <= j < fields.len() implies (#[trigger] entries[j]).1.spec_bytes()
        == enc.subrange(
        spec_field_offset(fields, j),
        spec_field_offset(fields, j) + fields[j].1.spec_size_in_bytes(),
    ) by {
        lemma_encode_layout(entries, fields, j);
        assert(spec_field_bytes(entries[j].1, fields[j].1) == entries[j].1.spec_bytes());
    }
    lemma_corresponding_render(entries, enc, fields, 0);
}

/// Padding stays out of the rendering: a text value shorter than its field's
/// declared length, once laid out with its zero padding, still renders as the
/// unpadded value alone, provided the value itself does not end in a zero
/// byte.
pub proof fn lemma_padding_not_rendered(v: Value, t: Type)
    requires
        v.fits_type(t),
        t is String,
        v.spec_bytes().len() == 0 || v.spec_bytes().last() != 0,
    ensures
        spec_field_render(t, spec_field_bytes(v, t)) == v.spec_render(),
{
    let b = v.spec_bytes();
    let padded = spec_field_bytes(v, t);
    lemma_field_bytes_len(v, t);
    lemma_trim_padding(b, padded.len() as int - b.len() as int);
}

/// Trimming trailing zeros undoes zero padding exactly.
proof fn lemma_trim_padding(b: Seq<u8>, pad: int)
    requires
        pad >= 0,
        b.len() == 0 || b.last() != 0,
    ensures
        trim_zeros(b + zero_bytes(pad)) == b,
    decreases pad,
{
    if pad == 0 {
        assert(b + zero_bytes(0) =~= b);
        if b.len() > 0 {
            assert(trim_zeros(b) == b);
        }
    } else {
        let padded = b + zero_bytes(pad);
        assert(padded.last() == 0);
        assert(padded.drop_last() =~= b + zero_bytes(pad - 1));
        lemma_trim_padding(b, pad - 1);
    }
}

/// A single on-disk page: a flat sequence of fixed-width records for one
/// schema, addressed by record index.  Offsets are computed in bytes: every
/// field occupies a whole number of bytes, and the stride between records is
/// the schema's record byte width.  The record count lives only in memory;
/// the byte image itself carries no header or per-record metadata.
pub struct Page<'a> {
    index: usize,
    path: String,
    object: &'a Object<'a>,
    total: u64,
}

impl<'a> Page<'a> {
    pub closed spec fn spec_index(&self) -> usize {
        self.index
    }

    pub closed spec fn spec_path(&self) -> Seq<char> {
        self.path@
    }

    pub closed spec fn spec_object(&self) -> Object<'a> {
        *self.object
    }

    pub closed spec fn spec_total(&self) -> u64 {
        self.total
    }

    pub open spec fn wf(&self) -> bool {
        self.spec_object().wf()
    }

    pub fn new(index: usize, object: &'a Object<'a>, total: u64) -> (r: Self)
        ensures
            r.spec_index() == index,
            r.spec_object() == *object,
            r.spec_total() == total,
            r.spec_path() == spec_page_path(object.spec_name(), index as int),
            object.wf() ==> r.wf(),
    {
        let mut path = String::from_str("pages/");
        path.append(object.name());
        path.append("-");
        let rendered_index = u128_to_decimal(index as u128);
        path.append(rendered_index.as_str());
        path.append(".page");
        proof {
            assert(path@ =~= spec_page_path(object.spec_name(), index as int));
        }

        Self { index, path, object, total }
    }

    /// The path of the page's backing file:
    /// `pages/<schema name>-<page index>.page`.
    pub fn path(&self) -> (r: &str)
        ensures
            r@ == self.spec_path(),
    {
        self.path.as_str()
    }

    /// The count of records the page believes it holds.  It lives only in
    /// memory: a freshly constructed page knows nothing of what its byte
    /// image already holds.
    pub fn total(&self) -> (r: u64)
        ensures
            r == self.spec_total(),
    {
        self.total
    }

    /// Decodes the record at `index` from the page's byte image and renders
    /// it.  An index beyond the recorded total is refused before any offset
    /// is computed; an image too short for the record is refused as
    /// truncated.
    pub fn read(&self, index: u64, data: &Vec<u8>) -> (r: Result<String, PageError>)
        requires
            self.wf(),
        ensures
            ({
                let fields = self.spec_object().spec_fields();
                let off = spec_record_offset(fields, index as int);
                let width = sum_size_in_bytes(fields);
                &&& (r == Err::<String, PageError>(PageError::OutOfRange) <==> index
                    > self.spec_total())
                &&& (r == Err::<String, PageError>(PageError::TruncatedRecord) <==> (index
                    <= self.spec_total() && off + width > data@.len()))
                &&& (r is Ok <==> (index <= self.spec_total() && off + width <= data@.len()))
                &&& (r matches Ok(s) ==> s@ == spec_read_render(
                    data@.subrange(off, off + width),
                    fields,
                ))
            }),
    {
        let ghost fields = self.spec_object().spec_fields();

        if index > self.total {
            return Err(PageError::OutOfRange);
        }

        let width = *self.object.size_in_bytes();
        proof {
            crate::data::object::lemma_sum_nonneg(fields);
            assert((index as int) * (width as int) <= (u64::MAX as int) * (u64::MAX as int))
                by (nonlinear_arith)
                requires
                    0 <= index as int <= u64::MAX as int,
                    0 <= width as int <= u64::MAX as int,
            ;
        }
        let offset128 = (index as u128) * (width as u128);
        let end128 = offset128 + (width as u128);
        let ghost off_int = spec_record_offset(fields, index as int);

        if end128 > data.len() as u128 {
            return Err(PageError::TruncatedRecord);
        }
        let offset = offset128 as usize;

        let fields_vec = self.object.fields();
        let n = fields_vec.len();
        let mut line = Line::new();
        let mut pos: usize = offset;
        let mut i: usize = 0;
        proof {
            assert(fields.take(0) =~= Seq::<(String, Type)>::empty());
            assert(fields.take(n as int) =~= fields);
        }
        while i < n
            invariant
                fields == self.spec_object().spec_fields(),
                fields_vec@ == fields,
                n == fields.len(),
                i <= n,
                width == sum_size_in_bytes(fields),
                off_int == offset as int,
                off_int + width <= data@.len() <= usize::MAX,
                pos as int == off_int + spec_field_offset(fields, i as int),
                line.spec_fields().len() == i,
                forall|j: int|
                    0 <= j < i ==> (#[trigger] line.spec_fields()[j]).0@ == fields[j].0@,
                forall|j: int|
                    0 <= j < i ==> (#[trigger] line.spec_fields()[j]).1.matches_type(fields[j].1),
                forall|j: int|
                    0 <= j < i ==> (#[trigger] line.spec_fields()[j]).1.spec_bytes()
                        == data@.subrange(
                        off_int + spec_field_offset(fields, j),
                        off_int + spec_field_offset(fields, j) + fields[j].1.spec_size_in_bytes(),
                    ),
            decreases n - i,
        {
            proof {
                lemma_field_offset_step(fields, i as int);
                lemma_field_offset_monotonic(fields, i as int + 1, n as int);
                lemma_field_offset_bounds(fields, i as int);
                lemma_field_offset_bounds(fields, n as int);
                assert(fields.take(n as int) =~= fields);
                assert(fields.skip(n as int) =~= Seq::<(String, Type)>::empty());
                assert(sum_size_in_bytes(Seq::<(String, Type)>::empty()) == 0);
                lemma_type_bytes_range(fields[i as int].1);
            }
            let pair = &fields_vec[i];
            let t = pair.1;
            let size = t.size_in_bytes();
            let ghost target = data@.subrange(pos as int, pos as int + size as int);

            let value = match t {
                Type::UInt8 => Value::UInt8([data[pos]]),
                Type::UInt16 => Value::UInt16([data[pos], data[pos + 1]]),
                Type::UInt32 => Value::UInt32(
                    [data[pos], data[pos + 1], data[pos + 2], data[pos + 3]],
                ),
                Type::UInt64 => Value::UInt64(
                    [
                        data[pos],
                        data[pos + 1],
                        data[pos + 2],
                        data[pos + 3],
                        data[pos + 4],
                        data[pos + 5],
                        data[pos + 6],
                        data[pos + 7],
                    ],
                ),
                Type::UInt128 => Value::UInt128(
                    [
                        data[pos],
                        data[pos + 1],
                        data[pos + 2],
                        data[pos + 3],
                        data[pos + 4],
                        data[pos + 5],
                        data[pos + 6],
                        data[pos + 7],
                        data[pos + 8],
                        data[pos + 9],
                        data[pos + 10],
                        data[pos + 11],
                        data[pos + 12],
                        data[pos + 13],
                        data[pos + 14],
                        data[pos + 15],
                    ],
                ),
                Type::Int8 => Value::Int8([data[pos]]),
                Type::Int16 => Value::Int16([data[pos], data[pos + 1]]),
                Type::Int32 => Value::Int32(
                    [data[pos], data[pos + 1], data[pos + 2], data[pos + 3]],
                ),
                Type::Int64 => Value::Int64(
                    [
                        data[pos],
                        data[pos + 1],
                        data[pos + 2],
                        data[pos + 3],
                        data[pos + 4],
                        data[pos + 5],
                        data[pos + 6],
                        data[pos + 7],
                    ],
                ),
                Type::Int128 => Value::Int128(
                    [
                        data[pos],
                        data[pos + 1],
                        data[pos + 2],
                        data[pos + 3],
                        data[pos + 4],
                        data[pos + 5],
                        data[pos + 6],
                        data[pos + 7],
                        data[pos + 8],
                        data[pos + 9],
                        data[pos + 10],
                        data[pos + 11],
                        data[pos + 12],
                        data[pos + 13],
                        data[pos + 14],
                        data[pos + 15],
                    ],
                ),
                Type::String(_) => {
                    let raw = vstd::slice::slice_subrange(
                        data.as_slice(),
                        pos,
                        pos + size as usize,
                    );
                    Value::String(vstd::slice::slice_to_vec(raw))
                },
                Type::Bool => Value::Bool([data[pos]]),
            };
            proof {
                assert(value.spec_bytes() =~= target);
            }
            line.add_field(pair.0.clone(), value);
            pos = pos + size as usize;
            i = i + 1;
        }

        proof {
            assert(fields.take(n as int) =~= fields);
            lemma_field_offset_bounds(fields, n as int);
            let record = data@.subrange(off_int, off_int + width as int);
            assert forall|j: int| 0 <= j < n implies (#[trigger] line.spec_fields()[j]).1.spec_bytes()
                == record.subrange(
                spec_field_offset(fields, j),
                spec_field_offset(fields, j) + fields[j].1.spec_size_in_bytes(),
            ) by {
                lemma_field_offset_step(fields, j);
                lemma_field_offset_monotonic(fields, j + 1, n as int);
                lemma_field_offset_bounds(fields, j);
                assert(record.subrange(
                    spec_field_offset(fields, j),
                    spec_field_offset(fields, j) + fields[j].1.spec_size_in_bytes(),
                ) =~= data@.subrange(
                    off_int + spec_field_offset(fields, j),
                    off_int + spec_field_offset(fields, j) + fields[j].1.spec_size_in_bytes(),
                ));
            }
            lemma_corresponding_render(line.spec_fields(), record, fields, 0);
        }
        Ok(line.to_string())
    }

    /// Lays the line's record out at the next record offset of the page's
    /// byte image, zero-padding text fields to their declared lengths, and
    /// counts the record.  A line that does not match the schema is refused
    /// whole; so is one whose text value is longer than its field's declared
    /// length.  On either error nothing changes.
    pub fn write(&mut self, line: Line, data: &mut Vec<u8>) -> (r: Result<String, PageError>)
        requires
            old(self).wf(),
            old(self).spec_total() < u64::MAX,
            (old(self).spec_total() + 1) * old(self).spec_object().spec_size_in_bytes()
                <= usize::MAX,
        ensures
            ({
                let entries = line.spec_fields();
                let fields = old(self).spec_object().spec_fields();
                let off = spec_record_offset(fields, old(self).spec_total() as int);
                &&& (r == Err::<String, PageError>(PageError::SchemaMismatch)
                    <==> !line_matches_schema(entries, fields))
                &&& (r == Err::<String, PageError>(PageError::ValueTooLarge) <==> (
                line_matches_schema(entries, fields) && !line_fits_schema(entries, fields)))
                &&& (r is Ok <==> line_fits_schema(entries, fields))
                &&& (r is Err ==> *final(self) == *old(self) && final(data)@ == old(data)@)
                &&& (r is Ok ==> {
                    &&& final(self).spec_object() == old(self).spec_object()
                    &&& final(self).spec_index() == old(self).spec_index()
                    &&& final(self).spec_path() == old(self).spec_path()
                    &&& final(self).spec_total() == old(self).spec_total() + 1
                    &&& final(data)@ == spec_write_at(
                        old(data)@,
                        off,
                        spec_encode(entries, fields),
                    )
                })
                &&& (r matches Ok(s) ==> s@ == spec_render_line(entries))
            }),
    {
        let ghost entries = line.spec_fields();
        let ghost fields = self.spec_object().spec_fields();

        let fields_vec = self.object.fields();
        let line_fields = line.fields();
        let n = line_fields.len();
        if n != fields_vec.len() {
            return Err(PageError::SchemaMismatch);
        }

        let mut i: usize = 0;
        while i < n
            invariant
                entries == line.spec_fields(),
                fields == self.spec_object().spec_fields(),
                line_fields@ == entries,
                fields_vec@ == fields,
                n == entries.len() == fields.len(),
                i <= n,
                forall|j: int|
                    0 <= j < i ==> (#[trigger] entries[j]).1.matches_type(fields[j].1),
            decreases n - i,
        {
            if !line_fields[i].1.matches(&fields_vec[i].1) {
                proof {
                    assert(!entries[i as int].1.matches_type(fields[i as int].1));
                    assert(!line_matches_schema(entries, fields));
                    assert(!line_fits_schema(entries, fields)) by {
                        if line_fits_schema(entries, fields) {
                            assert(entries[i as int].1.fits_type(fields[i as int].1));
                        }
                    }
                }
                return Err(PageError::SchemaMismatch);
            }
            i = i + 1;
        }

        let mut i: usize = 0;
        while i < n
            invariant
                entries == line.spec_fields(),
                fields == self.spec_object().spec_fields(),
                line_fields@ == entries,
                fields_vec@ == fields,
                n == entries.len() == fields.len(),
                i <= n,
                line_matches_schema(entries, fields),
                forall|j: int| 0 <= j < i ==> (#[trigger] entries[j]).1.fits_type(fields[j].1),
            decreases n - i,
        {
            if !line_fields[i].1.fits(&fields_vec[i].1) {
                proof {
                    assert(!entries[i as int].1.fits_type(fields[i as int].1));
                    assert(!line_fits_schema(entries, fields));
                }
                return Err(PageError::ValueTooLarge);
            }
            i = i + 1;
        }

        let mut rec: Vec<u8> = Vec::new();
        let mut i: usize = 0;
        while i < n
            invariant
                line_fields@ == entries,
                fields_vec@ == fields,
                n == entries.len() == fields.len(),
                i <= n,
                line_fits_schema(entries, fields),
                rec@ == spec_encode_prefix(entries, fields, i as int),
            decreases n - i,
        {
            let value = &line_fields[i].1;
            match value {
                Value::UInt8(b) => push_bytes(&mut rec, b.as_slice()),
                Value::UInt16(b) => push_bytes(&mut rec, b.as_slice()),
                Value::UInt32(b) => push_bytes(&mut rec, b.as_slice()),
                Value::UInt64(b) => push_bytes(&mut rec, b.as_slice()),
                Value::UInt128(b) => push_bytes(&mut rec, b.as_slice()),
                Value::Int8(b) => push_bytes(&mut rec, b.as_slice()),
                Value::Int16(b) => push_bytes(&mut rec, b.as_slice()),
                Value::Int32(b) => push_bytes(&mut rec, b.as_slice()),
                Value::Int64(b) => push_bytes(&mut rec, b.as_slice()),
                Value::Int128(b) => push_bytes(&mut rec, b.as_slice()),
                Value::Bool(b) => push_bytes(&mut rec, b.as_slice()),
                Value::String(b) => {
                    push_bytes(&mut rec, b.as_slice());
                    let ghost rec_pre = rec@;
                    let declared: u16 = match &fields_vec[i].1 {
                        Type::String(length) => *length,
                        _ => {
                            proof {
                                assert(entries[i as int].1.matches_type(fields[i as int].1));
                            }
                            vstd::pervasive::unreached()
                        },
                    };
                    let mut k: usize = b.len();
                    while k < declared as usize
                        invariant
                            b@.len() <= k <= declared,
                            rec@ == rec_pre + zero_bytes(k - b@.len()),
                        decreases declared - k,
                    {
                        rec.push(0u8);
                        proof {
                            assert(rec@ =~= rec_pre + zero_bytes(k + 1 - b@.len()));
                        }
                        k = k + 1;
                    }
                },
            }
            proof {
                assert(entries[i as int].1.fits_type(fields[i as int].1));
                assert(rec@ =~= spec_encode_prefix(entries, fields, i as int + 1));
            }
            i = i + 1;
        }
        proof {
            assert(fields.take(n as int) =~= fields);
            lemma_encode_prefix_len(entries, fields, n as int);
            crate::data::object::lemma_sum_nonneg(fields);
        }

        let width = *self.object.size_in_bytes();
        proof {
            assert((self.spec_total() as int) * (width as int) + width as int == (
            self.spec_total() as int + 1) * (width as int)) by (nonlinear_arith);
            assert((self.spec_total() as int) * (width as int) >= 0) by (nonlinear_arith)
                requires
                    self.spec_total() >= 0,
                    width >= 0,
            ;
        }
        let offset = ((self.total as u128) * (width as u128)) as usize;
        let ghost off_int = offset as int;
        let ghost old_data = data@;
        let ghost base_len: int = if old_data.len() >= off_int {
            old_data.len() as int
        } else {
            off_int
        };

        while data.len() < offset
            invariant
                off_int == offset as int,
                old_data.len() <= data@.len(),
                data@.len() <= off_int || data@.len() == old_data.len(),
                forall|j: int| 0 <= j < old_data.len() ==> #[trigger] data@[j] == old_data[j],
                forall|j: int| old_data.len() <= j < data@.len() ==> #[trigger] data@[j] == 0,
            decreases off_int - data@.len(),
        {
            data.push(0u8);
        }
        proof {
            assert(data@.len() == base_len);
        }

        let rec_len = rec.len();
        let mut k: usize = 0;
        while k < rec_len
            invariant
                k <= rec_len == rec@.len(),
                off_int + rec@.len() <= usize::MAX,
                off_int == offset as int,
                base_len >= off_int,
                data@.len() == (if base_len >= off_int + k { base_len } else { off_int + k }),
                forall|j: int|
                    0 <= j < off_int ==> #[trigger] data@[j] == (if j < old_data.len() {
                        old_data[j]
                    } else {
                        0u8
                    }),
                forall|j: int| off_int <= j < off_int + k ==> #[trigger] data@[j] == rec@[j - off_int],
                forall|j: int|
                    off_int + k <= j < data@.len() ==> #[trigger] data@[j] == (if j
                        < old_data.len() {
                        old_data[j]
                    } else {
                        0u8
                    }),
            decreases rec_len - k,
        {
            let b = rec[k];
            let idx = offset + k;
            if idx < data.len() {
                data.set(idx, b);
            } else {
                data.push(b);
            }
            k = k + 1;
        }
        proof {
            assert(data@ =~= spec_write_at(old_data, off_int, rec@));
        }

        self.total = self.total + 1;

        Ok(line.to_string())
    }
}

/// Appends a slice's bytes to a vector.
fn push_bytes(dst: &mut Vec<u8>, src: &[u8])
    ensures
        final(dst)@ == old(dst)@ + src@,
{
    let len = src.len();
    let mut k: usize = 0;
    while k < len
        invariant
            k <= len == src@.len(),
            dst@ == old(dst)@ + src@.take(k as int),
        decreases len - k,
    {
        dst.push(src[k]);
        proof {
            assert(old(dst)@ + src@.take(k as int + 1) =~= (old(dst)@ + src@.take(k as int)).push(
                src@[k as int],
            ));
        }
        k = k + 1;
    }
    proof {
        assert(src@.take(len as int) =~= src@);
    }
}

} // verus!
