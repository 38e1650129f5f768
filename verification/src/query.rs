//! Query result frames: a column list, a row-major value list, the
//! backend's changes counter, and the elapsed milliseconds.
//!
//! Shape invariant: with no columns there can be no values, and otherwise
//! the value count must be a whole number of rows. A reader rejects any
//! frame that breaks it.

use vstd::prelude::*;
use vstd::utf8::encode_utf8;
use crate::Error;
use crate::codec::{
    Decoded, FrameReader, FrameWriter, lemma_parse_len_embed, lemma_parse_lp_string_embed,
    parse_len, parse_lp_string, string_frame,
};
use crate::value::{
    Value, ValueV, lemma_parse_values_n_embed, parse_values, read_values, value_wf, values_bytes,
    values_payload, values_view, write_values,
};
use crate::varint::varint_bytes;

verus! {

/// One column of a result set: its name and an advisory type string from
/// the backend (possibly empty).
pub struct Column {
    pub name: String,
    pub datatype: String,
}

/// The mathematical shape of a `Column`.
#[verifier::ext_equal]
pub struct ColumnV {
    pub name: Seq<char>,
    pub datatype: Seq<char>,
}

impl View for Column {
    type V = ColumnV;

    open spec fn view(&self) -> ColumnV {
        ColumnV { name: self.name@, datatype: self.datatype@ }
    }
}

/// The view of a sequence of columns.
pub open spec fn columns_view(cs: Seq<Column>) -> Seq<ColumnV> {
    cs.map_values(|c: Column| c@)
}

/// A column's two texts fit behind 64-bit length prefixes.
pub open spec fn column_wf(c: ColumnV) -> bool {
    encode_utf8(c.name).len() <= u64::MAX && encode_utf8(c.datatype).len() <= u64::MAX
}

/// The encoding of one column: its name, then its type string.
pub open spec fn column_bytes(c: ColumnV) -> Seq<u8>
    recommends
        column_wf(c),
{
    string_frame(c.name) + string_frame(c.datatype)
}

/// The concatenated encodings of a run of columns.
pub open spec fn columns_payload(cs: Seq<ColumnV>) -> Seq<u8>
    decreases cs.len(),
{
    if cs.len() == 0 {
        Seq::empty()
    } else {
        column_bytes(cs[0]) + columns_payload(cs.skip(1))
    }
}

/// Appending a column appends its encoding.
pub proof fn lemma_columns_payload_push(cs: Seq<ColumnV>, x: ColumnV)
    ensures
        columns_payload(cs.push(x)) =~= columns_payload(cs) + column_bytes(x),
    decreases cs.len(),
{
    reveal_with_fuel(columns_payload, 3);
    let w = cs.push(x);
    if cs.len() == 0 {
        assert(w.skip(1) =~= cs);
        assert(w[0] == x);
        assert(columns_payload(w) == column_bytes(x) + columns_payload(cs));
        assert(columns_payload(cs) == Seq::<u8>::empty());
        assert(columns_payload(w) =~= columns_payload(cs) + column_bytes(x));
    } else {
        assert(w.skip(1) =~= cs.skip(1).push(x));
        lemma_columns_payload_push(cs.skip(1), x);
        assert(w[0] == cs[0]);
        assert(columns_payload(w) == column_bytes(cs[0]) + columns_payload(cs.skip(1).push(x)));
        assert(columns_payload(cs) == column_bytes(cs[0]) + columns_payload(cs.skip(1)));
        assert(columns_payload(w) =~= columns_payload(cs) + column_bytes(x));
    }
}

/// A column list frame: `varint(n) || column_1 || ... || column_n`.
pub open spec fn columns_bytes(cs: Seq<ColumnV>) -> Seq<u8>
    recommends
        cs.len() <= u64::MAX,
{
    varint_bytes(cs.len() as u64) + columns_payload(cs)
}

/// Decode one column: two texts.
pub open spec fn parse_column(s: Seq<u8>, i: int) -> Decoded<ColumnV> {
    match parse_lp_string(s, i) {
        Decoded::Found(name, j) => match parse_lp_string(s, j) {
            Decoded::Found(datatype, k) => Decoded::Found(ColumnV { name, datatype }, k),
            Decoded::Fail(e) => Decoded::Fail(e),
        },
        Decoded::Fail(e) => Decoded::Fail(e),
    }
}

/// Decode exactly `n` columns starting at position `i`.
pub open spec fn parse_columns_n(s: Seq<u8>, i: int, n: nat) -> Decoded<Seq<ColumnV>>
    decreases n,
{
    if n == 0 {
        Decoded::Found(Seq::empty(), i)
    } else {
        match parse_column(s, i) {
            Decoded::Found(c, j) => match parse_columns_n(s, j, (n - 1) as nat) {
                Decoded::Found(cs, k) => Decoded::Found(seq![c] + cs, k),
                Decoded::Fail(e) => Decoded::Fail(e),
            },
            Decoded::Fail(e) => Decoded::Fail(e),
        }
    }
}

/// Decode a column list frame.
pub open spec fn parse_columns(s: Seq<u8>, i: int) -> Decoded<Seq<ColumnV>> {
    match parse_len(s, i) {
        Decoded::Found(n, j) => parse_columns_n(s, j, n as nat),
        Decoded::Fail(e) => Decoded::Fail(e),
    }
}

/// Prepend already-decoded columns to a decoding outcome.
pub open spec fn prepend_columns(pre: Seq<ColumnV>, d: Decoded<Seq<ColumnV>>) -> Decoded<
    Seq<ColumnV>,
> {
    match d {
        Decoded::Found(cs, e) => Decoded::Found(pre + cs, e),
        Decoded::Fail(e) => Decoded::Fail(e),
    }
}

/// A full result set, materialized in memory. `values` is row-major and
/// `rows_affected` is the backend's changes counter, not the row count.
pub struct Query {
    pub columns: Vec<Column>,
    pub values: Vec<Value>,
    pub rows_affected: u64,
    pub duration: u64,
}

/// The mathematical shape of a `Query`.
#[verifier::ext_equal]
pub struct QueryV {
    pub columns: Seq<ColumnV>,
    pub values: Seq<ValueV>,
    pub rows_affected: u64,
    pub duration: u64,
}

impl View for Query {
    type V = QueryV;

    open spec fn view(&self) -> QueryV {
        QueryV {
            columns: columns_view(self.columns@),
            values: values_view(self.values@),
            rows_affected: self.rows_affected,
            duration: self.duration,
        }
    }
}

/// Every list and text fits behind a 64-bit length prefix.
pub open spec fn query_wf(q: QueryV) -> bool {
    &&& q.columns.len() <= u64::MAX
    &&& q.values.len() <= u64::MAX
    &&& forall|k: int| 0 <= k < q.columns.len() ==> column_wf(#[trigger] q.columns[k])
    &&& forall|k: int| 0 <= k < q.values.len() ==> value_wf(#[trigger] q.values[k])
}

/// The shape a reader accepts: no values without columns, and otherwise a
/// whole number of rows.
pub open spec fn query_shape_ok(columns: Seq<ColumnV>, values: Seq<ValueV>) -> bool {
    values.len() == 0 || (columns.len() > 0 && values.len() % columns.len() == 0)
}

/// The encoding of a query frame: columns, values, changes counter,
/// elapsed milliseconds.
pub open spec fn query_bytes(q: QueryV) -> Seq<u8>
    recommends
        query_wf(q),
{
    columns_bytes(q.columns) + values_bytes(q.values) + varint_bytes(q.rows_affected)
        + varint_bytes(q.duration)
}

/// Decode a query frame, rejecting value counts that do not fit the
/// column count.
pub open spec fn parse_query(s: Seq<u8>, i: int) -> Decoded<QueryV> {
    match parse_columns(s, i) {
        Decoded::Found(columns, j) => match parse_values(s, j) {
            Decoded::Found(values, k) => match parse_len(s, k) {
                Decoded::Found(rows_affected, l) => match parse_len(s, l) {
                    Decoded::Found(duration, m) => if columns.len() == 0 && values.len() != 0 {
                        Decoded::Fail(Error::InvalidValuesLength(values.len() as usize, 0))
                    } else if values.len() != 0 && values.len() % columns.len() != 0 {
                        Decoded::Fail(
                            Error::InvalidValuesLength(
                                values.len() as usize,
                                columns.len() as usize,
                            ),
                        )
                    } else {
                        Decoded::Found(QueryV { columns, values, rows_affected, duration }, m)
                    },
                    Decoded::Fail(e) => Decoded::Fail(e),
                },
                Decoded::Fail(e) => Decoded::Fail(e),
            },
            Decoded::Fail(e) => Decoded::Fail(e),
        },
        Decoded::Fail(e) => Decoded::Fail(e),
    }
}

/// Append a column list frame.
pub fn write_columns(w: &mut FrameWriter, columns: &Vec<Column>)
    ensures
        final(w).buf@ == old(w).buf@ + columns_bytes(columns_view(columns@)),
{
    let n = columns.len();
    w.write_len(n as u64);
    let ghost start = w.buf@;
    let mut k: usize = 0;
    while k < n
        invariant
            k <= n,
            n == columns@.len(),
            w.buf@ == start + columns_payload(columns_view(columns@.take(k as int))),
        decreases n - k,
    {
        w.write_string(columns[k].name.as_str());
        w.write_string(columns[k].datatype.as_str());
        proof {
            let ck = columns@[k as int]@;
            let pre = columns_view(columns@.take(k as int));
            lemma_columns_payload_push(pre, ck);
            assert(columns_view(columns@.take(k as int + 1)) =~= pre.push(ck));
            assert(w.buf@ =~= start + columns_payload(columns_view(columns@.take(k as int + 1))));
        }
        k = k + 1;
    }
    proof {
        assert(columns@.take(n as int) =~= columns@);
        assert(final(w).buf@ =~= old(w).buf@ + columns_bytes(columns_view(columns@)));
    }
}

/// Read a column list frame.
pub fn read_columns(r: &mut FrameReader) -> (out: Result<Vec<Column>, Error>)
    requires
        old(r).wf(),
    ensures
        final(r).wf(),
        final(r).data@ == old(r).data@,
        match parse_columns(old(r).data@, old(r).pos as int) {
            Decoded::Found(cs, j) => out matches Ok(got) && columns_view(got@) == cs
                && final(r).pos == j,
            Decoded::Fail(e) => out == Err::<Vec<Column>, Error>(e),
        },
{
    let ghost s = old(r).data@;
    let n = r.read_len()?;
    let ghost list_start = r.pos as int;
    let mut out: Vec<Column> = Vec::new();
    let mut k: u64 = 0;
    while k < n
        invariant
            r.wf(),
            r.data@ == s,
            s == old(r).data@,
            parse_len(s, old(r).pos as int) == Decoded::<u64>::Found(n, list_start),
            k <= n,
            out@.len() == k,
            parse_columns_n(s, list_start, n as nat) == prepend_columns(
                columns_view(out@),
                parse_columns_n(s, r.pos as int, (n - k) as nat),
            ),
        decreases n - k,
    {
        let ghost pre = columns_view(out@);
        let ghost pos0 = r.pos as int;
        let name = match r.read_string() {
            Ok(t) => t,
            Err(e) => {
                proof {
                    assert(parse_columns_n(s, pos0, (n - k) as nat) == Decoded::<
                        Seq<ColumnV>,
                    >::Fail(e));
                }
                return Err(e);
            },
        };
        let datatype = match r.read_string() {
            Ok(t) => t,
            Err(e) => {
                proof {
                    assert(parse_columns_n(s, pos0, (n - k) as nat) == Decoded::<
                        Seq<ColumnV>,
                    >::Fail(e));
                }
                return Err(e);
            },
        };
        let c = Column { name, datatype };
        proof {
            let rest = parse_columns_n(s, r.pos as int, (n - k - 1) as nat);
            assert(parse_columns_n(s, pos0, (n - k) as nat) == prepend_columns(
                seq![c@],
                rest,
            ));
            assert(columns_view(out@.push(c)) =~= pre.push(c@));
            match rest {
                Decoded::Found(cs, e) => {
                    assert(pre + (seq![c@] + cs) =~= pre.push(c@) + cs);
                },
                Decoded::Fail(_) => {},
            }
        }
        out.push(c);
        k = k + 1;
    }
    proof {
        assert(parse_columns_n(s, r.pos as int, 0) == Decoded::<Seq<ColumnV>>::Found(
            Seq::empty(),
            r.pos as int,
        ));
        assert(columns_view(out@) + Seq::<ColumnV>::empty() =~= columns_view(out@));
    }
    Ok(out)
}

/// Append a query frame: columns, values, changes counter, elapsed
/// milliseconds.
pub fn write_query(w: &mut FrameWriter, query: &Query)
    ensures
        final(w).buf@ == old(w).buf@ + query_bytes(query@),
{
    write_columns(w, &query.columns);
    write_values(w, &query.values);
    w.write_len(query.rows_affected);
    w.write_len(query.duration);
    proof {
        assert(final(w).buf@ =~= old(w).buf@ + query_bytes(query@));
    }
}

/// Read a query frame. A frame whose value count does not fit its column
/// count fails with `InvalidValuesLength`, carrying both counts.
pub fn read_query(r: &mut FrameReader) -> (out: Result<Query, Error>)
    requires
        old(r).wf(),
    ensures
        final(r).wf(),
        final(r).data@ == old(r).data@,
        match parse_query(old(r).data@, old(r).pos as int) {
            Decoded::Found(q, j) => out matches Ok(got) && got@ == q && final(r).pos == j,
            Decoded::Fail(e) => out == Err::<Query, Error>(e),
        },
{
    let columns = read_columns(r)?;
    let values = read_values(r)?;
    let rows_affected = r.read_len()?;
    let duration = r.read_len()?;
    if columns.len() == 0 && values.len() != 0 {
        return Err(Error::InvalidValuesLength(values.len(), 0));
    }
    if values.len() != 0 && values.len() % columns.len() != 0 {
        return Err(Error::InvalidValuesLength(values.len(), columns.len()));
    }
    Ok(Query { columns, values, rows_affected, duration })
}

/// A run of columns embedded at position `i` decodes to the columns that
/// were encoded.
pub proof fn lemma_parse_columns_n_embed(s: Seq<u8>, i: int, cs: Seq<ColumnV>)
    requires
        0 <= i,
        forall|k: int| 0 <= k < cs.len() ==> column_wf(#[trigger] cs[k]),
        i + columns_payload(cs).len() <= s.len(),
        s.subrange(i, i + columns_payload(cs).len() as int) == columns_payload(cs),
    ensures
        parse_columns_n(s, i, cs.len()) =~= Decoded::<Seq<ColumnV>>::Found(
            cs,
            i + columns_payload(cs).len() as int,
        ),
    decreases cs.len(),
{
    if cs.len() != 0 {
        let head = column_bytes(cs[0]);
        let all = columns_payload(cs);
        assert(all == head + columns_payload(cs.skip(1)));
        let name_enc = string_frame(cs[0].name);
        let type_enc = string_frame(cs[0].datatype);
        assert(s.subrange(i, i + name_enc.len() as int) =~= name_enc) by {
            assert(forall|k: int| 0 <= k < name_enc.len()
                ==> s.subrange(i, i + all.len() as int)[k] == #[trigger] name_enc[k]);
        }
        lemma_parse_lp_string_embed(s, i, cs[0].name);
        let j0 = i + name_enc.len() as int;
        assert(s.subrange(j0, j0 + type_enc.len() as int) =~= type_enc) by {
            assert(forall|k: int| 0 <= k < type_enc.len()
                ==> s.subrange(i, i + all.len() as int)[name_enc.len() + k]
                == #[trigger] type_enc[k]);
        }
        lemma_parse_lp_string_embed(s, j0, cs[0].datatype);
        assert(parse_column(s, i) =~= Decoded::<ColumnV>::Found(cs[0], i + head.len() as int));
        let j = i + head.len() as int;
        let rest = columns_payload(cs.skip(1));
        assert(s.subrange(j, j + rest.len() as int) =~= rest) by {
            assert(forall|k: int| 0 <= k < rest.len()
                ==> s.subrange(i, i + all.len() as int)[head.len() + k] == #[trigger] rest[k]);
        }
        lemma_parse_columns_n_embed(s, j, cs.skip(1));
        assert(seq![cs[0]] + cs.skip(1) =~= cs);
    }
}

/// Query frame round trip: a written query reads back unchanged when its
/// shape is acceptable, and is rejected with `InvalidValuesLength`
/// otherwise — in particular, a frame with values but no columns, or with
/// a value count that is not a whole number of rows, never reads back.
pub proof fn lemma_query_round_trip(q: QueryV)
    requires
        query_wf(q),
    ensures
        query_shape_ok(q.columns, q.values) ==> parse_query(query_bytes(q), 0) =~= Decoded::<
            QueryV,
        >::Found(q, query_bytes(q).len() as int),
        !query_shape_ok(q.columns, q.values) && q.columns.len() == 0 ==> parse_query(
            query_bytes(q),
            0,
        ) =~= Decoded::<QueryV>::Fail(Error::InvalidValuesLength(q.values.len() as usize, 0)),
        !query_shape_ok(q.columns, q.values) && q.columns.len() != 0 ==> parse_query(
            query_bytes(q),
            0,
        ) =~= Decoded::<QueryV>::Fail(
            Error::InvalidValuesLength(q.values.len() as usize, q.columns.len() as usize),
        ),
{
    let s = query_bytes(q);
    let cb = columns_bytes(q.columns);
    let vb = values_bytes(q.values);
    let rb = varint_bytes(q.rows_affected);
    let db = varint_bytes(q.duration);

    let clen = varint_bytes(q.columns.len() as u64);
    assert(s.subrange(0, clen.len() as int) =~= clen);
    lemma_parse_len_embed(s, 0, q.columns.len() as u64);
    let i1 = clen.len() as int;
    assert(s.subrange(i1, i1 + columns_payload(q.columns).len() as int) =~= columns_payload(
        q.columns,
    ));
    lemma_parse_columns_n_embed(s, i1, q.columns);
    let i2 = cb.len() as int;

    let vlen = varint_bytes(q.values.len() as u64);
    assert(s.subrange(i2, i2 + vlen.len() as int) =~= vlen);
    lemma_parse_len_embed(s, i2, q.values.len() as u64);
    let i3 = i2 + vlen.len() as int;
    assert(s.subrange(i3, i3 + values_payload(q.values).len() as int) =~= values_payload(
        q.values,
    ));
    lemma_parse_values_n_embed(s, i3, q.values);
    let i4 = i2 + vb.len() as int;

    assert(s.subrange(i4, i4 + rb.len() as int) =~= rb);
    lemma_parse_len_embed(s, i4, q.rows_affected);
    let i5 = i4 + rb.len() as int;
    assert(s.subrange(i5, i5 + db.len() as int) =~= db);
    lemma_parse_len_embed(s, i5, q.duration);
}

} // verus!
