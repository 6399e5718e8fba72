//! The columnar table: canonical records laid out as three parallel columns
//! (timestamps, identifiers, payloads), the sole interchange format between
//! the extraction pipeline and the replay scheduler. Payloads are stored
//! flattened: one column of all payload bytes plus one column of per-row
//! lengths. Encoding and decoding round-trip exactly.

use vstd::prelude::*;
use crate::record::{Record, RecordModel, record_models, clone_bytes};

verus! {

/// Mathematical model of a columnar table.
#[verifier::ext_equal]
pub ghost struct TableModel {
    pub ts: Seq<u64>,
    pub id: Seq<u32>,
    pub payload_bytes: Seq<u8>,
    pub payload_lens: Seq<nat>,
}

/// Canonical records as three parallel columns; the payload column is a flat
/// byte vector indexed through per-row lengths.
pub struct ColumnTable {
    pub ts: Vec<u64>,
    pub id: Vec<u32>,
    pub payload_bytes: Vec<u8>,
    pub payload_lens: Vec<usize>,
}

impl View for ColumnTable {
    type V = TableModel;

    open spec fn view(&self) -> TableModel {
        TableModel {
            ts: self.ts@,
            id: self.id@,
            payload_bytes: self.payload_bytes@,
            payload_lens: self.payload_lens@.map_values(|l: usize| l as nat),
        }
    }
}

/// The sum of a sequence of lengths.
pub open spec fn sum_lens(lens: Seq<nat>) -> int
    decreases lens.len(),
{
    if lens.len() == 0 {
        0
    } else {
        sum_lens(lens.drop_last()) + lens.last()
    }
}

/// Where row `i`'s payload starts inside the flat byte column.
pub open spec fn row_offset(lens: Seq<nat>, i: int) -> int {
    sum_lens(lens.take(i))
}

/// A well-formed table: the three columns have one entry per row, and the
/// per-row lengths account for the flat byte column exactly.
pub open spec fn table_wf(t: TableModel) -> bool {
    &&& t.id.len() == t.ts.len()
    &&& t.payload_lens.len() == t.ts.len()
    &&& sum_lens(t.payload_lens) == t.payload_bytes.len()
}

/// All payload bytes of a record sequence, concatenated in order.
pub open spec fn concat_payloads(rs: Seq<RecordModel>) -> Seq<u8>
    decreases rs.len(),
{
    if rs.len() == 0 {
        Seq::empty()
    } else {
        concat_payloads(rs.drop_last()) + rs.last().payload
    }
}

/// The per-row payload lengths of a record sequence.
pub open spec fn payload_lens_of(rs: Seq<RecordModel>) -> Seq<nat> {
    rs.map_values(|r: RecordModel| r.payload.len())
}

/// The columnar encoding of a record sequence.
pub open spec fn encode_spec(rs: Seq<RecordModel>) -> TableModel {
    TableModel {
        ts: rs.map_values(|r: RecordModel| r.ts_ns),
        id: rs.map_values(|r: RecordModel| r.id),
        payload_bytes: concat_payloads(rs),
        payload_lens: payload_lens_of(rs),
    }
}

/// Row `i` of a table, decoded.
pub open spec fn decode_row(t: TableModel, i: int) -> RecordModel {
    RecordModel {
        ts_ns: t.ts[i],
        id: t.id[i],
        payload: t.payload_bytes.subrange(
            row_offset(t.payload_lens, i),
            row_offset(t.payload_lens, i) + t.payload_lens[i],
        ),
    }
}

/// All rows of a table, decoded in order.
pub open spec fn decode_spec(t: TableModel) -> Seq<RecordModel> {
    Seq::new(t.ts.len(), |i: int| decode_row(t, i))
}

pub proof fn lemma_sum_lens_nonneg(lens: Seq<nat>)
    ensures
        sum_lens(lens) >= 0,
    decreases lens.len(),
{
    if lens.len() > 0 {
        lemma_sum_lens_nonneg(lens.drop_last());
    }
}

/// The offset of the next row is this row's offset plus this row's length.
pub proof fn lemma_row_offset_next(lens: Seq<nat>, i: int)
    requires
        0 <= i < lens.len(),
    ensures
        row_offset(lens, i + 1) == row_offset(lens, i) + lens[i],
{
    assert(lens.take(i + 1).drop_last() =~= lens.take(i));
    assert(lens.take(i + 1).last() == lens[i]);
}

/// Row offsets stay inside the flat byte column of a well-formed table.
pub proof fn lemma_row_offset_bounds(lens: Seq<nat>, i: int)
    requires
        0 <= i <= lens.len(),
    ensures
        0 <= row_offset(lens, i) <= sum_lens(lens),
    decreases lens.len() - i,
{
    lemma_sum_lens_nonneg(lens.take(i));
    if i == lens.len() {
        assert(lens.take(i) =~= lens);
    } else {
        lemma_row_offset_next(lens, i);
        lemma_row_offset_bounds(lens, i + 1);
    }
}

proof fn lemma_concat_len(rs: Seq<RecordModel>)
    ensures
        concat_payloads(rs).len() == sum_lens(payload_lens_of(rs)),
    decreases rs.len(),
{
    if rs.len() > 0 {
        lemma_concat_len(rs.drop_last());
        assert(payload_lens_of(rs).drop_last() =~= payload_lens_of(rs.drop_last()));
        assert(payload_lens_of(rs).last() == rs.last().payload.len());
    }
}

/// Inside the concatenation of all payloads, the slice at row `i`'s offset of
/// row `i`'s length is row `i`'s payload.
proof fn lemma_concat_extract(rs: Seq<RecordModel>, i: int)
    requires
        0 <= i < rs.len(),
    ensures
        concat_payloads(rs).subrange(
            row_offset(payload_lens_of(rs), i),
            row_offset(payload_lens_of(rs), i) + payload_lens_of(rs)[i],
        ) == rs[i].payload,
    decreases rs.len(),
{
    let lens = payload_lens_of(rs);
    let prefix = rs.drop_last();
    let plens = payload_lens_of(prefix);
    assert(lens.drop_last() =~= plens);
    lemma_concat_len(prefix);
    if i == rs.len() - 1 {
        assert(lens.take(i) =~= plens);
        assert(row_offset(lens, i) == concat_payloads(prefix).len());
        assert(concat_payloads(rs).subrange(
            row_offset(lens, i),
            row_offset(lens, i) + lens[i],
        ) =~= rs[i].payload);
    } else {
        lemma_concat_extract(prefix, i);
        assert(lens.take(i) =~= plens.take(i));
        assert(row_offset(lens, i) == row_offset(plens, i));
        assert(lens[i] == plens[i]);
        lemma_row_offset_next(plens, i);
        lemma_row_offset_bounds(plens, i);
        lemma_row_offset_bounds(plens, i + 1);
        assert(row_offset(plens, i) + plens[i] <= concat_payloads(prefix).len());
        assert(concat_payloads(rs).subrange(
            row_offset(lens, i),
            row_offset(lens, i) + lens[i],
        ) =~= concat_payloads(prefix).subrange(
            row_offset(plens, i),
            row_offset(plens, i) + plens[i],
        ));
    }
}

/// Encoding yields a well-formed table.
pub proof fn lemma_encode_wf(rs: Seq<RecordModel>)
    ensures
        table_wf(encode_spec(rs)),
{
    lemma_concat_len(rs);
}

/// Round trip: decoding the columnar encoding of any record sequence yields
/// the records back, equal in timestamp, identifier, and payload.
pub proof fn lemma_table_round_trip(rs: Seq<RecordModel>)
    ensures
        table_wf(encode_spec(rs)),
        decode_spec(encode_spec(rs)) == rs,
{
    lemma_encode_wf(rs);
    let t = encode_spec(rs);
    assert forall|i: int| 0 <= i < rs.len() implies decode_row(t, i) == rs[i] by {
        lemma_concat_extract(rs, i);
        assert(decode_row(t, i).payload == rs[i].payload);
    }
    assert(decode_spec(t) =~= rs);
}

/// Lays the records out as three parallel columns, payloads flattened.
pub fn encode(records: &Vec<Record>) -> (t: ColumnTable)
    ensures
        t@ == encode_spec(record_models(records@)),
        table_wf(t@),
{
    let ghost rms = record_models(records@);
    let mut ts: Vec<u64> = Vec::new();
    let mut id: Vec<u32> = Vec::new();
    let mut payload_bytes: Vec<u8> = Vec::new();
    let mut payload_lens: Vec<usize> = Vec::new();
    let mut i: usize = 0;
    while i < records.len()
        invariant
            i <= records@.len(),
            rms == record_models(records@),
            ts@ =~= rms.take(i as int).map_values(|r: RecordModel| r.ts_ns),
            id@ =~= rms.take(i as int).map_values(|r: RecordModel| r.id),
            payload_bytes@ =~= concat_payloads(rms.take(i as int)),
            payload_lens@.len() == i,
            forall|j: int| 0 <= j < i ==> payload_lens@[j] as nat == rms[j].payload.len(),
        decreases records@.len() - i,
    {
        let r = &records[i];
        ts.push(r.ts_ns);
        id.push(r.id);
        payload_lens.push(r.payload.len());
        let mut j: usize = 0;
        while j < r.payload.len()
            invariant
                j <= r.payload@.len(),
                r == &records@[i as int],
                i < records@.len(),
                payload_bytes@ =~= concat_payloads(record_models(records@).take(i as int))
                    + r.payload@.take(j as int),
            decreases r.payload@.len() - j,
        {
            payload_bytes.push(r.payload[j]);
            j = j + 1;
        }
        proof {
            let k = i as int;
            assert(rms.take(k + 1).drop_last() =~= rms.take(k));
            assert(rms.take(k + 1).last() == rms[k]);
            assert(r.payload@.take(j as int) =~= rms[k].payload);
            assert(payload_bytes@ =~= concat_payloads(rms.take(k + 1)));
            assert(ts@ =~= rms.take(k + 1).map_values(|r: RecordModel| r.ts_ns));
            assert(id@ =~= rms.take(k + 1).map_values(|r: RecordModel| r.id));
        }
        i = i + 1;
    }
    proof {
        assert(rms.take(rms.len() as int) =~= rms);
        lemma_encode_wf(rms);
    }
    let t = ColumnTable { ts, id, payload_bytes, payload_lens };
    proof {
        assert(t@.payload_lens =~= payload_lens_of(rms));
        assert(t@ =~= encode_spec(rms));
    }
    t
}

/// Reads the records back out of a well-formed table, row by row.
pub fn decode(table: &ColumnTable) -> (r: Vec<Record>)
    requires
        table_wf(table@),
    ensures
        record_models(r@) == decode_spec(table@),
{
    let ghost t = table@;
    let total_bytes: usize = table.payload_bytes.len();
    let mut out: Vec<Record> = Vec::new();
    let mut off: usize = 0;
    let mut i: usize = 0;
    while i < table.ts.len()
        invariant
            t == table@,
            table_wf(t),
            i <= t.ts.len(),
            total_bytes == table.payload_bytes@.len(),
            off == row_offset(t.payload_lens, i as int),
            off <= total_bytes,
            out@.len() == i,
            forall|k: int| 0 <= k < i ==> (#[trigger] out@[k])@ =~= decode_row(t, k),
        decreases t.ts.len() - i,
    {
        let len = table.payload_lens[i];
        proof {
            assert(t.payload_lens[i as int] == table.payload_lens@[i as int] as nat);
            lemma_row_offset_next(t.payload_lens, i as int);
            lemma_row_offset_bounds(t.payload_lens, i as int + 1);
            assert(off + len <= total_bytes);
        }
        let mut payload: Vec<u8> = Vec::new();
        let mut j: usize = 0;
        while j < len
            invariant
                j <= len,
                off + len <= total_bytes,
                total_bytes == table.payload_bytes@.len(),
                payload@ =~= table.payload_bytes@.subrange(off as int, off + j),
            decreases len - j,
        {
            payload.push(table.payload_bytes[off + j]);
            j = j + 1;
        }
        out.push(Record::new(table.ts[i], table.id[i], payload));
        proof {
            assert(payload@ == table.payload_bytes@.subrange(off as int, off + len));
            assert(decode_row(t, i as int).payload == payload@);
            assert(out@.last()@ =~= decode_row(t, i as int));
        }
        off = off + len;
        i = i + 1;
    }
    proof {
        assert(record_models(out@) =~= decode_spec(t));
    }
    out
}

} // verus!
