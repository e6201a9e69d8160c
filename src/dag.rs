//! The DAG request handler: drives an executor to completion and shapes what
//! it yields into chunks and response frames, one or a stream of them, each
//! with the range of keys that it covers.

use vstd::prelude::*;
use crate::codec::{lex_lt, lex_le, bytes_lt, lemma_lex_trans, lemma_lex_total};
use crate::datum::{Datum, datum_bytes, write_datum};
use crate::errors::Error;
use crate::storage::Statistics;
use crate::util::{
    ColumnInfo, KeyRange, prefix_next, spec_prefix_next, spec_pk, get_pk, has_flag, NOT_NULL_FLAG,
    lemma_prefix_next_greater,
};

verus! {

/// A row as an executor yields it.
pub struct Row {
    /// The row id.
    pub handle: i64,
    /// The raw key the row was read from.
    pub key: Vec<u8>,
    /// The row as already encoded (what aggregation executors produce).
    pub value: Vec<u8>,
    /// Encoded column values by column id.
    pub cols: Vec<(i64, Vec<u8>)>,
}

/// Encoded rows sent together.
#[derive(Debug, Clone, PartialEq, Eq)]
pub struct Chunk {
    pub rows_data: Vec<u8>,
}

/// One response frame.
#[derive(Debug, Clone, PartialEq, Eq)]
pub struct Response {
    pub chunks: Vec<Chunk>,
    /// The keys the frame accounts for, `[start, end)`.
    pub range: Option<KeyRange>,
    /// An executor error reported in band.
    pub other_error: Option<String>,
}

pub open spec fn chunks_view(cs: Seq<Chunk>) -> Seq<Seq<u8>> {
    cs.map_values(|c: Chunk| c.rows_data@)
}

pub open spec fn range_view(r: Option<KeyRange>) -> Option<(Seq<u8>, Seq<u8>)> {
    match r {
        Some(kr) => Some((kr.start@, kr.end@)),
        None => None,
    }
}

/// The value stored for column `id`, the first entry with that id.
pub open spec fn find_col(cols: Seq<(i64, Vec<u8>)>, id: i64) -> Option<Seq<u8>>
    decreases cols.len(),
{
    if cols.len() == 0 {
        None
    } else if cols[0].0 == id {
        Some(cols[0].1@)
    } else {
        find_col(cols.drop_first(), id)
    }
}

/// The bytes of one output column of a row: the stored value; else, for the
/// primary key, the handle; else the default; else an error for a
/// `NOT NULL` column; else `NULL`.
pub open spec fn col_bytes(row: Row, col: ColumnInfo) -> Result<Seq<u8>, Error> {
    match find_col(row.cols@, col.column_id) {
        Some(v) => Ok(v),
        None => if col.pk_handle {
            Ok(datum_bytes(spec_pk(col, row.handle)))
        } else if col.default_val is Some {
            Ok(col.default_val->Some_0@)
        } else if has_flag(col.flag, NOT_NULL_FLAG) {
            Err(Error::MissingColumn { col_id: col.column_id, handle: row.handle })
        } else {
            Ok(datum_bytes(Datum::Null))
        },
    }
}

/// The output columns of a row, in the order of `offs`, or the first column
/// that cannot be produced.
pub open spec fn inflate(row: Row, cols: Seq<ColumnInfo>, offs: Seq<u32>) -> Result<Seq<u8>, Error>
    decreases offs.len(),
{
    if offs.len() == 0 {
        Ok(Seq::empty())
    } else {
        match inflate(row, cols, offs.drop_last()) {
            Err(e) => Err(e),
            Ok(p) => match col_bytes(row, cols[offs.last() as int]) {
                Ok(b) => Ok(p + b),
                Err(e) => Err(e),
            },
        }
    }
}

proof fn lemma_inflate_err_extends(row: Row, cols: Seq<ColumnInfo>, offs: Seq<u32>, j: int)
    requires
        0 <= j <= offs.len(),
        inflate(row, cols, offs.subrange(0, j)) is Err,
    ensures
        inflate(row, cols, offs) == inflate(row, cols, offs.subrange(0, j)),
    decreases offs.len(),
{
    if j == offs.len() {
        assert(offs.subrange(0, j) =~= offs);
    } else {
        assert(offs.drop_last().subrange(0, j) =~= offs.subrange(0, j));
        lemma_inflate_err_extends(row, cols, offs.drop_last(), j);
    }
}

fn find_col_index(cols: &Vec<(i64, Vec<u8>)>, id: i64) -> (r: Option<usize>)
    ensures
        match r {
            Some(j) => j < cols@.len() && find_col(cols@, id) == Some(cols@[j as int].1@),
            None => find_col(cols@, id) is None,
        },
{
    let mut i: usize = 0;
    proof {
        assert(cols@.subrange(0, cols@.len() as int) =~= cols@);
    }
    while i < cols.len()
        invariant
            i <= cols@.len(),
            find_col(cols@, id) == find_col(cols@.subrange(i as int, cols@.len() as int), id),
        decreases cols@.len() - i,
    {
        proof {
            assert(cols@.subrange(i as int, cols@.len() as int).drop_first() =~= cols@.subrange(
                i + 1,
                cols@.len() as int,
            ));
        }
        if cols[i].0 == id {
            return Some(i);
        }
        i += 1;
    }
    None
}

/// Encodes the output columns of `row`.
pub fn inflate_cols(row: &Row, cols: &Vec<ColumnInfo>, output_offsets: &Vec<u32>) -> (r: Result<Vec<u8>, Error>)
    requires
        forall|i: int| 0 <= i < output_offsets@.len() ==> (#[trigger] output_offsets@[i]) < cols@.len(),
    ensures
        match inflate(*row, cols@, output_offsets@) {
            Ok(d) => r is Ok && r->Ok_0@ == d,
            Err(e) => r == Err::<Vec<u8>, Error>(e),
        },
{
    let mut values: Vec<u8> = Vec::with_capacity(row.value.len());
    let mut i: usize = 0;
    while i < output_offsets.len()
        invariant
            i <= output_offsets@.len(),
            forall|t: int| 0 <= t < output_offsets@.len() ==> (#[trigger] output_offsets@[t]) < cols@.len(),
            inflate(*row, cols@, output_offsets@.subrange(0, i as int)) == Ok::<Seq<u8>, Error>(values@),
        decreases output_offsets@.len() - i,
    {
        let ghost before = values@;
        let col = &cols[output_offsets[i] as usize];
        proof {
            assert(output_offsets@.subrange(0, i + 1).drop_last() =~= output_offsets@.subrange(0, i as int));
        }
        match find_col_index(&row.cols, col.column_id) {
            Some(j) => {
                values.extend_from_slice(row.cols[j].1.as_slice());
            },
            None => {
                if col.pk_handle {
                    write_datum(&mut values, get_pk(col, row.handle));
                } else if let Some(d) = &col.default_val {
                    values.extend_from_slice(d.as_slice());
                } else if col.flag & NOT_NULL_FLAG != 0 {
                    proof {
                        lemma_inflate_err_extends(*row, cols@, output_offsets@, i as int + 1);
                    }
                    return Err(Error::MissingColumn { col_id: col.column_id, handle: row.handle });
                } else {
                    write_datum(&mut values, Datum::Null);
                }
            },
        }
        proof {
            assert(values@ =~= before + col_bytes(*row, *col)->Ok_0);
        }
        i += 1;
    }
    proof {
        assert(output_offsets@.subrange(0, output_offsets@.len() as int) =~= output_offsets@);
    }
    Ok(values)
}

/// A pull-based executor over rows already produced, in order, that then
/// ends or fails once with `error`.
pub struct Executor {
    stack: Vec<Row>,
    error: Option<Error>,
    last_key: Option<Vec<u8>>,
    processed: usize,
}

impl Executor {
    /// The rows still to come, in order.
    pub closed spec fn remaining(&self) -> Seq<Row> {
        Seq::new(self.stack@.len(), |i: int| self.stack@[self.stack@.len() - 1 - i])
    }

    pub closed spec fn pending_error(&self) -> Option<Error> {
        self.error
    }

    /// The raw key of the row produced last, unless it was taken.
    pub closed spec fn last_key(&self) -> Option<Seq<u8>> {
        match self.last_key {
            Some(k) => Some(k@),
            None => None,
        }
    }

    pub closed spec fn processed(&self) -> usize {
        self.processed
    }

    pub fn new(rows: Vec<Row>, error: Option<Error>) -> (r: Executor)
        ensures
            r.remaining() == rows@,
            r.pending_error() == error,
            r.last_key() is None,
            r.processed() == 0,
    {
        let ghost all = rows@;
        let mut rows = rows;
        let mut stack: Vec<Row> = Vec::new();
        while rows.len() > 0
            invariant
                rows@ == all.subrange(0, rows@.len() as int),
                rows@.len() + stack@.len() == all.len(),
                forall|i: int| 0 <= i < stack@.len() ==> #[trigger] stack@[i] == all[all.len() - 1 - i],
            decreases rows@.len(),
        {
            let row = rows.pop().unwrap();
            stack.push(row);
            proof {
                assert(rows@ =~= all.subrange(0, rows@.len() as int));
            }
        }
        let r = Executor { stack, error, last_key: None, processed: 0 };
        proof {
            assert(r.remaining() =~= all);
        }
        r
    }

    /// The next row; when none is left, the pending error once, and then
    /// the end.
    pub fn next(&mut self) -> (r: Result<Option<Row>, Error>)
        ensures
            old(self).remaining().len() > 0 ==> {
                &&& r == Ok::<Option<Row>, Error>(Some(old(self).remaining()[0]))
                &&& final(self).remaining() == old(self).remaining().drop_first()
                &&& final(self).pending_error() == old(self).pending_error()
                &&& final(self).last_key() == Some(old(self).remaining()[0].key@)
            },
            old(self).remaining().len() == 0 ==> {
                &&& final(self).remaining().len() == 0
                &&& final(self).pending_error() is None
                &&& final(self).last_key() == old(self).last_key()
                &&& match old(self).pending_error() {
                    Some(e) => r == Err::<Option<Row>, Error>(e),
                    None => r == Ok::<Option<Row>, Error>(None),
                }
            },
    {
        match self.stack.pop() {
            Some(row) => {
                let k = row.key.clone();
                proof {
                    assert(k@ =~= row.key@);
                }
                self.last_key = Some(k);
                self.processed = self.processed.saturating_add(1);
                proof {
                    assert(final(self).remaining() =~= old(self).remaining().drop_first());
                }
                Ok(Some(row))
            },
            None => match self.error.take() {
                Some(e) => Err(e),
                None => Ok(None),
            },
        }
    }

    /// Moves out the key of the row produced last.
    pub fn take_last_key(&mut self) -> (r: Option<Vec<u8>>)
        ensures
            match r {
                Some(k) => old(self).last_key() == Some(k@),
                None => old(self).last_key() is None,
            },
            final(self).last_key() is None,
            final(self).remaining() == old(self).remaining(),
            final(self).pending_error() == old(self).pending_error(),
            final(self).processed() == old(self).processed(),
    {
        self.last_key.take()
    }

    /// Adds the rows produced into `dest` and resets the count.
    pub fn collect_statistics_into(&mut self, dest: &mut Statistics)
        ensures
            *final(dest) == old(dest).spec_add(
                Statistics { get: 0, seek: 0, next: 0, processed: old(self).processed() },
            ),
            final(self).processed() == 0,
            final(self).remaining() == old(self).remaining(),
            final(self).pending_error() == old(self).pending_error(),
            final(self).last_key() == old(self).last_key(),
    {
        dest.add(&Statistics { get: 0, seek: 0, next: 0, processed: self.processed });
        self.processed = 0;
    }
}

/// After `m` rows: how many chunks there are, and how many rows the last one
/// holds. A row starts a new chunk when there is none yet or when the last
/// one holds `l` rows.
pub open spec fn chunk_shape(m: nat, l: nat) -> (nat, nat)
    decreases m,
{
    if m == 0 {
        (0, 0)
    } else {
        let (k, c) = chunk_shape((m - 1) as nat, l);
        if k == 0 || c >= l {
            (k + 1, 1)
        } else {
            (k, c + 1)
        }
    }
}

/// The encoded rows `ds` grouped into chunks by the rule of `chunk_shape`.
pub open spec fn group_data(ds: Seq<Seq<u8>>, l: nat) -> Seq<Seq<u8>>
    decreases ds.len(),
{
    if ds.len() == 0 {
        Seq::empty()
    } else {
        let g = group_data(ds.drop_last(), l);
        let (k, c) = chunk_shape((ds.len() - 1) as nat, l);
        if k == 0 || c >= l {
            g.push(ds.last())
        } else {
            g.update(g.len() - 1, g.last() + ds.last())
        }
    }
}

/// A streamed frame ends after row `m` of a call: `cps` chunks are buffered
/// and the last of them is full.
pub open spec fn cut_after(m: nat, l: nat, cps: nat) -> bool {
    m > 0 && chunk_shape(m, l).0 >= cps && chunk_shape(m, l).1 >= l
}

/// The first row count after `from`, up to `n`, at which a streamed frame ends.
pub open spec fn first_cut(from: nat, n: nat, l: nat, cps: nat) -> Option<nat>
    decreases n - from,
{
    if from >= n {
        None
    } else if cut_after(from + 1, l, cps) {
        Some(from + 1)
    } else {
        first_cut(from + 1, n, l, cps)
    }
}

/// The range a frame reports for the first `m` rows of `rows`: from the
/// first key to the prefix-next of the last, swapped when the scan ran
/// backwards; none when there are no rows.
pub open spec fn response_range(rows: Seq<Row>, m: nat) -> Option<(Seq<u8>, Seq<u8>)> {
    if m == 0 {
        None
    } else if m == 1 {
        Some((rows[0].key@, spec_prefix_next(rows[0].key@)))
    } else {
        let s = rows[0].key@;
        let e = rows[m - 1].key@;
        if lex_lt(e, s) {
            Some((e, spec_prefix_next(s)))
        } else {
            Some((s, spec_prefix_next(e)))
        }
    }
}

proof fn lemma_first_cut_after(m: nat, n: nat, l: nat, cps: nat)
    requires
        m < n,
    ensures
        first_cut(m, n, l, cps) matches Some(x) ==> m + 1 <= x <= n,
    decreases n - m,
{
    if !cut_after(m + 1, l, cps) {
        if m + 1 < n {
            lemma_first_cut_after(m + 1, n, l, cps);
        } else {
            assert(first_cut((m + 1) as nat, n, l, cps) is None);
        }
    }
}

/// The range normalised from the first and the last key seen.
pub open spec fn normalized_range(start_key: Option<Seq<u8>>, end_key: Option<Seq<u8>>) -> Option<(Seq<u8>, Seq<u8>)> {
    match (start_key, end_key) {
        (Some(s), Some(e)) => if lex_lt(e, s) {
            Some((e, spec_prefix_next(s)))
        } else {
            Some((s, spec_prefix_next(e)))
        },
        (Some(s), None) => Some((s, spec_prefix_next(s))),
        _ => None,
    }
}

pub open spec fn opt_view(k: Option<Vec<u8>>) -> Option<Seq<u8>> {
    match k {
        Some(v) => Some(v@),
        None => None,
    }
}

fn make_response(chunks: Vec<Chunk>, start_key: Option<Vec<u8>>, end_key: Option<Vec<u8>>) -> (r: Response)
    requires
        !(start_key is None && end_key is Some),
    ensures
        r.chunks@ == chunks@,
        r.other_error is None,
        range_view(r.range) == normalized_range(opt_view(start_key), opt_view(end_key)),
{
    let range = match (start_key, end_key) {
        (Some(s), Some(e)) => {
            if bytes_lt(e.as_slice(), s.as_slice()) {
                let end = prefix_next(s.as_slice());
                Some(KeyRange { start: e, end })
            } else {
                let end = prefix_next(e.as_slice());
                Some(KeyRange { start: s, end })
            }
        },
        (Some(s), None) => {
            let end = prefix_next(s.as_slice());
            Some(KeyRange { start: s, end })
        },
        _ => None,
    };
    Response { chunks, range, other_error: None }
}

/// A request's context: the moment, in milliseconds of the caller's clock,
/// after which the request is no longer worth answering.
#[derive(Debug, Clone, Copy, PartialEq, Eq, Structural)]
pub struct ReqContext {
    pub deadline_ms: u64,
}

impl ReqContext {
    /// Fails with `Outdated` once `now_ms`, the caller's reading of its
    /// clock, reaches the deadline.
    pub fn check_if_outdated(&self, now_ms: u64) -> (r: Result<(), Error>)
        ensures
            now_ms >= self.deadline_ms ==> r == Err::<(), Error>(Error::Outdated),
            now_ms < self.deadline_ms ==> r is Ok,
    {
        if now_ms >= self.deadline_ms {
            Err(Error::Outdated)
        } else {
            Ok(())
        }
    }
}

/// Drives an executor and shapes its rows into response frames.
pub struct DAGContext {
    columns: Vec<ColumnInfo>,
    has_aggr: bool,
    executor: Executor,
    output_offsets: Vec<u32>,
    batch_row_limit: usize,
    chunks_per_stream: usize,
    req_ctx: ReqContext,
}

impl DAGContext {
    pub closed spec fn columns(&self) -> Seq<ColumnInfo> {
        self.columns@
    }

    pub closed spec fn has_aggr(&self) -> bool {
        self.has_aggr
    }

    pub closed spec fn executor(&self) -> Executor {
        self.executor
    }

    pub closed spec fn output_offsets(&self) -> Seq<u32> {
        self.output_offsets@
    }

    pub closed spec fn batch_row_limit(&self) -> nat {
        self.batch_row_limit as nat
    }

    pub closed spec fn chunks_per_stream(&self) -> nat {
        self.chunks_per_stream as nat
    }

    pub closed spec fn req_ctx(&self) -> ReqContext {
        self.req_ctx
    }

    /// The deadline has passed at `now_ms` and a row is still to come, so
    /// the next call fails.
    pub open spec fn outdated(&self, now_ms: u64) -> bool {
        now_ms >= self.req_ctx().deadline_ms && self.executor().remaining().len() > 0
    }

    pub open spec fn wf(&self) -> bool {
        &&& forall|i: int|
            0 <= i < self.output_offsets().len() ==> (#[trigger] self.output_offsets()[i])
                < self.columns().len()
        &&& self.executor().last_key() is None
    }

    /// What one row is sent as.
    pub open spec fn row_data(&self, row: Row) -> Result<Seq<u8>, Error> {
        if self.has_aggr() {
            Ok(row.value@)
        } else {
            inflate(row, self.columns(), self.output_offsets())
        }
    }

    /// What the rows are sent as, or the first row that cannot be encoded.
    pub open spec fn rows_data(&self, rows: Seq<Row>) -> Result<Seq<Seq<u8>>, Error>
        decreases rows.len(),
    {
        if rows.len() == 0 {
            Ok(Seq::empty())
        } else {
            match self.rows_data(rows.drop_last()) {
                Err(e) => Err(e),
                Ok(ds) => match self.row_data(rows.last()) {
                    Ok(d) => Ok(ds.push(d)),
                    Err(e) => Err(e),
                },
            }
        }
    }

    /// Where a streamed frame of this call ends, if it ends before the rows run out.
    pub open spec fn frame_cut(&self, streaming: bool) -> Option<nat> {
        if streaming {
            first_cut(0, self.executor().remaining().len(), self.batch_row_limit(), self.chunks_per_stream())
        } else {
            None
        }
    }

    /// How many rows this call takes.
    pub open spec fn frame_rows(&self, streaming: bool) -> nat {
        match self.frame_cut(streaming) {
            Some(m) => m,
            None => self.executor().remaining().len(),
        }
    }

    /// What the rows this call takes are sent as.
    pub open spec fn frame_data(&self, streaming: bool) -> Result<Seq<Seq<u8>>, Error> {
        self.rows_data(self.executor().remaining().subrange(0, self.frame_rows(streaming) as int))
    }

    proof fn lemma_rows_data_err_extends(&self, rows: Seq<Row>, j: int, k: int)
        requires
            0 <= j <= k <= rows.len(),
            self.rows_data(rows.subrange(0, j)) is Err,
        ensures
            self.rows_data(rows.subrange(0, k)) == self.rows_data(rows.subrange(0, j)),
        decreases k - j,
    {
        if k > j {
            self.lemma_rows_data_err_extends(rows, j, k - 1);
            assert(rows.subrange(0, k).drop_last() =~= rows.subrange(0, k - 1));
        }
    }

    /// A handler for the rows of `executor`, answering within `req_ctx`.
    /// Fails with `Other` when an output offset names no column. A
    /// `batch_row_limit` of zero puts each row in a chunk of its own.
    pub fn new(
        columns: Vec<ColumnInfo>,
        has_aggr: bool,
        executor: Executor,
        output_offsets: Vec<u32>,
        batch_row_limit: usize,
        chunks_per_stream: usize,
        req_ctx: ReqContext,
    ) -> (r: Result<DAGContext, Error>)
        requires
            executor.last_key() is None,
        ensures
            (forall|i: int|
                0 <= i < output_offsets@.len() ==> (#[trigger] output_offsets@[i]) < columns@.len())
                <==> r is Ok,
            r is Err ==> r->Err_0 is Other,
            r matches Ok(ctx) ==> {
                &&& ctx.wf()
                &&& ctx.columns() == columns@
                &&& ctx.has_aggr() == has_aggr
                &&& ctx.executor() == executor
                &&& ctx.output_offsets() == output_offsets@
                &&& ctx.batch_row_limit() == batch_row_limit
                &&& ctx.chunks_per_stream() == chunks_per_stream
                &&& ctx.req_ctx() == req_ctx
            },
    {
        let mut i: usize = 0;
        while i < output_offsets.len()
            invariant
                i <= output_offsets@.len(),
                forall|t: int| 0 <= t < i ==> (#[trigger] output_offsets@[t]) < columns@.len(),
            decreases output_offsets@.len() - i,
        {
            if output_offsets[i] as usize >= columns.len() {
                return Err(Error::Other("output offset names no column".to_owned()));
            }
            i += 1;
        }
        Ok(
            DAGContext {
                columns,
                has_aggr,
                executor,
                output_offsets,
                batch_row_limit,
                chunks_per_stream,
                req_ctx,
            },
        )
    }

    /// Runs the executor until the frame is complete. Rows are grouped into
    /// chunks of `batch_row_limit`. Without `streaming` every row goes into
    /// one final frame. With it, a frame ends as soon as `chunks_per_stream`
    /// full chunks are buffered, marked to be followed by more; frames keep
    /// coming until one with no rows ends the stream. An `Other` error of
    /// the executor ends the request with a frame that carries it; any other
    /// error, or a row that cannot be encoded, fails the call. Each row is
    /// first held against the request's deadline with the caller's clock
    /// reading `now_ms`: past it, the call fails with `Outdated`.
    pub fn handle_request(&mut self, streaming: bool, now_ms: u64) -> (r: Result<(Response, bool), Error>)
        requires
            old(self).wf(),
        ensures
            old(self).outdated(now_ms) ==> r == Err::<(Response, bool), Error>(Error::Outdated),
            !old(self).outdated(now_ms) ==> (old(self).frame_data(streaming) matches Err(e) ==> r
                == Err::<(Response, bool), Error>(e)),
            (!old(self).outdated(now_ms) && old(self).frame_data(streaming) is Ok && old(
                self,
            ).frame_cut(streaming) is Some) ==> {
                &&& r is Ok
                &&& chunks_view(r->Ok_0.0.chunks@) == group_data(old(self).frame_data(streaming)->Ok_0, old(self).batch_row_limit())
                &&& range_view(r->Ok_0.0.range) == response_range(
                    old(self).executor().remaining(),
                    old(self).frame_rows(streaming),
                )
                &&& r->Ok_0.0.other_error is None
                &&& r->Ok_0.1
                &&& final(self).wf()
                &&& final(self).executor().remaining() == old(self).executor().remaining().subrange(
                    old(self).frame_rows(streaming) as int,
                    old(self).executor().remaining().len() as int,
                )
                &&& final(self).executor().pending_error() == old(self).executor().pending_error()
            },
            (!old(self).outdated(now_ms) && old(self).frame_data(streaming) is Ok && old(
                self,
            ).frame_cut(streaming) is None && old(self).executor().pending_error() is Some) ==> if old(self).executor().pending_error()->Some_0 is Other {
                &&& r is Ok
                &&& r->Ok_0.0.chunks@.len() == 0
                &&& r->Ok_0.0.range is None
                &&& (r->Ok_0.0.other_error matches Some(msg) && msg@
                    == old(self).executor().pending_error()->Some_0->Other_0@)
                &&& !r->Ok_0.1
            } else {
                r == Err::<(Response, bool), Error>(old(self).executor().pending_error()->Some_0)
            },
            (!old(self).outdated(now_ms) && old(self).frame_data(streaming) is Ok && old(
                self,
            ).frame_cut(streaming) is None && old(self).executor().pending_error() is None) ==> {
                &&& r is Ok
                &&& chunks_view(r->Ok_0.0.chunks@) == group_data(old(self).frame_data(streaming)->Ok_0, old(self).batch_row_limit())
                &&& range_view(r->Ok_0.0.range) == response_range(
                    old(self).executor().remaining(),
                    old(self).executor().remaining().len(),
                )
                &&& r->Ok_0.0.other_error is None
                &&& r->Ok_0.1 == (streaming && old(self).executor().remaining().len() > 0)
                &&& final(self).wf()
                &&& final(self).executor().remaining().len() == 0
                &&& final(self).executor().pending_error() is None
            },
            final(self).columns() == old(self).columns(),
            final(self).has_aggr() == old(self).has_aggr(),
            final(self).output_offsets() == old(self).output_offsets(),
            final(self).batch_row_limit() == old(self).batch_row_limit(),
            final(self).chunks_per_stream() == old(self).chunks_per_stream(),
            final(self).req_ctx() == old(self).req_ctx(),
    {
        let ghost rows = old(self).executor().remaining();
        let ghost n = rows.len();
        let ghost l = self.batch_row_limit as nat;
        let ghost cps = self.chunks_per_stream as nat;
        let ghost mut m: nat = 0;
        let ghost mut ds: Seq<Seq<u8>> = Seq::empty();
        let mut chunks: Vec<Chunk> = Vec::new();
        let mut record_cnt: usize = 0;
        let mut start_key: Option<Vec<u8>> = None;
        proof {
            assert(rows.subrange(0, 0) =~= Seq::<Row>::empty());
            assert(chunks_view(chunks@) =~= Seq::<Seq<u8>>::empty());
            assert(rows.subrange(0, n as int) =~= rows);
        }
        loop
            invariant
                self.wf() || m >= 1,
                self.batch_row_limit as nat == l,
                self.chunks_per_stream as nat == cps,
                self.req_ctx == old(self).req_ctx,
                m > 0 ==> now_ms < self.req_ctx.deadline_ms,
                self.columns@ == old(self).columns@,
                self.has_aggr == old(self).has_aggr,
                self.output_offsets@ == old(self).output_offsets@,
                forall|i: int|
                    0 <= i < self.output_offsets@.len() ==> (#[trigger] self.output_offsets@[i])
                        < self.columns@.len(),
                rows == old(self).executor().remaining(),
                l == old(self).batch_row_limit(),
                cps == old(self).chunks_per_stream(),
                n == rows.len(),
                self.batch_row_limit == old(self).batch_row_limit,
                self.chunks_per_stream == old(self).chunks_per_stream,
                m <= n,
                self.executor().remaining() == rows.subrange(m as int, n as int),
                self.executor().pending_error() == old(self).executor().pending_error(),
                m == 0 ==> start_key is None && self.executor().last_key() is None,
                m >= 1 ==> (start_key matches Some(k) && k@ == rows[0].key@),
                m == 1 ==> self.executor().last_key() is None,
                m >= 2 ==> self.executor().last_key() == Some(rows[m - 1].key@),
                old(self).rows_data(rows.subrange(0, m as int)) == Ok::<Seq<Seq<u8>>, Error>(ds),
                chunks_view(chunks@) == group_data(ds, l),
                ds.len() == m,
                (chunks@.len() as nat, record_cnt as nat) == chunk_shape(m, l),
                streaming ==> first_cut(0, n, l, cps) == first_cut(m, n, l, cps),
            decreases n - m,
        {
            let ghost rem0 = self.executor().remaining();
            assert(rem0 == rows.subrange(m as int, n as int));
            let step = self.executor.next();
            proof {
                if rem0.len() > 0 {
                    assert(step == Ok::<Option<Row>, Error>(Some(rem0[0])));
                }
            }
            match step {
                Ok(Some(row)) => {
                    if let Err(e) = self.req_ctx.check_if_outdated(now_ms) {
                        return Err(e);
                    }
                    proof {
                        assert(rem0[0] == rows[m as int]);
                        assert(rows.subrange(m as int + 1, n as int) =~= rows.subrange(m as int, n as int).drop_first());
                        assert(rows.subrange(0, m as int + 1).drop_last() =~= rows.subrange(0, m as int));
                    }
                    if start_key.is_none() {
                        start_key = self.executor.take_last_key();
                    }
                    let data = if self.has_aggr {
                        row.value
                    } else {
                        match inflate_cols(&row, &self.columns, &self.output_offsets) {
                            Ok(v) => v,
                            Err(e) => {
                                proof {
                                    let cut = if streaming {
                                        first_cut(0, n, l, cps)
                                    } else {
                                        None
                                    };
                                    let mm = match cut {
                                        Some(x) => x,
                                        None => n,
                                    };
                                    if streaming {
                                        lemma_first_cut_after(m, n, l, cps);
                                    }
                                    assert(old(self).row_data(rows[m as int]) == Err::<Seq<u8>, Error>(e));
                                    assert(old(self).rows_data(rows.subrange(0, m as int + 1)) == Err::<Seq<Seq<u8>>, Error>(e));
                                    old(self).lemma_rows_data_err_extends(rows, m as int + 1, mm as int);
                                    assert(old(self).rows_data(rows.subrange(0, mm as int)) == Err::<Seq<Seq<u8>>, Error>(e));
                                    assert(old(self).frame_data(streaming) == Err::<Seq<Seq<u8>>, Error>(e));
                                }
                                return Err(e);
                            },
                        }
                    };
                    let ghost g = chunks_view(chunks@);
                    if chunks.len() == 0 || record_cnt >= self.batch_row_limit {
                        chunks.push(Chunk { rows_data: data });
                        record_cnt = 1;
                        proof {
                            assert(chunks_view(chunks@) =~= g.push(data@));
                        }
                    } else {
                        let ghost before = chunks@;
                        let mut last = chunks.pop().unwrap();
                        proof {
                            assert(last == before.last());
                        }
                        last.rows_data.extend_from_slice(data.as_slice());
                        chunks.push(last);
                        record_cnt = record_cnt + 1;
                        proof {
                            assert(chunks@ == before.drop_last().push(last));
                            let target = g.update(g.len() - 1, g.last() + data@);
                            assert(chunks_view(chunks@).len() == target.len());
                            assert forall|i: int| 0 <= i < target.len() implies chunks_view(chunks@)[i]
                                == target[i] by {
                                if i < target.len() - 1 {
                                    assert(chunks@[i] == before[i]);
                                }
                            }
                            assert(chunks_view(chunks@) =~= target);
                        }
                    }
                    proof {
                        let ds2 = ds.push(data@);
                        assert(ds2.drop_last() =~= ds);
                        ds = ds2;
                        m = m + 1;
                    }
                    if streaming && chunks.len() >= self.chunks_per_stream && record_cnt >= self.batch_row_limit {
                        let end_key = self.executor.take_last_key();
                        let resp = make_response(chunks, start_key, end_key);
                        proof {
                            assert(first_cut((m - 1) as nat, n, l, cps) == Some(m));
                        }
                        return Ok((resp, true));
                    }
                    proof {
                        if streaming {
                            assert(!cut_after(m, l, cps));
                        }
                    }
                },
                Ok(None) => {
                    proof {
                        assert(rem0.len() == 0);
                        assert(m == n);
                        if streaming {
                            assert(first_cut(m, n, l, cps) is None);
                        }
                    }
                    let any_row = start_key.is_some();
                    let end_key = self.executor.take_last_key();
                    let resp = make_response(chunks, start_key, end_key);
                    return Ok((resp, streaming && any_row));
                },
                Err(e) => {
                    proof {
                        assert(rem0.len() == 0);
                        assert(m == n);
                    }
                    return match e {
                        Error::Other(msg) => Ok(
                            (Response { chunks: Vec::new(), range: None, other_error: Some(msg) }, false),
                        ),
                        _ => Err(e),
                    };
                },
            }
        }
    }

    /// Adds the executor's counts into `statistics`.
    pub fn collect_statistics_into(&mut self, statistics: &mut Statistics)
        ensures
            *final(statistics) == old(statistics).spec_add(
                Statistics { get: 0, seek: 0, next: 0, processed: old(self).executor().processed() },
            ),
    {
        self.executor.collect_statistics_into(statistics);
    }
}

/// The keys of the first `m` rows strictly ascend (a forward scan).
pub open spec fn keys_ascend(rows: Seq<Row>, m: nat) -> bool {
    forall|i: int, j: int| 0 <= i < j < m ==> lex_lt(#[trigger] rows[i].key@, #[trigger] rows[j].key@)
}

/// The keys of the first `m` rows strictly descend (a backward scan).
pub open spec fn keys_descend(rows: Seq<Row>, m: nat) -> bool {
    forall|i: int, j: int| 0 <= i < j < m ==> lex_lt(#[trigger] rows[j].key@, #[trigger] rows[i].key@)
}

/// For rows that a forward or a backward scan produced, the range a frame
/// reports holds the key of every row in the frame.
pub proof fn lemma_response_range_covers(rows: Seq<Row>, m: nat, t: int)
    requires
        m <= rows.len(),
        0 <= t < m,
        keys_ascend(rows, m) || keys_descend(rows, m),
    ensures
        response_range(rows, m) is Some,
        lex_le(response_range(rows, m)->Some_0.0, rows[t].key@),
        lex_lt(rows[t].key@, response_range(rows, m)->Some_0.1),
{
    let first = rows[0].key@;
    let last = rows[m - 1].key@;
    let k = rows[t].key@;
    if m == 1 {
        lemma_prefix_next_greater(first);
    } else if keys_ascend(rows, m) {
        assert(lex_lt(first, last));
        lemma_lex_total(first, last);
        lemma_prefix_next_greater(last);
        if t < m - 1 {
            assert(lex_lt(k, last));
            lemma_lex_trans(k, last, spec_prefix_next(last));
        }
        if t > 0 {
            assert(lex_lt(first, k));
        }
    } else {
        assert(lex_lt(last, first));
        lemma_prefix_next_greater(first);
        if t > 0 {
            assert(lex_lt(k, first));
            lemma_lex_trans(k, first, spec_prefix_next(first));
        }
        if t < m - 1 {
            assert(lex_lt(last, k));
        }
    }
}

/// In a forward scan cut into frames, a frame starts after the frame before
/// it: the second frame takes the rows that follow the first `m1`.
pub proof fn lemma_stream_starts_ascend(rows: Seq<Row>, m1: nat, m2: nat)
    requires
        0 < m1 < rows.len(),
        0 < m2 <= rows.len() - m1,
        keys_ascend(rows, rows.len()),
    ensures
        response_range(rows, m1) is Some,
        response_range(rows.subrange(m1 as int, rows.len() as int), m2) is Some,
        lex_lt(
            response_range(rows, m1)->Some_0.0,
            response_range(rows.subrange(m1 as int, rows.len() as int), m2)->Some_0.0,
        ),
{
    let rest = rows.subrange(m1 as int, rows.len() as int);
    assert(lex_lt(rows[0].key@, rows[m1 as int].key@));
    assert(rest[0] == rows[m1 as int]);
    if m1 >= 2 {
        assert(lex_lt(rows[0].key@, rows[m1 - 1].key@));
        lemma_lex_total(rows[0].key@, rows[m1 - 1].key@);
    }
    if m2 >= 2 {
        assert(rest[m2 - 1] == rows[m1 + m2 - 1]);
        assert(lex_lt(rows[m1 as int].key@, rows[m1 + m2 - 1].key@));
        lemma_lex_total(rows[m1 as int].key@, rows[m1 + m2 - 1].key@);
    }
}

/// The frame of a stream that takes rows `[cuts[i], cuts[i + 1])`: the range
/// reported for it, as the call that produced it reports it.
pub open spec fn stream_frame_range(rows: Seq<Row>, cuts: Seq<nat>, i: int) -> Option<(Seq<u8>, Seq<u8>)> {
    response_range(rows.subrange(cuts[i] as int, rows.len() as int), (cuts[i + 1] - cuts[i]) as nat)
}

/// The cuts split the rows into consecutive non-empty frames from `cuts[0]`
/// up to the end.
pub open spec fn cuts_partition(rows: Seq<Row>, cuts: Seq<nat>) -> bool {
    &&& cuts.len() >= 2
    &&& cuts.last() == rows.len()
    &&& forall|i: int| 0 <= i < cuts.len() - 1 ==> #[trigger] cuts[i] < cuts[i + 1]
    &&& forall|i: int| 0 <= i < cuts.len() ==> #[trigger] cuts[i] <= rows.len()
}

/// For rows that a forward or a backward scan produced and that a stream
/// hands out frame by frame, the ranges of the frames together cover the
/// key of every row: each key lies in the range of the frame holding it.
pub proof fn lemma_stream_ranges_cover(rows: Seq<Row>, cuts: Seq<nat>, t: int)
    requires
        keys_ascend(rows, rows.len()) || keys_descend(rows, rows.len()),
        cuts_partition(rows, cuts),
        cuts[0] <= t < rows.len(),
    ensures
        exists|i: int|
            0 <= i < cuts.len() - 1 && (#[trigger] stream_frame_range(rows, cuts, i)) is Some && lex_le(
                stream_frame_range(rows, cuts, i)->Some_0.0,
                rows[t].key@,
            ) && lex_lt(rows[t].key@, stream_frame_range(rows, cuts, i)->Some_0.1),
    decreases cuts.len(),
{
    if t < cuts[1] {
        let sub = rows.subrange(cuts[0] as int, rows.len() as int);
        let m = (cuts[1] - cuts[0]) as nat;
        assert(cuts[0] < cuts[1]);
        if keys_ascend(rows, rows.len()) {
            assert(keys_ascend(sub, m)) by {
                assert forall|i: int, j: int| 0 <= i < j < m implies lex_lt(#[trigger] sub[i].key@, #[trigger] sub[j].key@) by {
                    assert(sub[i] == rows[cuts[0] + i] && sub[j] == rows[cuts[0] + j]);
                }
            }
        } else {
            assert(keys_descend(sub, m)) by {
                assert forall|i: int, j: int| 0 <= i < j < m implies lex_lt(#[trigger] sub[j].key@, #[trigger] sub[i].key@) by {
                    assert(sub[i] == rows[cuts[0] + i] && sub[j] == rows[cuts[0] + j]);
                }
            }
        }
        lemma_response_range_covers(sub, m, t - cuts[0]);
        assert(sub[t - cuts[0]] == rows[t]);
        assert(stream_frame_range(rows, cuts, 0) == response_range(sub, m));
    } else {
        let rest = cuts.drop_first();
        assert(cuts_partition(rows, rest)) by {
            assert forall|i: int| 0 <= i < rest.len() - 1 implies #[trigger] rest[i] < rest[i + 1] by {
                assert(cuts[i + 1] < cuts[i + 2]);
            }
            assert forall|i: int| 0 <= i < rest.len() implies #[trigger] rest[i] <= rows.len() by {
                assert(cuts[i + 1] <= rows.len());
            }
        }
        lemma_stream_ranges_cover(rows, rest, t);
        let i = choose|i: int|
            0 <= i < rest.len() - 1 && (#[trigger] stream_frame_range(rows, rest, i)) is Some && lex_le(
                stream_frame_range(rows, rest, i)->Some_0.0,
                rows[t].key@,
            ) && lex_lt(rows[t].key@, stream_frame_range(rows, rest, i)->Some_0.1);
        assert(stream_frame_range(rows, rest, i) == stream_frame_range(rows, cuts, i + 1));
    }
}

} // verus!
