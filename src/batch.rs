//! Planning of the bulk insert into the relational store: the well-formed
//! rows of an upload go out in chunks of a fixed size, each chunk as four
//! parallel columns that one statement unpivots into rows.

use crate::codec::decode_csv;
use crate::codec::decoded_rows;
use crate::codec::row_acceptable;
use crate::codec::RowModel;
use crate::instant::now;
use crate::instant::truncate_to_seconds;
use crate::instant::whole_seconds;
use crate::instant::Timestamp;
use crate::records::NewLog;
use crate::store::new_id;
use crate::store::stored_instant;
use vstd::prelude::*;

verus! {

/// The number of rows in every chunk but the last.
pub const CHUNK_SIZE: usize = 1000;

/// One chunk of rows as four columns of equal length.
#[derive(Debug)]
pub struct ColumnBatch {
    pub ids: Vec<u128>,
    pub user_agents: Vec<String>,
    pub response_times: Vec<i32>,
    pub timestamps: Vec<Timestamp>,
}

impl ColumnBatch {
    /// The four columns have the same length.
    pub open spec fn wf(&self) -> bool {
        &&& self.user_agents@.len() == self.ids@.len()
        &&& self.response_times@.len() == self.ids@.len()
        &&& self.timestamps@.len() == self.ids@.len()
    }

    /// The number of rows.
    pub open spec fn rows(&self) -> nat {
        self.ids@.len()
    }

    /// Row `j` is the record that storing `row` under `id` gives, at `now`
    /// where `row` carries no timestamp.
    pub open spec fn holds(&self, j: int, row: RowModel, id: u128, now: Timestamp) -> bool {
        &&& self.ids@[j] == id
        &&& self.user_agents@[j]@ == row.0
        &&& self.response_times@[j] == row.1
        &&& self.timestamps@[j] == stored_instant(row.2, now)
    }

    /// Row `j` is a record that storing `row` gives, whatever id and clock
    /// it got.
    pub open spec fn holds_row(&self, j: int, row: RowModel) -> bool {
        &&& self.user_agents@[j]@ == row.0
        &&& self.response_times@[j] == row.1
        &&& match row.2 {
            Some(t) => self.timestamps@[j] == truncate_to_seconds(t),
            None => whole_seconds(self.timestamps@[j]),
        }
    }

    /// An empty chunk with room for a full one.
    pub fn new() -> (r: ColumnBatch)
        ensures
            r.wf(),
            r.rows() == 0,
    {
        ColumnBatch {
            ids: Vec::with_capacity(CHUNK_SIZE),
            user_agents: Vec::with_capacity(CHUNK_SIZE),
            response_times: Vec::with_capacity(CHUNK_SIZE),
            timestamps: Vec::with_capacity(CHUNK_SIZE),
        }
    }

    /// The number of rows.
    pub fn len(&self) -> (r: usize)
        requires
            self.wf(),
        ensures
            r == self.rows(),
    {
        self.ids.len()
    }

    /// Appends one row to all four columns.
    pub fn push(&mut self, id: u128, user_agent: String, response_time: i32, timestamp: Timestamp)
        requires
            old(self).wf(),
        ensures
            final(self).wf(),
            final(self).ids@ == old(self).ids@.push(id),
            final(self).user_agents@ == old(self).user_agents@.push(user_agent),
            final(self).response_times@ == old(self).response_times@.push(response_time),
            final(self).timestamps@ == old(self).timestamps@.push(timestamp),
    {
        self.ids.push(id);
        self.user_agents.push(user_agent);
        self.response_times.push(response_time);
        self.timestamps.push(timestamp);
    }
}

/// The number of chunks for `n` rows.
pub open spec fn chunk_count(n: nat) -> nat {
    (n + 999) / 1000
}

/// The number of rows in chunk `k` of `n` rows.
pub open spec fn chunk_rows(n: nat, k: nat) -> int {
    if n - 1000 * k >= 1000 {
        1000
    } else {
        n - 1000 * k
    }
}

/// The chunks cut `n` rows in order: every chunk is full but the last,
/// which holds the rest and is never empty.
pub open spec fn chunks_cut(chunks: Seq<ColumnBatch>, n: nat) -> bool {
    &&& chunks.len() == chunk_count(n)
    &&& forall|k: int|
        0 <= k < chunks.len() ==> (#[trigger] chunks[k]).wf() && chunks[k].rows() == chunk_rows(
            n,
            k as nat,
        )
}

/// Cuts `rows` into chunks of `CHUNK_SIZE`; row `i` goes under `ids[i]`, at
/// `now` where it carries no timestamp, with its sub-second digits dropped.
pub fn plan_chunks_with(rows: &Vec<NewLog>, ids: &Vec<u128>, now: Timestamp) -> (r: Vec<ColumnBatch>)
    requires
        ids@.len() == rows@.len(),
        forall|i: int| 0 <= i < rows@.len() ==> row_acceptable(#[trigger] rows@[i]@),
        now.wf(),
    ensures
        chunks_cut(r@, rows@.len()),
        forall|k: int, j: int|
            0 <= k < r@.len() && 0 <= j < r@[k].rows() ==> #[trigger] r@[k].holds(
                j,
                rows@[1000 * k + j]@,
                ids@[1000 * k + j],
                now,
            ),
{
    let mut done: Vec<ColumnBatch> = Vec::new();
    let mut current = ColumnBatch::new();
    let mut i: usize = 0;
    while i < rows.len()
        invariant
            i <= rows@.len(),
            ids@.len() == rows@.len(),
            forall|x: int| 0 <= x < rows@.len() ==> row_acceptable(#[trigger] rows@[x]@),
            now.wf(),
            current.wf(),
            current.rows() < 1000,
            1000 * done@.len() + current.rows() == i,
            forall|k: int| 0 <= k < done@.len() ==> (#[trigger] done@[k]).wf() && done@[k].rows() == 1000,
            forall|k: int, j: int|
                0 <= k < done@.len() && 0 <= j < done@[k].rows() ==> #[trigger] done@[k].holds(
                    j,
                    rows@[1000 * k + j]@,
                    ids@[1000 * k + j],
                    now,
                ),
            forall|j: int|
                0 <= j < current.rows() ==> #[trigger] current.holds(
                    j,
                    rows@[1000 * done@.len() + j]@,
                    ids@[1000 * done@.len() + j],
                    now,
                ),
        decreases rows.len() - i,
    {
        let row = &rows[i];
        assert(row_acceptable(rows@[i as int]@));
        let instant = match row.timestamp {
            Some(t) => t.trunc_subsecs(),
            None => now.trunc_subsecs(),
        };
        let ghost cur0 = current;
        let ghost base = 1000 * done@.len();
        current.push(ids[i], row.user_agent.clone(), row.response_time, instant);
        proof {
            assert forall|j: int| 0 <= j < current.rows() implies #[trigger] current.holds(
                j,
                rows@[base + j]@,
                ids@[base + j],
                now,
            ) by {
                if j < cur0.rows() {
                    assert(cur0.holds(j, rows@[base + j]@, ids@[base + j], now));
                }
            }
        }
        i = i + 1;
        if current.len() == CHUNK_SIZE {
            let ghost done0 = done@;
            let ghost full = current;
            done.push(current);
            proof {
                assert forall|k: int, j: int|
                    0 <= k < done@.len() && 0 <= j < done@[k].rows() implies #[trigger] done@[k].holds(
                    j,
                    rows@[1000 * k + j]@,
                    ids@[1000 * k + j],
                    now,
                ) by {
                    if k < done0.len() {
                        assert(done0[k].holds(j, rows@[1000 * k + j]@, ids@[1000 * k + j], now));
                    } else {
                        assert(full.holds(j, rows@[base + j]@, ids@[base + j], now));
                    }
                }
            }
            current = ColumnBatch::new();
        }
    }
    let ghost d = done@.len();
    let ghost c = current.rows();
    let ghost n = rows@.len();
    if current.len() > 0 {
        done.push(current);
    }
    assert(chunk_count(n) == done@.len()) by (nonlinear_arith)
        requires
            n == 1000 * d + c,
            c < 1000,
            done@.len() == (if c > 0 { d + 1 } else { d }),
    ;
    done
}

/// Cuts the well-formed rows of a headerless CSV text into chunks of
/// `CHUNK_SIZE`, in order, each row under a fresh random id and at the
/// current instant where it carries no timestamp; malformed rows are
/// skipped.
pub fn plan_csv(data: &[u8]) -> (r: Vec<ColumnBatch>)
    ensures
        data@.len() == 0 ==> r@.len() == 0,
        chunks_cut(r@, decoded_rows(data@).len()),
        forall|k: int, j: int|
            0 <= k < r@.len() && 0 <= j < r@[k].rows() ==> #[trigger] r@[k].holds_row(
                j,
                decoded_rows(data@)[1000 * k + j],
            ),
{
    let rows = decode_csv(data);
    let mut ids: Vec<u128> = Vec::new();
    let mut i: usize = 0;
    while i < rows.len()
        invariant
            i <= rows@.len(),
            ids@.len() == i,
        decreases rows.len() - i,
    {
        ids.push(new_id());
        i = i + 1;
    }
    let clock = now();
    let chunks = plan_chunks_with(&rows, &ids, clock);
    proof {
        crate::instant::lemma_truncate_le(clock);
        assert(rows@.map_values(|l: NewLog| l@).len() == rows@.len());
        assert forall|k: int, j: int|
            0 <= k < chunks@.len() && 0 <= j < chunks@[k].rows() implies #[trigger] chunks@[k].holds_row(
            j,
            decoded_rows(data@)[1000 * k + j],
        ) by {
            assert(chunks@[k].holds(j, rows@[1000 * k + j]@, ids@[1000 * k + j], clock));
            assert(chunks@[k].rows() == chunk_rows(rows@.len(), k as nat));
            assert(rows@.map_values(|l: NewLog| l@)[1000 * k + j] == rows@[1000 * k + j]@);
            if let Some(t) = rows@[1000 * k + j]@.2 {
                crate::instant::lemma_truncate_le(t);
            }
        }
    }
    chunks
}

/// The number of rows in some chunks together.
pub open spec fn total_rows(chunks: Seq<ColumnBatch>) -> nat
    decreases chunks.len(),
{
    if chunks.len() == 0 {
        0
    } else {
        total_rows(chunks.drop_last()) + chunks.last().rows()
    }
}

proof fn lemma_prefix_rows(chunks: Seq<ColumnBatch>, n: nat, k: nat)
    requires
        chunks_cut(chunks, n),
        k <= chunks.len(),
    ensures
        total_rows(chunks.take(k as int)) == if 1000 * k <= n { 1000 * k } else { n },
    decreases k,
{
    if k > 0 {
        let km = (k - 1) as nat;
        lemma_prefix_rows(chunks, n, km);
        assert(chunks.take(k as int).drop_last() =~= chunks.take(km as int));
        assert(chunks.take(k as int).last() == chunks[km as int]);
        assert(1000 * km < n) by (nonlinear_arith)
            requires
                km < chunks.len(),
                chunks.len() == (n + 999) / 1000,
        ;
    }
}

/// The chunks of `n` rows hold `n` rows together: a bulk load stores
/// exactly the rows that it planned.
pub proof fn lemma_chunks_hold_all_rows(chunks: Seq<ColumnBatch>, n: nat)
    requires
        chunks_cut(chunks, n),
    ensures
        total_rows(chunks) == n,
{
    lemma_prefix_rows(chunks, n, chunks.len());
    assert(chunks.take(chunks.len() as int) =~= chunks);
    assert(1000 * chunks.len() >= n) by (nonlinear_arith)
        requires
            chunks.len() == (n + 999) / 1000,
    ;
}

} // verus!
