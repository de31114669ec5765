//! An in-memory record store: the records in order of insertion, each with
//! an id of its own.

use crate::codec::decode_csv;
use crate::codec::decoded_rows;
use crate::codec::row_acceptable;
use crate::codec::RowModel;
use crate::instant::instant_le;
use crate::instant::now;
use crate::instant::truncate_to_seconds;
use crate::instant::whole_seconds;
use crate::instant::Timestamp;
use crate::records::AppError;
use crate::records::DateTimeRange;
use crate::records::Log;
use crate::records::NewLog;
use uuid::Uuid;
use vstd::prelude::*;

verus! {

/// Relies on `Uuid::new_v4` and `Uuid::as_u128`: a random id, of which
/// nothing is promised.
#[verifier::external_body]
pub fn new_id() -> (r: u128) {
    Uuid::new_v4().as_u128()
}

/// A stored record keeps the invariants of storage: a response time that is
/// not negative and an instant in whole seconds.
pub open spec fn log_wf(l: Log) -> bool {
    &&& l.response_time >= 0
    &&& l.timestamp.wf()
    &&& whole_seconds(l.timestamp)
}

/// No two records share an id.
pub open spec fn ids_unique(logs: Seq<Log>) -> bool {
    forall|i: int, j: int|
        0 <= i < logs.len() && 0 <= j < logs.len() && i != j ==> #[trigger] logs[i].id
            != #[trigger] logs[j].id
}

/// Some record carries `id`.
pub open spec fn has_id(logs: Seq<Log>, id: u128) -> bool {
    exists|i: int| 0 <= i < logs.len() && #[trigger] logs[i].id == id
}

/// The instant under which a record is stored: its own, or `now` where it
/// has none, with the sub-second digits dropped.
pub open spec fn stored_instant(t: Option<Timestamp>, now: Timestamp) -> Timestamp {
    match t {
        Some(t) => truncate_to_seconds(t),
        None => truncate_to_seconds(now),
    }
}

/// `l` is the record that storing `row` under `id` gives.
pub open spec fn stored_as(l: Log, row: RowModel, id: u128, now: Timestamp) -> bool {
    &&& l.id == id
    &&& l.user_agent@ == row.0
    &&& l.response_time == row.1
    &&& l.timestamp == stored_instant(row.2, now)
}

/// `l` is a record that storing `row` gives, whatever id and clock it got.
pub open spec fn stores_row(l: Log, row: RowModel) -> bool {
    &&& l.user_agent@ == row.0
    &&& l.response_time == row.1
    &&& match row.2 {
        Some(t) => l.timestamp == truncate_to_seconds(t),
        None => whole_seconds(l.timestamp),
    }
}

/// The records in `logs` whose instant lies in `range`, in order.
pub open spec fn in_range(logs: Seq<Log>, range: DateTimeRange) -> Seq<Log> {
    logs.filter(|l: Log| range.includes(l.timestamp))
}

/// The in-memory store.
#[derive(Debug)]
pub struct MemDb {
    logs: Vec<Log>,
}

impl View for MemDb {
    type V = Seq<Log>;

    closed spec fn view(&self) -> Seq<Log> {
        self.logs@
    }
}

impl MemDb {
    /// Every record keeps the invariants of storage, and ids are unique.
    pub open spec fn wf(&self) -> bool {
        &&& forall|i: int| 0 <= i < self@.len() ==> log_wf(#[trigger] self@[i])
        &&& ids_unique(self@)
    }

    /// An empty store.
    pub fn new() -> (r: MemDb)
        ensures
            r.wf(),
            r@ == Seq::<Log>::empty(),
    {
        MemDb { logs: Vec::new() }
    }

    /// A store that holds `logs`, if they keep the invariants of storage
    /// and their ids are unique.
    pub fn from_logs(logs: Vec<Log>) -> (r: Option<MemDb>)
        ensures
            match r {
                Some(db) => db@ == logs@ && db.wf(),
                None => !((forall|i: int| 0 <= i < logs@.len() ==> log_wf(#[trigger] logs@[i]))
                    && ids_unique(logs@)),
            },
    {
        let mut db = MemDb::new();
        let mut i: usize = 0;
        while i < logs.len()
            invariant
                i <= logs@.len(),
                db.wf(),
                db@ == logs@.subrange(0, i as int),
            decreases logs.len() - i,
        {
            let log = &logs[i];
            if log.response_time < 0 || Timestamp::new(log.timestamp.secs, log.timestamp.nanos).is_none()
                || log.timestamp.nanos % 1_000_000_000 != 0 || db.contains_id(log.id) {
                proof {
                    if !log_wf(*log) {
                    } else {
                        let k = choose|k: int| 0 <= k < db@.len() && #[trigger] db@[k].id == log.id;
                        assert(logs@[k].id == logs@[i as int].id);
                    }
                }
                return None;
            }
            db.logs.push(log.clone());
            i = i + 1;
        }
        assert(logs@.subrange(0, logs@.len() as int) =~= logs@);
        Some(db)
    }

    /// The number of records.
    pub fn len(&self) -> (r: usize)
        ensures
            r == self@.len(),
    {
        self.logs.len()
    }

    /// Whether some record carries `id`.
    pub fn contains_id(&self, id: u128) -> (r: bool)
        ensures
            r == has_id(self@, id),
    {
        let mut i: usize = 0;
        while i < self.logs.len()
            invariant
                i <= self@.len(),
                forall|k: int| 0 <= k < i ==> #[trigger] self@[k].id != id,
            decreases self.logs.len() - i,
        {
            if self.logs[i].id == id {
                return true;
            }
            i = i + 1;
        }
        false
    }

    /// Stores one record under `id`, at `now` where it carries no timestamp.
    /// Fails, and stores nothing, where `id` is taken.
    pub fn insert_log_with(
        &mut self,
        user_agent: &str,
        response_time: i32,
        timestamp: Option<Timestamp>,
        id: u128,
        now: Timestamp,
    ) -> (r: Result<Log, AppError>)
        requires
            old(self).wf(),
            response_time >= 0,
            timestamp matches Some(t) ==> t.wf(),
            now.wf(),
        ensures
            final(self).wf(),
            match r {
                Ok(log) => {
                    &&& !has_id(old(self)@, id)
                    &&& stored_as(log, (user_agent@, response_time, timestamp), id, now)
                    &&& final(self)@ == old(self)@.push(log)
                },
                Err(_) => has_id(old(self)@, id) && final(self)@ == old(self)@,
            },
    {
        if self.contains_id(id) {
            return Err(AppError);
        }
        let instant = match timestamp {
            Some(t) => t.trunc_subsecs(),
            None => now.trunc_subsecs(),
        };
        let log = Log {
            id,
            user_agent: user_agent.to_owned(),
            response_time,
            timestamp: instant,
        };
        let ghost before = self@;
        self.logs.push(log.clone());
        assert forall|i: int, j: int|
            0 <= i < self@.len() && 0 <= j < self@.len() && i != j implies #[trigger] self@[i].id
            != #[trigger] self@[j].id by {
            if i == before.len() {
                assert(before[j].id == self@[j].id);
            } else if j == before.len() {
                assert(before[i].id == self@[i].id);
            }
        }
        Ok(log)
    }

    /// Stores one record under a fresh random id, at the current instant
    /// where it carries no timestamp. Fails, and stores nothing, where the
    /// drawn id is taken.
    pub fn insert_log(&mut self, user_agent: &str, response_time: i32, timestamp: Option<Timestamp>) -> (r:
        Result<Log, AppError>)
        requires
            old(self).wf(),
            response_time >= 0,
            timestamp matches Some(t) ==> t.wf(),
        ensures
            final(self).wf(),
            match r {
                Ok(log) => {
                    &&& stores_row(log, (user_agent@, response_time, timestamp))
                    &&& final(self)@ == old(self)@.push(log)
                },
                Err(_) => old(self)@.len() > 0 && final(self)@ == old(self)@,
            },
    {
        let id = new_id();
        let clock = match timestamp {
            Some(t) => t,
            None => now(),
        };
        let r = self.insert_log_with(user_agent, response_time, timestamp, id, clock);
        proof {
            crate::instant::lemma_truncate_le(clock);
        }
        r
    }

    /// The records whose instant lies in the inclusive range from `from` to
    /// `until`; a missing end leaves that side unbounded.
    pub fn get_logs(&self, from: Option<Timestamp>, until: Option<Timestamp>) -> (r: Vec<Log>)
        ensures
            r@ == in_range(self@, DateTimeRange { from, until }),
    {
        let range = DateTimeRange { from, until };
        let mut out: Vec<Log> = Vec::new();
        let mut i: usize = 0;
        while i < self.logs.len()
            invariant
                i <= self@.len(),
                out@ == in_range(self@.subrange(0, i as int), range),
            decreases self.logs.len() - i,
        {
            let log = &self.logs[i];
            proof {
                let pred = |l: Log| range.includes(l.timestamp);
                assert(self@.subrange(0, i + 1) =~= self@.subrange(0, i as int).push(*log));
                self@.subrange(0, i as int).lemma_filter_push(*log, pred);
            }
            if range.contains(&log.timestamp) {
                out.push(log.clone());
            }
            i = i + 1;
        }
        assert(self@.subrange(0, self@.len() as int) =~= self@);
        out
    }

    /// Stores `rows` in order, row `j` under `ids[j]`, at `now` where it
    /// carries no timestamp. Stops with an error at the first row whose id
    /// is taken; the rows before it stay stored.
    pub fn load_rows_with(&mut self, rows: &Vec<NewLog>, ids: &Vec<u128>, now: Timestamp) -> (r: Result<
        u64,
        AppError,
    >)
        requires
            old(self).wf(),
            ids@.len() == rows@.len(),
            forall|i: int| 0 <= i < rows@.len() ==> row_acceptable(#[trigger] rows@[i]@),
            now.wf(),
        ensures
            final(self).wf(),
            old(self)@.len() <= final(self)@.len() <= old(self)@.len() + rows@.len(),
            final(self)@.subrange(0, old(self)@.len() as int) == old(self)@,
            forall|j: int|
                0 <= j < final(self)@.len() - old(self)@.len() ==> stored_as(
                    #[trigger] final(self)@[old(self)@.len() + j],
                    rows@[j]@,
                    ids@[j],
                    now,
                ),
            r is Ok <==> ids_fresh(old(self)@, ids@),
            match r {
                Ok(n) => n == rows@.len() && final(self)@.len() == old(self)@.len() + rows@.len(),
                Err(_) => final(self)@.len() < old(self)@.len() + rows@.len() && has_id(
                    final(self)@,
                    ids@[final(self)@.len() - old(self)@.len()],
                ),
            },
    {
        let ghost start = self@;
        let mut i: usize = 0;
        while i < rows.len()
            invariant
                i <= rows@.len(),
                ids@.len() == rows@.len(),
                forall|k: int| 0 <= k < rows@.len() ==> row_acceptable(#[trigger] rows@[k]@),
                now.wf(),
                self.wf(),
                start == old(self)@,
                self@.len() == start.len() + i,
                self@.subrange(0, start.len() as int) == start,
                forall|j: int|
                    0 <= j < i ==> stored_as(#[trigger] self@[start.len() + j], rows@[j]@, ids@[j], now),
                ids_fresh(start, ids@.subrange(0, i as int)),
            decreases rows.len() - i,
        {
            let row = &rows[i];
            let ghost before = self@;
            assert(row_acceptable(rows@[i as int]@));
            let inserted = self.insert_log_with(
                row.user_agent.as_str(),
                row.response_time,
                row.timestamp,
                ids[i],
                now,
            );
            match inserted {
                Ok(_) => {
                    proof {
                        assert(self@.subrange(0, start.len() as int) =~= before.subrange(0, start.len() as int));
                        let pre = ids@.subrange(0, i as int);
                        let post = ids@.subrange(0, i + 1);
                        assert forall|a: int| 0 <= a < post.len() implies !has_id(start, #[trigger] post[a]) by {
                            if a == i {
                                if has_id(start, post[a]) {
                                    let k = choose|k: int| 0 <= k < start.len() && #[trigger] start[k].id == post[a];
                                    assert(before[k].id == post[a]);
                                }
                            } else {
                                assert(post[a] == pre[a]);
                            }
                        }
                        assert forall|a: int, b: int|
                            0 <= a < post.len() && 0 <= b < post.len() && a != b implies #[trigger] post[a]
                            != #[trigger] post[b] by {
                            if a == i {
                                assert(before[start.len() + b].id == ids@[b]);
                            } else if b == i {
                                assert(before[start.len() + a].id == ids@[a]);
                            } else {
                                assert(post[a] == pre[a] && post[b] == pre[b]);
                            }
                        }
                    }
                },
                Err(e) => {
                    proof {
                        let k = choose|k: int| 0 <= k < before.len() && #[trigger] before[k].id == ids@[i as int];
                        if k < start.len() {
                            assert(start[k] == before[k]);
                            assert(has_id(start, ids@[i as int]));
                        } else {
                            let j = k - start.len();
                            assert(stored_as(before[start.len() + j], rows@[j]@, ids@[j], now));
                            assert(ids@[j] == ids@[i as int]);
                        }
                        assert(!ids_fresh(start, ids@));
                    }
                    return Err(e);
                },
            }
            i = i + 1;
        }
        assert(ids@.subrange(0, i as int) =~= ids@);
        Ok(rows.len() as u64)
    }

    /// Reads a headerless CSV text and stores its well-formed rows in order,
    /// each under a fresh random id, with the current instant where a row
    /// carries no timestamp; malformed rows are skipped. Returns how many
    /// were stored. Fails where a drawn id is taken, after storing the rows
    /// before it.
    pub fn load_csv(&mut self, data: &[u8]) -> (r: Result<u64, AppError>)
        requires
            old(self).wf(),
        ensures
            final(self).wf(),
            old(self)@.len() <= final(self)@.len() <= old(self)@.len() + decoded_rows(data@).len(),
            final(self)@.subrange(0, old(self)@.len() as int) == old(self)@,
            forall|j: int|
                0 <= j < final(self)@.len() - old(self)@.len() ==> stores_row(
                    #[trigger] final(self)@[old(self)@.len() + j],
                    decoded_rows(data@)[j],
                ),
            match r {
                Ok(n) => n == decoded_rows(data@).len() && final(self)@.len() == old(self)@.len() + n,
                Err(_) => final(self)@.len() < old(self)@.len() + decoded_rows(data@).len(),
            },
            old(self)@.len() == 0 && decoded_rows(data@).len() <= 1 ==> r is Ok,
            data@.len() == 0 ==> r == Ok::<u64, AppError>(0) && final(self)@ == old(self)@,
    {
        let rows = decode_csv(data);
        let mut ids: Vec<u128> = Vec::new();
        let mut i: usize = 0;
        while i < rows.len()
            invariant
                i <= rows@.len(),
                ids@.len() == i,
            decreases rows.len() - i,
        {
            ids.push(new_id());
            i = i + 1;
        }
        let clock = now();
        proof {
            crate::instant::lemma_truncate_le(clock);
        }
        let ghost start = self@;
        let r = self.load_rows_with(&rows, &ids, clock);
        proof {
            assert forall|j: int| 0 <= j < self@.len() - start.len() implies stores_row(
                #[trigger] self@[start.len() + j],
                decoded_rows(data@)[j],
            ) by {
                assert(rows@.map_values(|l: NewLog| l@)[j] == rows@[j]@);
                let row = rows@[j]@;
                if let Some(t) = row.2 {
                    crate::instant::lemma_truncate_le(t);
                }
            }
        }
        r
    }
}

/// The ids are pairwise distinct and none of them is taken in `logs`.
pub open spec fn ids_fresh(logs: Seq<Log>, ids: Seq<u128>) -> bool {
    &&& forall|i: int| 0 <= i < ids.len() ==> !has_id(logs, #[trigger] ids[i])
    &&& forall|i: int, j: int|
        0 <= i < ids.len() && 0 <= j < ids.len() && i != j ==> #[trigger] ids[i] != #[trigger] ids[j]
}

/// A query over a store that gained one record returns what it returned
/// before, followed by that record where its instant lies in the range.
pub proof fn lemma_query_after_insert(logs: Seq<Log>, log: Log, range: DateTimeRange)
    ensures
        in_range(logs.push(log), range) == if range.includes(log.timestamp) {
            in_range(logs, range).push(log)
        } else {
            in_range(logs, range)
        },
{
    logs.lemma_filter_push(log, |l: Log| range.includes(l.timestamp));
}

/// After storing a record with a timestamp `t` in whole seconds, a query
/// from `t` to `t` returns, last, a record with the same user agent,
/// response time and timestamp.
pub proof fn lemma_point_query_after_insert(logs: Seq<Log>, log: Log, row: RowModel, t: Timestamp)
    requires
        row.2 == Some(t),
        t.wf(),
        whole_seconds(t),
        stores_row(log, row),
    ensures
        ({
            let found = in_range(logs.push(log), DateTimeRange { from: Some(t), until: Some(t) });
            &&& found.len() > 0
            &&& found.last() == log
            &&& found.last().user_agent@ == row.0
            &&& found.last().response_time == row.1
            &&& found.last().timestamp == t
        }),
{
    crate::instant::lemma_truncate_le(t);
    lemma_query_after_insert(logs, log, DateTimeRange { from: Some(t), until: Some(t) });
}

/// A range whose start comes after its end holds no record.
pub proof fn lemma_inverted_range_empty(logs: Seq<Log>, from: Timestamp, until: Timestamp)
    requires
        !instant_le(from, until),
    ensures
        in_range(logs, DateTimeRange { from: Some(from), until: Some(until) }).len() == 0,
    decreases logs.len(),
{
    let range = DateTimeRange { from: Some(from), until: Some(until) };
    if logs.len() > 0 {
        lemma_inverted_range_empty(logs.drop_last(), from, until);
        assert(logs.drop_last().push(logs.last()) =~= logs);
        lemma_query_after_insert(logs.drop_last(), logs.last(), range);
    }
}

proof fn lemma_in_range_subset(logs: Seq<Log>, range: DateTimeRange, l: Log)
    requires
        in_range(logs, range).contains(l),
    ensures
        logs.contains(l),
        range.includes(l.timestamp),
    decreases logs.len(),
{
    let rest = logs.drop_last();
    assert(rest.push(logs.last()) =~= logs);
    lemma_query_after_insert(rest, logs.last(), range);
    if l != logs.last() {
        assert(in_range(rest, range).contains(l)) by {
            let i = choose|i: int| 0 <= i < in_range(logs, range).len() && in_range(logs, range)[i] == l;
            if range.includes(logs.last().timestamp) {
                assert(in_range(rest, range)[i] == l);
            }
        }
        lemma_in_range_subset(rest, range, l);
        let j = choose|j: int| 0 <= j < rest.len() && rest[j] == l;
        assert(logs[j] == l);
    } else {
        assert(logs[logs.len() - 1] == l);
        if !range.includes(l.timestamp) {
            lemma_in_range_subset(rest, range, l);
        }
    }
}

/// A query returns exactly the stored records whose instant lies in the
/// range: each of them, and nothing else.
pub proof fn lemma_in_range_members(logs: Seq<Log>, range: DateTimeRange)
    ensures
        forall|l: Log|
            #[trigger] in_range(logs, range).contains(l) <==> (logs.contains(l) && range.includes(
                l.timestamp,
            )),
{
    let pred = |l: Log| range.includes(l.timestamp);
    assert forall|l: Log| #[trigger] in_range(logs, range).contains(l) <==> (logs.contains(l)
        && range.includes(l.timestamp)) by {
        if in_range(logs, range).contains(l) {
            lemma_in_range_subset(logs, range, l);
        }
        if logs.contains(l) && range.includes(l.timestamp) {
            let i = choose|i: int| 0 <= i < logs.len() && logs[i] == l;
            logs.lemma_filter_contains(pred, i);
        }
    }
}

} // verus!
