//! The observation store: ordered, deduplicating storage of balance
//! observations keyed by their instant `date_time`.
//!
//! The store keeps its rows sorted by `date_time`, strictly ascending, so an
//! instant occurs at most once. `insert_if_absent` treats a conflict on the
//! instant as success with no change; `latest` hands out the row with the
//! greatest instant; `range_since` the ascending run of rows at or after a
//! given instant.
use vstd::prelude::*;

use crate::types::DataStatusRow;

verus! {

/// Rows strictly ascending by `date_time`: the store's order, and uniqueness
/// of the instant, in one statement.
pub open spec fn sorted_by_at(rows: Seq<DataStatusRow>) -> bool {
    forall|i: int, j: int| 0 <= i < j < rows.len() ==> rows[i].date_time < rows[j].date_time
}

/// Does some row carry the instant `at`?
pub open spec fn contains_at(rows: Seq<DataStatusRow>, at: i64) -> bool {
    exists|i: int| 0 <= i < rows.len() && rows[i].date_time == at
}

/// Number of leading rows whose instant is below `at`; in a sorted store,
/// where a row with instant `at` stands or would stand.
pub open spec fn split_pos(rows: Seq<DataStatusRow>, at: i64) -> int
    decreases rows.len(),
{
    if rows.len() == 0 {
        0
    } else if rows[0].date_time < at {
        1 + split_pos(rows.drop_first(), at)
    } else {
        0
    }
}

/// The row `insert_if_absent` makes.
pub open spec fn made_row(id: i64, p: i32, mb: i32, at: i64, created_at: i64) -> DataStatusRow {
    DataStatusRow {
        id,
        remaining_percentage: p,
        remaining_data_mb: mb,
        date_time: at,
        created_at,
    }
}

/// What `insert_if_absent` does to the rows: nothing when the instant is
/// already present, else the new row enters at its sorted position.
pub open spec fn store_insert(
    rows: Seq<DataStatusRow>,
    id: i64,
    p: i32,
    mb: i32,
    at: i64,
    created_at: i64,
) -> Seq<DataStatusRow> {
    if contains_at(rows, at) {
        rows
    } else {
        rows.insert(split_pos(rows, at), made_row(id, p, mb, at, created_at))
    }
}

/// The instant of the newest row, if any.
pub open spec fn latest_at(rows: Seq<DataStatusRow>) -> Option<i64> {
    if rows.len() == 0 {
        None
    } else {
        Some(rows.last().date_time)
    }
}

pub proof fn lemma_split_pos_props(rows: Seq<DataStatusRow>, at: i64)
    ensures
        0 <= split_pos(rows, at) <= rows.len(),
        forall|i: int| 0 <= i < split_pos(rows, at) ==> rows[i].date_time < at,
        sorted_by_at(rows) && split_pos(rows, at) < rows.len() ==> rows[split_pos(
            rows,
            at,
        )].date_time >= at,
    decreases rows.len(),
{
    if rows.len() > 0 && rows[0].date_time < at {
        let rest = rows.drop_first();
        lemma_split_pos_props(rest, at);
        assert forall|i: int| 0 <= i < split_pos(rows, at) implies rows[i].date_time < at by {
            if i >= 1 {
                assert(rest[i - 1] == rows[i]);
                assert(rest[i - 1].date_time < at);
            }
        }
        if sorted_by_at(rows) {
            assert(sorted_by_at(rest)) by {
                assert(forall|i: int, j: int|
                    0 <= i < j < rest.len() ==> rest[i].date_time < rest[j].date_time);
            }
            let sp = split_pos(rows, at);
            if sp < rows.len() {
                assert(rows[sp] == rest[sp - 1]);
            }
        }
    }
}

/// In a sorted store an instant occurs only at the split position.
pub proof fn lemma_contains_at_split(rows: Seq<DataStatusRow>, at: i64)
    requires
        sorted_by_at(rows),
    ensures
        contains_at(rows, at) <==> (split_pos(rows, at) < rows.len() && rows[split_pos(
            rows,
            at,
        )].date_time == at),
{
    lemma_split_pos_props(rows, at);
    let sp = split_pos(rows, at);
    if contains_at(rows, at) {
        let w = choose|i: int| 0 <= i < rows.len() && rows[i].date_time == at;
        if w < sp {
            assert(rows[w].date_time < at);
        }
        if w > sp {
            assert(rows[sp].date_time < rows[w].date_time);
            assert(rows[sp].date_time >= at);
        }
    }
}

/// The greater of a possibly absent instant and an instant.
pub open spec fn opt_max(a: Option<i64>, b: i64) -> Option<i64> {
    match a {
        None => Some(b),
        Some(x) => if x >= b {
            Some(x)
        } else {
            Some(b)
        },
    }
}

/// What one insert does to a sorted store: the result is sorted, holds the
/// instant, grows only when the instant was absent, its newest instant is the
/// maximum of old and new, and the row at the inserted instant is the row
/// already there, or else the row made now.
pub proof fn lemma_store_insert_props(
    rows: Seq<DataStatusRow>,
    id: i64,
    p: i32,
    mb: i32,
    at: i64,
    created_at: i64,
)
    requires
        sorted_by_at(rows),
    ensures
        sorted_by_at(store_insert(rows, id, p, mb, at, created_at)),
        contains_at(store_insert(rows, id, p, mb, at, created_at), at),
        store_insert(rows, id, p, mb, at, created_at).len() == rows.len() + (
        if contains_at(rows, at) {
            0int
        } else {
            1int
        }),
        latest_at(store_insert(rows, id, p, mb, at, created_at)) == opt_max(latest_at(rows), at),
        forall|i: int|
            #![trigger store_insert(rows, id, p, mb, at, created_at)[i]]
            0 <= i < store_insert(rows, id, p, mb, at, created_at).len() && store_insert(
                rows,
                id,
                p,
                mb,
                at,
                created_at,
            )[i].date_time == at ==> store_insert(rows, id, p, mb, at, created_at)[i] == (
            if contains_at(rows, at) {
                rows[split_pos(rows, at)]
            } else {
                made_row(id, p, mb, at, created_at)
            }),
{
    lemma_split_pos_props(rows, at);
    lemma_contains_at_split(rows, at);
    let sp = split_pos(rows, at);
    if contains_at(rows, at) {
        // nothing changes; the instant is at the split position, and nowhere
        // else, the rows being sorted
        assert forall|i: int|
            0 <= i < rows.len() && rows[i].date_time == at implies rows[i] == rows[sp] by {
            if i < sp {
                assert(rows[i].date_time < at);
            }
            if i > sp {
                assert(rows[sp].date_time < rows[i].date_time);
            }
        }
        let w = choose|i: int| 0 <= i < rows.len() && rows[i].date_time == at;
        assert(rows[w].date_time <= rows.last().date_time);
    } else {
        let row = made_row(id, p, mb, at, created_at);
        let out = rows.insert(sp, row);
        // every row at or after the split position lies strictly above `at`
        assert forall|i: int| sp <= i < rows.len() implies rows[i].date_time > at by {
            if i > sp {
                assert(rows[sp].date_time < rows[i].date_time);
            }
            assert(rows[i].date_time != at);
        }
        assert(sorted_by_at(out)) by {
            assert(forall|i: int|
                0 <= i < out.len() ==> out[i] == (if i < sp {
                    rows[i]
                } else if i == sp {
                    row
                } else {
                    rows[i - 1]
                }));
        }
        assert(out[sp].date_time == at);
        if sp == rows.len() {
            assert(out.last() == row);
            if rows.len() > 0 {
                assert(rows.last().date_time < at);
            }
        } else {
            assert(out.last() == rows[rows.len() - 1]);
            assert(rows.last().date_time > at);
            if rows.len() > 0 && latest_at(rows) is Some {
            }
        }
        assert forall|i: int|
            0 <= i < out.len() && out[i].date_time == at implies out[i] == row by {
            if i < sp {
                assert(out[i] == rows[i]);
                assert(rows[i].date_time < at);
            }
            if i > sp {
                assert(out[i] == rows[i - 1]);
                assert(rows[i - 1].date_time > at);
            }
        }
    }
}

/// Idempotence of insert: after a first insert at a fresh instant `at`, any
/// further insert at `at` leaves the store as it stands, and every row at
/// `at` carries the values of that first insert.
pub proof fn lemma_insert_idempotent(
    rows: Seq<DataStatusRow>,
    id1: i64,
    p1: i32,
    mb1: i32,
    c1: i64,
    id2: i64,
    p2: i32,
    mb2: i32,
    c2: i64,
    at: i64,
)
    requires
        sorted_by_at(rows),
        !contains_at(rows, at),
    ensures
        store_insert(
            store_insert(rows, id1, p1, mb1, at, c1),
            id2,
            p2,
            mb2,
            at,
            c2,
        ) == store_insert(rows, id1, p1, mb1, at, c1),
        forall|i: int|
            #![trigger store_insert(rows, id1, p1, mb1, at, c1)[i]]
            0 <= i < store_insert(rows, id1, p1, mb1, at, c1).len() && store_insert(
                rows,
                id1,
                p1,
                mb1,
                at,
                c1,
            )[i].date_time == at ==> store_insert(rows, id1, p1, mb1, at, c1)[i] == made_row(
                id1,
                p1,
                mb1,
                at,
                c1,
            ),
        contains_at(store_insert(rows, id1, p1, mb1, at, c1), at),
{
    lemma_store_insert_props(rows, id1, p1, mb1, at, c1);
}

/// One insert call: the id used, the percentage, the megabytes, the instant,
/// and the insertion instant.
pub type InsertCall = (i64, i32, i32, i64, i64);

/// The rows after a sequence of inserts.
pub open spec fn apply_inserts(rows: Seq<DataStatusRow>, calls: Seq<InsertCall>) -> Seq<
    DataStatusRow,
>
    decreases calls.len(),
{
    if calls.len() == 0 {
        rows
    } else {
        apply_inserts(
            store_insert(rows, calls[0].0, calls[0].1, calls[0].2, calls[0].3, calls[0].4),
            calls.drop_first(),
        )
    }
}

/// The maximum instant among `prev` and the instants of `calls`.
pub open spec fn max_at_of(prev: Option<i64>, calls: Seq<InsertCall>) -> Option<i64>
    decreases calls.len(),
{
    if calls.len() == 0 {
        prev
    } else {
        max_at_of(opt_max(prev, calls[0].3), calls.drop_first())
    }
}

/// Monotone latest: after any sequence of inserts into a sorted store, the
/// newest instant is the maximum of the prior newest instant and the
/// inserted instants.
pub proof fn lemma_latest_monotone(rows: Seq<DataStatusRow>, calls: Seq<InsertCall>)
    requires
        sorted_by_at(rows),
    ensures
        sorted_by_at(apply_inserts(rows, calls)),
        latest_at(apply_inserts(rows, calls)) == max_at_of(latest_at(rows), calls),
    decreases calls.len(),
{
    if calls.len() > 0 {
        lemma_store_insert_props(
            rows,
            calls[0].0,
            calls[0].1,
            calls[0].2,
            calls[0].3,
            calls[0].4,
        );
        lemma_latest_monotone(
            store_insert(rows, calls[0].0, calls[0].1, calls[0].2, calls[0].3, calls[0].4),
            calls.drop_first(),
        );
    }
}

/// The store of observations. `rows` stays sorted by `date_time`, strictly;
/// `next_id` is the surrogate id the next inserted row receives.
pub struct Store {
    rows: Vec<DataStatusRow>,
    next_id: i64,
}

impl Store {
    pub closed spec fn rows_seq(self) -> Seq<DataStatusRow> {
        self.rows@
    }

    pub closed spec fn spec_next_id(self) -> i64 {
        self.next_id
    }

    pub closed spec fn wf(self) -> bool {
        &&& sorted_by_at(self.rows@)
        &&& self.next_id >= 1
    }

    pub fn new() -> (s: Store)
        ensures
            s.wf(),
            s.rows_seq().len() == 0,
            s.spec_next_id() == 1,
    {
        Store { rows: Vec::new(), next_id: 1 }
    }

    /// How many rows the store holds.
    pub fn len(&self) -> (n: usize)
        ensures
            n == self.rows_seq().len(),
    {
        self.rows.len()
    }

    /// The row at position `i`, in ascending order of `date_time`.
    pub fn row(&self, i: usize) -> (r: DataStatusRow)
        requires
            i < self.rows_seq().len(),
        ensures
            r == self.rows_seq()[i as int],
    {
        self.rows[i]
    }

    /// Inserts one observation unless its instant is already present; a
    /// conflict is success with no change. Returns the new row's id, or 0
    /// where the instant was already present.
    pub fn insert_if_absent(&mut self, remaining_percentage: i32, remaining_data_mb: i32, at: i64, created_at: i64) -> (r: i64)
        requires
            old(self).wf(),
        ensures
            final(self).wf(),
            final(self).rows_seq() == store_insert(
                old(self).rows_seq(),
                old(self).spec_next_id(),
                remaining_percentage,
                remaining_data_mb,
                at,
                created_at,
            ),
            contains_at(final(self).rows_seq(), at),
            old(self).contains_at_spec(at) ==> r == 0 && final(self).spec_next_id() == old(
                self,
            ).spec_next_id(),
            !old(self).contains_at_spec(at) ==> r == old(self).spec_next_id() && r >= 1
                && final(self).spec_next_id() as int == (if old(self).spec_next_id() < i64::MAX {
                old(self).spec_next_id() as int + 1
            } else {
                old(self).spec_next_id() as int
            }),
    {
        proof {
            lemma_split_pos_props(self.rows@, at);
            lemma_contains_at_split(self.rows@, at);
        }
        let n = self.rows.len();
        let mut pos: usize = 0;
        while pos < n && self.rows[pos].date_time < at
            invariant
                n == self.rows@.len(),
                0 <= pos <= n,
                forall|i: int| 0 <= i < pos ==> self.rows@[i].date_time < at,
                sorted_by_at(self.rows@),
            decreases n - pos,
        {
            pos += 1;
        }
        proof {
            // pos is the split position
            let sp = split_pos(self.rows@, at);
            if pos < sp {
                assert(self.rows@[pos as int].date_time < at);
            }
            if sp < pos {
                assert(self.rows@[sp].date_time < at);
                assert(self.rows@[sp].date_time >= at);
            }
        }
        if pos < n && self.rows[pos].date_time == at {
            return 0;
        }
        let id = self.next_id;
        let row = DataStatusRow {
            id,
            remaining_percentage,
            remaining_data_mb,
            date_time: at,
            created_at,
        };
        self.rows.insert(pos, row);
        if self.next_id < i64::MAX {
            self.next_id = self.next_id + 1;
        }
        proof {
            let rs = old(self).rows@;
            let new_rs = rs.insert(pos as int, row);
            assert(sorted_by_at(new_rs)) by {
                assert(forall|i: int|
                    0 <= i < new_rs.len() ==> new_rs[i] == (if i < pos {
                        rs[i]
                    } else if i == pos {
                        row
                    } else {
                        rs[i - 1]
                    }));
            }
            assert(contains_at(new_rs, at)) by {
                assert(new_rs[pos as int].date_time == at);
            }
        }
        id
    }

    /// Does the store hold a row with instant `at`?
    pub open spec fn contains_at_spec(self, at: i64) -> bool {
        contains_at(self.rows_seq(), at)
    }

    /// The newest observation: the row with the greatest `date_time`.
    pub fn latest(&self) -> (r: Option<DataStatusRow>)
        requires
            self.wf(),
        ensures
            match r {
                None => self.rows_seq().len() == 0,
                Some(row) => {
                    &&& self.rows_seq().len() > 0
                    &&& row == self.rows_seq().last()
                    &&& latest_at(self.rows_seq()) == Some(row.date_time)
                    &&& forall|i: int|
                        0 <= i < self.rows_seq().len() ==> self.rows_seq()[i].date_time
                            <= row.date_time
                },
            },
    {
        let n = self.rows.len();
        if n == 0 {
            None
        } else {
            Some(self.rows[n - 1])
        }
    }

    /// All rows with `date_time >= since`, ascending by `date_time`.
    pub fn range_since(&self, since: i64) -> (r: Vec<DataStatusRow>)
        requires
            self.wf(),
        ensures
            r@ == self.rows_seq().skip(split_pos(self.rows_seq(), since)),
            sorted_by_at(r@),
            forall|i: int| 0 <= i < r@.len() ==> r@[i].date_time >= since,
            forall|i: int|
                0 <= i < self.rows_seq().len() && self.rows_seq()[i].date_time >= since
                    ==> r@.contains(self.rows_seq()[i]),
    {
        proof {
            lemma_split_pos_props(self.rows@, since);
        }
        let n = self.rows.len();
        let mut pos: usize = 0;
        while pos < n && self.rows[pos].date_time < since
            invariant
                n == self.rows@.len(),
                0 <= pos <= n,
                forall|i: int| 0 <= i < pos ==> self.rows@[i].date_time < since,
                sorted_by_at(self.rows@),
            decreases n - pos,
        {
            pos += 1;
        }
        proof {
            let sp = split_pos(self.rows@, since);
            if pos < sp {
                assert(self.rows@[pos as int].date_time < since);
            }
            if sp < pos {
                assert(self.rows@[sp].date_time < since);
                assert(self.rows@[sp].date_time >= since);
            }
        }
        let mut out: Vec<DataStatusRow> = Vec::new();
        let mut j: usize = pos;
        while j < n
            invariant
                n == self.rows@.len(),
                pos <= j <= n,
                out@ == self.rows@.subrange(pos as int, j as int),
            decreases n - j,
        {
            out.push(self.rows[j]);
            proof {
                assert(out@ =~= self.rows@.subrange(pos as int, j + 1));
            }
            j += 1;
        }
        proof {
            assert(out@ =~= self.rows@.skip(pos as int));
            let rs = self.rows@;
            let sp = split_pos(rs, since);
            assert forall|i: int| 0 <= i < rs.len() && rs[i].date_time >= since implies out@.contains(
                rs[i],
            ) by {
                assert(i >= sp);
                assert(out@[i - sp] == rs[i]);
            }
        }
        out
    }
}

} // verus!
