//! The read-only query surface over the store.
use vstd::prelude::*;

use crate::store::Store;
use crate::timeconv::{rfc3339_string_of, secs_to_rfc3339, MAX_RENDERED_SECS};
use crate::types::DataStatusDto;

verus! {

/// The newest observation, shaped for the query surface: its percentage and
/// megabytes as stored, its instant as ISO-8601 text. `None` on an empty
/// store.
pub fn latest_data_status(store: &Store) -> (r: Option<DataStatusDto>)
    requires
        store.wf(),
        store.rows_seq().len() > 0 ==> 0 <= store.rows_seq().last().date_time
            <= MAX_RENDERED_SECS,
    ensures
        match r {
            None => store.rows_seq().len() == 0,
            Some(dto) => {
                &&& store.rows_seq().len() > 0
                &&& dto.remaining_percentage == store.rows_seq().last().remaining_percentage
                &&& dto.remaining_data_mb == store.rows_seq().last().remaining_data_mb
                &&& dto.date_time@ == rfc3339_string_of(store.rows_seq().last().date_time)
            },
        },
{
    match store.latest() {
        None => None,
        Some(row) => {
            proof {
                assert(store.rows_seq()[store.rows_seq().len() - 1].date_time >= 0);
            }
            Some(
                DataStatusDto {
                    remaining_percentage: row.remaining_percentage,
                    remaining_data_mb: row.remaining_data_mb,
                    date_time: secs_to_rfc3339(row.date_time),
                },
            )
        },
    }
}

} // verus!
