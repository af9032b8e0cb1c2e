//! The code listing: one table row per stored record.
//!
//! For every record the listing shows the previous, current and next
//! one-time codes, thirty seconds apart, under fixed column names.

use vstd::prelude::*;
use crate::records::ServiceRecord;
use crate::table::{row_view, Table};
use crate::totp::{decimal6, totp, totp_code};

verus! {

/// The cells of one listing row: the record's name and its three codes
/// around the moment `now`.
pub open spec fn code_row(rec: (Seq<char>, Seq<u8>), now: u64) -> Seq<(Seq<char>, Seq<char>)>
    recommends
        30 <= now <= u64::MAX - 30,
{
    seq![
        ("name"@, rec.0),
        ("prev"@, decimal6(totp_code(rec.1, 6, 0, 30, (now - 30) as u64))),
        ("curr"@, decimal6(totp_code(rec.1, 6, 0, 30, now))),
        ("next"@, decimal6(totp_code(rec.1, 6, 0, 30, (now + 30) as u64))),
    ]
}

/// Builds the listing table for a registry at the moment `now`: four
/// columns with their headers, and one row of codes per record, in
/// registry order.
pub fn registry_table(registry: &Vec<ServiceRecord>, now: u64) -> (r: Table)
    requires
        30 <= now <= u64::MAX - 30,
    ensures
        r.fields@.len() == 4,
        r.rows@.len() == registry@.len(),
        forall|i: int|
            0 <= i < registry@.len() ==> row_view(#[trigger] r.rows@[i]@) == code_row(
                registry@[i]@,
                now,
            ),
{
    let mut table = Table::new();
    table.add_field("name");
    table.add_field("prev");
    table.add_field("curr");
    table.add_field("next");
    table.append_header("name", "Name");
    table.append_header("prev", "Previous");
    table.append_header("curr", "Current");
    table.append_header("next", "Next");

    let mut names: Vec<&str> = Vec::new();
    names.push("name");
    names.push("prev");
    names.push("curr");
    names.push("next");
    let mut idx: usize = 0;
    while idx < registry.len()
        invariant
            0 <= idx <= registry@.len(),
            30 <= now <= u64::MAX - 30,
            names@ =~= seq!["name", "prev", "curr", "next"],
            table.fields@.len() == 4,
            table.rows@.len() == idx,
            forall|i: int|
                0 <= i < idx ==> row_view(#[trigger] table.rows@[i]@) == code_row(
                    registry@[i]@,
                    now,
                ),
        decreases registry@.len() - idx,
    {
        let rec = &registry[idx];
        let prev = totp(rec.secret.as_slice(), now - 30);
        let curr = totp(rec.secret.as_slice(), now);
        let next = totp(rec.secret.as_slice(), now + 30);
        let mut values: Vec<&str> = Vec::new();
        values.push(rec.name.as_str());
        values.push(prev.as_str());
        values.push(curr.as_str());
        values.push(next.as_str());
        table.add_row(names.as_slice(), values.as_slice());
        proof {
            assert(row_view(table.rows@.last()@) =~= code_row(registry@[idx as int]@, now));
        }
        idx = idx + 1;
    }
    table
}

/// How many seconds of the current thirty-second step have passed at `now`:
/// a full step at the step boundary, the remainder otherwise.
pub fn progress_seconds(now: u64) -> (r: u64)
    ensures
        r == (if now % 30 == 0 { 30u64 } else { now % 30 }),
        1 <= r <= 30,
{
    if now % 30 == 0 {
        30
    } else {
        now % 30
    }
}

} // verus!
