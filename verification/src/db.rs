//! Storing a scan's records in the results database.
use vstd::prelude::*;
use crate::results::PortStatusRecord;

verus! {

/// One row of the `scan_results` table, before the database numbers it.
pub struct ScanRow {
    pub scanned_at_epoch_s: i64,
    pub ip: String,
    pub proto: String,
    pub port: i32,
    pub status: String,
    pub reason: String,
}

/// Whether `row` stores `record`, scanned at `scanned_at_epoch_s`.
pub open spec fn stores(row: ScanRow, record: PortStatusRecord, scanned_at_epoch_s: i64) -> bool {
    &&& row.scanned_at_epoch_s == scanned_at_epoch_s
    &&& row.ip == record.ip
    &&& row.proto == record.proto
    &&& row.port == record.port
    &&& row.status == record.status
    &&& row.reason == record.reason
}

/// The table rows for `records`, one per record and in the same order, all
/// stamped with `scanned_at_epoch_s`.
pub fn scan_rows(records: &[PortStatusRecord], scanned_at_epoch_s: i64) -> (r: Vec<ScanRow>)
    ensures
        r@.len() == records@.len(),
        forall|i: int| 0 <= i < records@.len() ==> stores(#[trigger] r@[i], records@[i], scanned_at_epoch_s),
{
    let mut rows: Vec<ScanRow> = Vec::new();
    let mut i: usize = 0;
    while i < records.len()
        invariant
            i <= records@.len(),
            rows@.len() == i,
            forall|j: int| 0 <= j < i ==> stores(#[trigger] rows@[j], records@[j], scanned_at_epoch_s),
        decreases records.len() - i,
    {
        let record = &records[i];
        rows.push(
            ScanRow {
                scanned_at_epoch_s,
                ip: record.ip.clone(),
                proto: record.proto.clone(),
                port: record.port,
                status: record.status.clone(),
                reason: record.reason.clone(),
            },
        );
        i = i + 1;
    }
    rows
}


/// Whether `rows` are the table rows for `records`, stamped with
/// `scanned_at_epoch_s`: one per record, in the same order.
pub open spec fn rows_for(rows: Seq<ScanRow>, records: Seq<PortStatusRecord>, scanned_at_epoch_s: i64) -> bool {
    &&& rows.len() == records.len()
    &&& forall|i: int| 0 <= i < records.len() ==> stores(#[trigger] rows[i], records[i], scanned_at_epoch_s)
}

/// Stores `records` in the database at `db_path` and gives back how many
/// rows were added. With no record there is nothing to do: the database is
/// not opened. Otherwise `prepare` opens the database at `db_path`, makes
/// sure the table exists and gives back the connection and the current
/// time, or why it could not; then `insert` adds the rows for the records,
/// all stamped with that time, and gives back how many it added, or why it
/// could not.
pub fn persist_scan_results<C, P, I>(
    db_path: &str,
    records: &[PortStatusRecord],
    prepare: P,
    insert: I,
) -> (r: Result<usize, String>) where
    P: FnOnce(&str) -> Result<(C, i64), String>,
    I: FnOnce(C, &Vec<ScanRow>) -> Result<usize, String>,

    requires
        forall|path: &str| call_requires(prepare, (path,)),
        forall|connection: C, rows: &Vec<ScanRow>| call_requires(insert, (connection, rows)),
    ensures
        records@.len() == 0 ==> r == Ok::<usize, String>(0),
        records@.len() > 0 ==> exists|prepared: Result<(C, i64), String>|
            {
                &&& call_ensures(prepare, (db_path,), prepared)
                &&& match prepared {
                    Err(e) => r == Err::<usize, String>(e),
                    Ok((connection, now)) => exists|rows: &Vec<ScanRow>, added: Result<usize, String>|
                        {
                            &&& rows_for(rows@, records@, now)
                            &&& call_ensures(insert, (connection, rows), added)
                            &&& r == added
                        },
                }
            },
{
    if records.len() == 0 {
        return Ok(0);
    }
    let prepared = prepare(db_path);
    match prepared {
        Err(e) => Err(e),
        Ok((connection, now)) => {
            let rows = scan_rows(records, now);
            insert(connection, &rows)
        },
    }
}

} // verus!
