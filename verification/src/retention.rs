//! Retention validation: a write is rejected whole when any of its tables
//! carries a row older than the namespace's retention window.

use vstd::prelude::*;
use vstd::string::StringExecFns;

verus! {

/// Errors emitted during retention validation.
#[derive(Debug)]
pub enum RetentionError {
    /// The namespace schema could not be read; carries the lookup's
    /// description.
    NamespaceLookup { detail: String },
    /// Some table holds data older than the retention window; carries the
    /// table's name.
    OutsideRetention { table: String },
}

impl RetentionError {
    /// The human-readable message.
    pub fn message(&self) -> (r: String)
        ensures
            r@ == match self {
                RetentionError::NamespaceLookup { detail } =>
                    "failed to read namespace schema from catalog: "@ + detail@,
                RetentionError::OutsideRetention { table } => "data in table "@ + table@
                    + " is outside of the retention period"@,
            },
    {
        match self {
            RetentionError::NamespaceLookup { detail } => {
                let mut m = String::from_str("failed to read namespace schema from catalog: ");
                m.append(detail.as_str());
                m
            },
            RetentionError::OutsideRetention { table } => {
                let mut m = String::from_str("data in table ");
                m.append(table.as_str());
                m.append(" is outside of the retention period");
                m
            },
        }
    }
}

/// Index of the first table whose oldest row precedes the cutoff; a table
/// without rows (no minimum timestamp) cannot violate.
pub open spec fn spec_first_violation(tables: Seq<(String, Option<i64>)>, cutoff: int, i: int) -> Option<
    int,
>
    decreases tables.len() - i,
{
    if i < 0 || i >= tables.len() {
        None
    } else {
        match tables[i].1 {
            Some(min) => if min < cutoff {
                Some(i)
            } else {
                spec_first_violation(tables, cutoff, i + 1)
            },
            None => spec_first_violation(tables, cutoff, i + 1),
        }
    }
}

/// Validates one write against the namespace's retention window.
///
/// `tables` holds, per table, its name and the minimum "time" value among
/// its rows (or `None` for an empty batch). With no retention configured
/// every write passes. Otherwise the write is rejected — naming the first
/// offending table — exactly when some table's minimum precedes
/// `now_ns - retention_period_ns`.
pub fn validate_retention(
    tables: &Vec<(String, Option<i64>)>,
    retention_period_ns: Option<i64>,
    now_ns: i64,
) -> (r: Result<(), RetentionError>)
    requires
        match retention_period_ns {
            Some(p) => 0 <= p && i64::MIN + p <= now_ns,
            None => true,
        },
    ensures
        match retention_period_ns {
            None => r is Ok,
            Some(p) => {
                let cutoff = now_ns - p;
                match r {
                    Ok(_) => spec_first_violation(tables@, cutoff as int, 0) is None,
                    Err(RetentionError::OutsideRetention { table }) => {
                        &&& spec_first_violation(tables@, cutoff as int, 0) is Some
                        &&& table@ == tables@[spec_first_violation(
                            tables@,
                            cutoff as int,
                            0,
                        )->Some_0].0@
                    },
                    Err(RetentionError::NamespaceLookup { .. }) => false,
                }
            },
        },
{
    let p = match retention_period_ns {
        None => {
            return Ok(());
        },
        Some(p) => p,
    };
    let cutoff = now_ns - p;
    let n = tables.len();
    let mut i: usize = 0;
    while i < n
        invariant
            i <= n,
            n == tables@.len(),
            retention_period_ns == Some(p),
            cutoff as int == now_ns as int - p as int,
            spec_first_violation(tables@, cutoff as int, 0) == spec_first_violation(
                tables@,
                cutoff as int,
                i as int,
            ),
        decreases n - i,
    {
        if let Some(min) = tables[i].1 {
            if min < cutoff {
                let mut table = String::new();
                table.append(tables[i].0.as_str());
                proof {
                    assert(table@ =~= tables@[i as int].0@);
                    assert(spec_first_violation(tables@, cutoff as int, i as int) == Some(
                        i as int,
                    ));
                }
                return Err(RetentionError::OutsideRetention { table });
            }
        }
        i = i + 1;
    }
    Ok(())
}

} // verus!
