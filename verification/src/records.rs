//! The fixed record schema of a decoded security log: when no richer schema
//! comes with the data, each record carries a string-encoded identifier, a
//! timestamp, two addresses, an action and a protocol, and a record set maps
//! to a six-column table of strings, one row per record.

use vstd::prelude::*;

use crate::table::ColumnModel;
use crate::table::Table;
use crate::table::Value;
use crate::table::ValueModel;
use crate::table::names_unique;
use crate::table::spec_height;

verus! {

/// One record of a security dataset, all fields as plain text; the `uuid`
/// field holds a string-encoded identifier.
#[derive(Debug)]
pub struct SecurityRecord {
    pub uuid: String,
    pub timestamp: String,
    pub source_ip: String,
    pub destination_ip: String,
    pub action: String,
    pub protocol: String,
}

/// The six-column table a record set maps to: one string column per field,
/// in schema order, one row per record. The identifier column is named
/// `id`, whatever the record field is called.
pub open spec fn spec_records_table(rs: Seq<SecurityRecord>) -> Seq<ColumnModel> {
    seq![
        ColumnModel {
            name: "id"@,
            values: rs.map_values(|r: SecurityRecord| ValueModel::Str(r.uuid@)),
        },
        ColumnModel {
            name: "timestamp"@,
            values: rs.map_values(|r: SecurityRecord| ValueModel::Str(r.timestamp@)),
        },
        ColumnModel {
            name: "source_ip"@,
            values: rs.map_values(|r: SecurityRecord| ValueModel::Str(r.source_ip@)),
        },
        ColumnModel {
            name: "destination_ip"@,
            values: rs.map_values(|r: SecurityRecord| ValueModel::Str(r.destination_ip@)),
        },
        ColumnModel {
            name: "action"@,
            values: rs.map_values(|r: SecurityRecord| ValueModel::Str(r.action@)),
        },
        ColumnModel {
            name: "protocol"@,
            values: rs.map_values(|r: SecurityRecord| ValueModel::Str(r.protocol@)),
        },
    ]
}

/// The six schema column names differ pairwise.
proof fn lemma_schema_names_unique(rs: Seq<SecurityRecord>)
    ensures
        names_unique(spec_records_table(rs)),
{
    reveal_strlit("id");
    reveal_strlit("timestamp");
    reveal_strlit("source_ip");
    reveal_strlit("destination_ip");
    reveal_strlit("action");
    reveal_strlit("protocol");
    let full = spec_records_table(rs);
    assert(full[0].name == "id"@);
    assert(full[1].name == "timestamp"@);
    assert(full[2].name == "source_ip"@);
    assert(full[3].name == "destination_ip"@);
    assert(full[4].name == "action"@);
    assert(full[5].name == "protocol"@);
    assert("id"@.len() == 2 && "timestamp"@.len() == 9 && "source_ip"@.len() == 9
        && "destination_ip"@.len() == 14 && "action"@.len() == 6 && "protocol"@.len() == 8);
    assert("timestamp"@[0] == 't' && "source_ip"@[0] == 's');
    assert forall|i: int, j: int| #![trigger full[i], full[j]] 0 <= i < j < full.len()
        implies full[i].name != full[j].name by {
        assert(full.len() == 6);
    }
}

/// Builds the fixed-schema table of a record set: six string columns in
/// schema order, one row per record, every cell the record's field.
pub fn records_to_table(records: &Vec<SecurityRecord>) -> (r: Table)
    ensures
        r@ == spec_records_table(records@),
        r.wf(),
        r@.len() == 6,
        spec_height(r@) == records@.len(),
{
    let uuids = collect_uuid(records);
    let timestamps = collect_timestamp(records);
    let sources = collect_source_ip(records);
    let destinations = collect_destination_ip(records);
    let actions = collect_action(records);
    let protocols = collect_protocol(records);
    let mut cols: Vec<crate::table::Column> = Vec::new();
    cols.push(crate::table::Column { name: schema_name("id"), values: uuids });
    cols.push(crate::table::Column { name: schema_name("timestamp"), values: timestamps });
    cols.push(crate::table::Column { name: schema_name("source_ip"), values: sources });
    cols.push(crate::table::Column { name: schema_name("destination_ip"), values: destinations });
    cols.push(crate::table::Column { name: schema_name("action"), values: actions });
    cols.push(crate::table::Column { name: schema_name("protocol"), values: protocols });
    let t = Table { cols };
    proof {
        let full = spec_records_table(records@);
        assert(t@.len() == 6);
        assert(t@[0] == full[0]);
        assert(t@[1] == full[1]);
        assert(t@[2] == full[2]);
        assert(t@[3] == full[3]);
        assert(t@[4] == full[4]);
        assert(t@[5] == full[5]);
        assert(t@ =~= full);
        lemma_schema_names_unique(records@);
        assert forall|i: int| 0 <= i < t@.len() implies (#[trigger] t@[i]).values.len()
            == spec_height(t@) by {
            assert(t@[i].values.len() == records@.len());
        }
    }
    t
}

/// An owned copy of a schema column name.
fn schema_name(name: &str) -> (r: String)
    ensures
        r@ == name@,
{
    name.to_owned()
}

/// The `uuid` cells of a record set, in order.
fn collect_uuid(records: &Vec<SecurityRecord>) -> (r: Vec<Value>)
    ensures
        r@.map_values(|v: Value| v@) == records@.map_values(
            |x: SecurityRecord| ValueModel::Str(x.uuid@),
        ),
        r@.len() == records@.len(),
{
    let mut r: Vec<Value> = Vec::new();
    let mut i: usize = 0;
    while i < records.len()
        invariant
            i <= records@.len(),
            r@.len() == i,
            forall|j: int| 0 <= j < i ==> (#[trigger] r@[j])@ == ValueModel::Str(
                records@[j].uuid@,
            ),
        decreases records@.len() - i,
    {
        r.push(Value::Str(records[i].uuid.clone()));
        i += 1;
    }
    proof {
        assert(r@.map_values(|v: Value| v@) =~= records@.map_values(
            |x: SecurityRecord| ValueModel::Str(x.uuid@),
        ));
    }
    r
}

/// The `timestamp` cells of a record set, in order.
fn collect_timestamp(records: &Vec<SecurityRecord>) -> (r: Vec<Value>)
    ensures
        r@.map_values(|v: Value| v@) == records@.map_values(
            |x: SecurityRecord| ValueModel::Str(x.timestamp@),
        ),
        r@.len() == records@.len(),
{
    let mut r: Vec<Value> = Vec::new();
    let mut i: usize = 0;
    while i < records.len()
        invariant
            i <= records@.len(),
            r@.len() == i,
            forall|j: int| 0 <= j < i ==> (#[trigger] r@[j])@ == ValueModel::Str(
                records@[j].timestamp@,
            ),
        decreases records@.len() - i,
    {
        r.push(Value::Str(records[i].timestamp.clone()));
        i += 1;
    }
    proof {
        assert(r@.map_values(|v: Value| v@) =~= records@.map_values(
            |x: SecurityRecord| ValueModel::Str(x.timestamp@),
        ));
    }
    r
}

/// The `source_ip` cells of a record set, in order.
fn collect_source_ip(records: &Vec<SecurityRecord>) -> (r: Vec<Value>)
    ensures
        r@.map_values(|v: Value| v@) == records@.map_values(
            |x: SecurityRecord| ValueModel::Str(x.source_ip@),
        ),
        r@.len() == records@.len(),
{
    let mut r: Vec<Value> = Vec::new();
    let mut i: usize = 0;
    while i < records.len()
        invariant
            i <= records@.len(),
            r@.len() == i,
            forall|j: int| 0 <= j < i ==> (#[trigger] r@[j])@ == ValueModel::Str(
                records@[j].source_ip@,
            ),
        decreases records@.len() - i,
    {
        r.push(Value::Str(records[i].source_ip.clone()));
        i += 1;
    }
    proof {
        assert(r@.map_values(|v: Value| v@) =~= records@.map_values(
            |x: SecurityRecord| ValueModel::Str(x.source_ip@),
        ));
    }
    r
}

/// The `destination_ip` cells of a record set, in order.
fn collect_destination_ip(records: &Vec<SecurityRecord>) -> (r: Vec<Value>)
    ensures
        r@.map_values(|v: Value| v@) == records@.map_values(
            |x: SecurityRecord| ValueModel::Str(x.destination_ip@),
        ),
        r@.len() == records@.len(),
{
    let mut r: Vec<Value> = Vec::new();
    let mut i: usize = 0;
    while i < records.len()
        invariant
            i <= records@.len(),
            r@.len() == i,
            forall|j: int| 0 <= j < i ==> (#[trigger] r@[j])@ == ValueModel::Str(
                records@[j].destination_ip@,
            ),
        decreases records@.len() - i,
    {
        r.push(Value::Str(records[i].destination_ip.clone()));
        i += 1;
    }
    proof {
        assert(r@.map_values(|v: Value| v@) =~= records@.map_values(
            |x: SecurityRecord| ValueModel::Str(x.destination_ip@),
        ));
    }
    r
}

/// The `action` cells of a record set, in order.
fn collect_action(records: &Vec<SecurityRecord>) -> (r: Vec<Value>)
    ensures
        r@.map_values(|v: Value| v@) == records@.map_values(
            |x: SecurityRecord| ValueModel::Str(x.action@),
        ),
        r@.len() == records@.len(),
{
    let mut r: Vec<Value> = Vec::new();
    let mut i: usize = 0;
    while i < records.len()
        invariant
            i <= records@.len(),
            r@.len() == i,
            forall|j: int| 0 <= j < i ==> (#[trigger] r@[j])@ == ValueModel::Str(
                records@[j].action@,
            ),
        decreases records@.len() - i,
    {
        r.push(Value::Str(records[i].action.clone()));
        i += 1;
    }
    proof {
        assert(r@.map_values(|v: Value| v@) =~= records@.map_values(
            |x: SecurityRecord| ValueModel::Str(x.action@),
        ));
    }
    r
}

/// The `protocol` cells of a record set, in order.
fn collect_protocol(records: &Vec<SecurityRecord>) -> (r: Vec<Value>)
    ensures
        r@.map_values(|v: Value| v@) == records@.map_values(
            |x: SecurityRecord| ValueModel::Str(x.protocol@),
        ),
        r@.len() == records@.len(),
{
    let mut r: Vec<Value> = Vec::new();
    let mut i: usize = 0;
    while i < records.len()
        invariant
            i <= records@.len(),
            r@.len() == i,
            forall|j: int| 0 <= j < i ==> (#[trigger] r@[j])@ == ValueModel::Str(
                records@[j].protocol@,
            ),
        decreases records@.len() - i,
    {
        r.push(Value::Str(records[i].protocol.clone()));
        i += 1;
    }
    proof {
        assert(r@.map_values(|v: Value| v@) =~= records@.map_values(
            |x: SecurityRecord| ValueModel::Str(x.protocol@),
        ));
    }
    r
}

} // verus!
