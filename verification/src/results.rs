//! Scan results: the records masscan writes as NDJSON, and the table rows
//! that show them.
use vstd::prelude::*;
use serde_json::Value;
use crate::text::{
    is_digit, is_white, lemma_decimal_digits, lemma_parse_decimal_u16, lemma_trim_after_spaces, parse_u16,
    spaces,
    decimal, decimal_string, pad_left, signed_decimal,
    signed_decimal_string, pad_right, push_padded_left, push_padded_right, split_on,
    split_str, str_equal, trim, trim_str,
};

verus! {

/// The state of one port of one host, as a scan reported it.
#[derive(Clone, Debug)]
pub struct PortStatusRecord {
    pub ip: String,
    pub proto: String,
    pub port: i32,
    pub status: String,
    pub reason: String,
}

/// A JSON value, as far as reading scan records needs it. A number keeps
/// its value when it is a non-negative integer that fits in 64 bits, and
/// `None` otherwise. An object keeps its members in order; a lookup by key
/// finds the first member with that key.
#[derive(Debug)]
pub enum Json {
    Null,
    Bool(bool),
    Number(Option<u64>),
    Str(String),
    Array(Vec<Json>),
    Object(Vec<(String, Json)>),
}

/// The value of the first member named `key`.
pub open spec fn member_lookup(members: Seq<(String, Json)>, key: Seq<char>) -> Option<Json>
    decreases members.len(),
{
    if members.len() == 0 {
        None
    } else if members[0].0@ == key {
        Some(members[0].1)
    } else {
        member_lookup(members.drop_first(), key)
    }
}

/// The member `key` of `v` when `v` is an object that has one.
pub open spec fn json_get(v: Json, key: Seq<char>) -> Option<Json> {
    match v {
        Json::Object(members) => member_lookup(members@, key),
        _ => None,
    }
}

/// The member `key` of `v`, when there is a `v` and it has one.
pub open spec fn json_get_in(v: Option<Json>, key: Seq<char>) -> Option<Json> {
    match v {
        Some(inner) => json_get(inner, key),
        None => None,
    }
}

proof fn lemma_member_lookup(members: Seq<(String, Json)>, key: Seq<char>, k: int)
    requires
        0 <= k <= members.len(),
        forall|j: int| 0 <= j < k ==> (#[trigger] members[j]).0@ != key,
        k == members.len() || members[k].0@ == key,
    ensures
        member_lookup(members, key) == (if k == members.len() {
            None
        } else {
            Some(members[k].1)
        }),
    decreases k,
{
    if k > 0 {
        let t = members.drop_first();
        assert forall|j: int| 0 <= j < k - 1 implies (#[trigger] t[j]).0@ != key by {
            assert(t[j] == members[j + 1]);
        }
        assert(members[0].0@ != key);
        lemma_member_lookup(t, key, k - 1);
    }
}

impl Json {
    /// The member `key`, when this is an object that has one.
    pub fn get(&self, key: &str) -> (r: Option<&Json>)
        ensures
            match r {
                Some(v) => json_get(*self, key@) == Some(*v),
                None => json_get(*self, key@) is None,
            },
    {
        match self {
            Json::Object(members) => {
                let mut i: usize = 0;
                while i < members.len()
                    invariant
                        json_get(*self, key@) == member_lookup(members@, key@),
                        i <= members@.len(),
                        forall|j: int| 0 <= j < i ==> (#[trigger] members@[j]).0@ != key@,
                    decreases members.len() - i,
                {
                    if str_equal(members[i].0.as_str(), key) {
                        proof {
                            lemma_member_lookup(members@, key@, i as int);
                        }
                        return Some(&members[i].1);
                    }
                    i = i + 1;
                }
                proof {
                    lemma_member_lookup(members@, key@, i as int);
                }
                None
            },
            _ => None,
        }
    }
}

/// The text of `v` when it is a string, else `default`.
pub open spec fn text_or(v: Option<Json>, default: Seq<char>) -> Seq<char> {
    match v {
        Some(Json::Str(s)) => s@,
        _ => default,
    }
}

/// The decimal text of `v` when it is a non-negative integer, else `?`.
pub open spec fn port_text(v: Option<Json>) -> Seq<char> {
    match v {
        Some(Json::Number(Some(n))) => decimal(n as nat),
        _ => "?"@,
    }
}

/// One table row: address right-aligned in 15 columns, protocol
/// left-aligned in 4, port right-aligned in 5, then the status left-aligned
/// in 7 and the reason.
pub open spec fn table_row(
    ip: Seq<char>,
    proto: Seq<char>,
    port: Seq<char>,
    status: Seq<char>,
    reason: Seq<char>,
) -> Seq<char> {
    pad_left(ip, 15) + "  "@ + pad_right(proto, 4) + "  "@ + pad_left(port, 5) + "  status="@
        + pad_right(status, 7) + " reason="@ + reason
}

/// The address of a record, or a stand-in when it names none.
pub open spec fn record_ip(v: Json) -> Seq<char> {
    text_or(json_get(v, "ip"@), "<unknown-ip>"@)
}

/// The row for one entry of a record's `port` list.
pub open spec fn port_entry_row(ip: Seq<char>, entry: Json) -> Seq<char> {
    table_row(
        ip,
        text_or(json_get(entry, "proto"@), "?"@),
        port_text(json_get(entry, "port"@)),
        text_or(json_get(entry, "status"@), "unknown"@),
        text_or(json_get(entry, "reason"@), "n/a"@),
    )
}

/// The row for a status record, whose status and reason sit under `data`.
pub open spec fn status_record_row(v: Json) -> Seq<char> {
    table_row(
        record_ip(v),
        text_or(json_get(v, "proto"@), "?"@),
        port_text(json_get(v, "port"@)),
        text_or(json_get_in(json_get(v, "data"@), "status"@), "unknown"@),
        text_or(json_get_in(json_get(v, "data"@), "reason"@), "n/a"@),
    )
}

/// Whether a record says it is a status record.
pub open spec fn is_status_record(v: Json) -> bool {
    json_get(v, "rec_type"@) matches Some(Json::Str(t)) && t@ == "status"@
}

/// The rows that one scan record gives: one per entry of its `port` list
/// when it has such a list; else one when it is a status record; else none.
pub open spec fn record_rows(v: Json) -> Seq<Seq<char>> {
    match json_get(v, "port"@) {
        Some(Json::Array(entries)) => entries@.map_values(|e: Json| port_entry_row(record_ip(v), e)),
        _ => if is_status_record(v) {
            seq![status_record_row(v)]
        } else {
            Seq::empty()
        },
    }
}

fn text_or_default(v: Option<&Json>, default: &str) -> (r: String)
    ensures
        r@ == text_or(
            match v {
                Some(x) => Some(*x),
                None => None,
            },
            default@,
        ),
{
    match v {
        Some(Json::Str(s)) => s.clone(),
        _ => default.to_owned(),
    }
}

fn port_text_of(v: Option<&Json>) -> (r: String)
    ensures
        r@ == port_text(
            match v {
                Some(x) => Some(*x),
                None => None,
            },
        ),
{
    match v {
        Some(Json::Number(Some(n))) => decimal_string(*n),
        _ => "?".to_owned(),
    }
}

pub fn build_table_row(ip: &str, proto: &str, port: &str, status: &str, reason: &str) -> (r: String)
    ensures
        r@ == table_row(ip@, proto@, port@, status@, reason@),
{
    let mut row = String::new();
    push_padded_left(&mut row, ip, 15);
    row.append("  ");
    push_padded_right(&mut row, proto, 4);
    row.append("  ");
    push_padded_left(&mut row, port, 5);
    row.append("  status=");
    push_padded_right(&mut row, status, 7);
    row.append(" reason=");
    row.append(reason);
    proof {
        assert(row@ =~= table_row(ip@, proto@, port@, status@, reason@));
    }
    row
}

fn get_in<'a>(v: Option<&'a Json>, key: &str) -> (r: Option<&'a Json>)
    ensures
        match r {
            Some(x) => json_get_in(
                match v {
                    Some(y) => Some(*y),
                    None => None,
                },
                key@,
            ) == Some(*x),
            None => json_get_in(
                match v {
                    Some(y) => Some(*y),
                    None => None,
                },
                key@,
            ) is None,
        },
{
    match v {
        Some(inner) => inner.get(key),
        None => None,
    }
}

/// A record's fields: address, protocol, port, status and reason.
pub open spec fn record_fields(r: PortStatusRecord) -> (Seq<char>, Seq<char>, int, Seq<char>, Seq<char>) {
    (r.ip@, r.proto@, r.port as int, r.status@, r.reason@)
}

/// The fields of the record that one entry of a `port` list describes,
/// when the entry's port is an integer that fits in an `i32`.
pub open spec fn entry_fields(ip: Seq<char>, entry: Json) -> Option<
    (Seq<char>, Seq<char>, int, Seq<char>, Seq<char>),
> {
    match json_get(entry, "port"@) {
        Some(Json::Number(Some(n))) => if n <= i32::MAX {
            Some(
                (
                    ip,
                    text_or(json_get(entry, "proto"@), "?"@),
                    n as int,
                    text_or(json_get(entry, "status"@), "unknown"@),
                    text_or(json_get(entry, "reason"@), "n/a"@),
                ),
            )
        } else {
            None
        },
        _ => None,
    }
}

/// The fields of the record that a status record describes, when its port
/// is an integer that fits in an `i32`.
pub open spec fn status_record_fields(v: Json) -> Option<
    (Seq<char>, Seq<char>, int, Seq<char>, Seq<char>),
> {
    match json_get(v, "port"@) {
        Some(Json::Number(Some(n))) => if n <= i32::MAX {
            Some(
                (
                    record_ip(v),
                    text_or(json_get(v, "proto"@), "?"@),
                    n as int,
                    text_or(json_get_in(json_get(v, "data"@), "status"@), "unknown"@),
                    text_or(json_get_in(json_get(v, "data"@), "reason"@), "n/a"@),
                ),
            )
        } else {
            None
        },
        _ => None,
    }
}

/// The present values among `s`, in order.
pub open spec fn present<T>(s: Seq<Option<T>>) -> Seq<T>
    decreases s.len(),
{
    if s.len() == 0 {
        Seq::empty()
    } else {
        match s.last() {
            Some(x) => present(s.drop_last()).push(x),
            None => present(s.drop_last()),
        }
    }
}

/// The port records that one scan record gives: those of the rows of
/// `record_rows` whose port is an integer that fits in an `i32`, in order.
pub open spec fn record_statuses(v: Json) -> Seq<(Seq<char>, Seq<char>, int, Seq<char>, Seq<char>)> {
    match json_get(v, "port"@) {
        Some(Json::Array(entries)) => present(
            entries@.map_values(|e: Json| entry_fields(record_ip(v), e)),
        ),
        _ => if is_status_record(v) {
            present(seq![status_record_fields(v)])
        } else {
            Seq::empty()
        },
    }
}

fn fits_port(v: Option<&Json>) -> (r: Option<i32>)
    ensures
        match v {
            Some(x) => match *x {
                Json::Number(Some(n)) => if n <= i32::MAX {
                    r == Some(n as i32)
                } else {
                    r is None
                },
                _ => r is None,
            },
            None => r is None,
        },
{
    match v {
        Some(Json::Number(Some(n))) => if *n <= i32::MAX as u64 {
            Some(*n as i32)
        } else {
            None
        },
        _ => None,
    }
}

/// The port records that the scan record `value` gives, in order: one per
/// table row whose port is an integer that fits in an `i32`.
pub fn port_status_records(value: &Json) -> (r: Vec<PortStatusRecord>)
    ensures
        r@.map_values(|x: PortStatusRecord| record_fields(x)) == record_statuses(*value),
{
    let ip = text_or_default(value.get("ip"), "<unknown-ip>");
    let mut records: Vec<PortStatusRecord> = Vec::new();
    match value.get("port") {
        Some(Json::Array(entries)) => {
            let ghost expected = entries@.map_values(|e: Json| entry_fields(record_ip(*value), e));
            let mut i: usize = 0;
            assert(records@.map_values(|x: PortStatusRecord| record_fields(x)) =~= present(
                expected.take(0),
            ));
            while i < entries.len()
                invariant
                    i <= entries@.len(),
                    ip@ == record_ip(*value),
                    expected == entries@.map_values(|e: Json| entry_fields(record_ip(*value), e)),
                    records@.map_values(|x: PortStatusRecord| record_fields(x)) == present(
                        expected.take(i as int),
                    ),
                decreases entries.len() - i,
            {
                let entry = &entries[i];
                let ghost before = records@.map_values(|x: PortStatusRecord| record_fields(x));
                proof {
                    assert(expected.take(i + 1).drop_last() =~= expected.take(i as int));
                    assert(expected.take(i + 1).last() == expected[i as int]);
                }
                match fits_port(entry.get("port")) {
                    Some(port) => {
                        let record = PortStatusRecord {
                            ip: ip.clone(),
                            proto: text_or_default(entry.get("proto"), "?"),
                            port,
                            status: text_or_default(entry.get("status"), "unknown"),
                            reason: text_or_default(entry.get("reason"), "n/a"),
                        };
                        records.push(record);
                        assert(records@.map_values(|x: PortStatusRecord| record_fields(x))
                            =~= before.push(record_fields(record)));
                    },
                    None => {},
                }
                i = i + 1;
            }
            assert(expected.take(i as int) =~= expected);
        },
        _ => {
            let is_status = match value.get("rec_type") {
                Some(Json::Str(t)) => str_equal(t.as_str(), "status"),
                _ => false,
            };
            let ghost single = seq![status_record_fields(*value)];
            assert(single.drop_last() =~= Seq::<
                Option<(Seq<char>, Seq<char>, int, Seq<char>, Seq<char>)>,
            >::empty());
            assert(present(single.drop_last()) =~= Seq::<
                (Seq<char>, Seq<char>, int, Seq<char>, Seq<char>),
            >::empty());
            assert(is_status == is_status_record(*value));
            if is_status {
                match fits_port(value.get("port")) {
                    Some(port) => {
                        let data = value.get("data");
                        let record = PortStatusRecord {
                            ip,
                            proto: text_or_default(value.get("proto"), "?"),
                            port,
                            status: text_or_default(get_in(data, "status"), "unknown"),
                            reason: text_or_default(get_in(data, "reason"), "n/a"),
                        };
                        records.push(record);
                        assert(records@.map_values(|x: PortStatusRecord| record_fields(x))
                            =~= seq![record_fields(record)]);
                    },
                    None => {
                        assert(records@.map_values(|x: PortStatusRecord| record_fields(x))
                            =~= Seq::<(Seq<char>, Seq<char>, int, Seq<char>, Seq<char>)>::empty());
                    },
                }
            } else {
                assert(records@.map_values(|x: PortStatusRecord| record_fields(x))
                    =~= Seq::<(Seq<char>, Seq<char>, int, Seq<char>, Seq<char>)>::empty());
            }
        },
    }
    records
}

/// The table row that shows `record`, laid out as the rows of NDJSON
/// records are.
pub fn status_row(record: &PortStatusRecord) -> (r: String)
    ensures
        r@ == table_row(
            record.ip@,
            record.proto@,
            signed_decimal(record.port as int),
            record.status@,
            record.reason@,
        ),
{
    let port = signed_decimal_string(record.port as i64);
    build_table_row(
        record.ip.as_str(),
        record.proto.as_str(),
        port.as_str(),
        record.status.as_str(),
        record.reason.as_str(),
    )
}

/// The table rows that the scan record `value` gives, in order.
pub fn record_lines(value: &Json) -> (r: Vec<String>)
    ensures
        r@.map_values(|s: String| s@) == record_rows(*value),
{
    let ip = text_or_default(value.get("ip"), "<unknown-ip>");
    let mut rows: Vec<String> = Vec::new();
    match value.get("port") {
        Some(Json::Array(entries)) => {
            let ghost expected = entries@.map_values(|e: Json| port_entry_row(record_ip(*value), e));
            let mut i: usize = 0;
            assert(rows@.map_values(|s: String| s@) =~= expected.take(0));
            while i < entries.len()
                invariant
                    i <= entries@.len(),
                    ip@ == record_ip(*value),
                    expected == entries@.map_values(|e: Json| port_entry_row(record_ip(*value), e)),
                    rows@.map_values(|s: String| s@) == expected.take(i as int),
                decreases entries.len() - i,
            {
                let entry = &entries[i];
                let proto = text_or_default(entry.get("proto"), "?");
                let port = port_text_of(entry.get("port"));
                let status = text_or_default(entry.get("status"), "unknown");
                let reason = text_or_default(entry.get("reason"), "n/a");
                let row = build_table_row(
                    ip.as_str(),
                    proto.as_str(),
                    port.as_str(),
                    status.as_str(),
                    reason.as_str(),
                );
                let ghost before = rows@.map_values(|s: String| s@);
                rows.push(row);
                proof {
                    assert(row@ == expected[i as int]);
                    assert(rows@.map_values(|s: String| s@) =~= before.push(row@));
                    assert(expected.take(i + 1) =~= expected.take(i as int).push(expected[i as int]));
                }
                i = i + 1;
            }
            assert(expected.take(i as int) =~= expected);
        },
        _ => {
            let is_status = match value.get("rec_type") {
                Some(Json::Str(t)) => str_equal(t.as_str(), "status"),
                _ => false,
            };
            if is_status {
                let data = value.get("data");
                let proto = text_or_default(value.get("proto"), "?");
                let port = port_text_of(value.get("port"));
                let status = text_or_default(get_in(data, "status"), "unknown");
                let reason = text_or_default(get_in(data, "reason"), "n/a");
                let row = build_table_row(
                    ip.as_str(),
                    proto.as_str(),
                    port.as_str(),
                    status.as_str(),
                    reason.as_str(),
                );
                rows.push(row);
                assert(rows@.map_values(|s: String| s@) =~= seq![status_record_row(*value)]);
            } else {
                assert(rows@.map_values(|s: String| s@) =~= Seq::<Seq<char>>::empty());
            }
        },
    }
    rows
}


/// One non-blank line of an NDJSON file: its number, counting from one,
/// and its text without surrounding whitespace.
pub struct NdjsonLine {
    pub number: usize,
    pub text: String,
}

/// The non-blank lines among `pieces`, trimmed, each with its number.
pub open spec fn ndjson_entries(pieces: Seq<Seq<char>>) -> Seq<(nat, Seq<char>)>
    decreases pieces.len(),
{
    if pieces.len() == 0 {
        Seq::empty()
    } else {
        let before = ndjson_entries(pieces.drop_last());
        let t = trim(pieces.last());
        if t.len() == 0 {
            before
        } else {
            before.push((pieces.len(), t))
        }
    }
}

/// The numbered, trimmed, non-blank lines of `content`. Lines end at `\n`;
/// a `\r` before it is whitespace, so trimming removes it, as it removes
/// any other.
pub open spec fn ndjson_lines_of(content: Seq<char>) -> Seq<(nat, Seq<char>)> {
    ndjson_entries(split_on(content, '\n'))
}

/// The records of an NDJSON text: its non-blank lines, trimmed and
/// numbered from one.
pub fn ndjson_lines(content: &str) -> (r: Vec<NdjsonLine>)
    ensures
        r@.map_values(|l: NdjsonLine| (l.number as nat, l.text@)) == ndjson_lines_of(content@),
{
    let pieces = split_str(content, '\n');
    let ghost ps = split_on(content@, '\n');
    let mut lines: Vec<NdjsonLine> = Vec::new();
    let mut i: usize = 0;
    proof {
        assert(ps.take(0) =~= Seq::<Seq<char>>::empty());
        assert(lines@.map_values(|l: NdjsonLine| (l.number as nat, l.text@)) =~= Seq::<
            (nat, Seq<char>),
        >::empty());
    }
    while i < pieces.len()
        invariant
            pieces@.map_values(|p: &str| p@) == ps,
            ps == split_on(content@, '\n'),
            i <= pieces.len(),
            lines@.map_values(|l: NdjsonLine| (l.number as nat, l.text@)) == ndjson_entries(
                ps.take(i as int),
            ),
        decreases pieces.len() - i,
    {
        let t = trim_str(pieces[i]);
        let ghost before = lines@.map_values(|l: NdjsonLine| (l.number as nat, l.text@));
        proof {
            assert(ps.take(i + 1).drop_last() =~= ps.take(i as int));
            assert(ps.take(i + 1).last() == pieces@[i as int]@);
        }
        if !t.is_empty() {
            lines.push(NdjsonLine { number: i + 1, text: t.to_owned() });
            assert(lines@.map_values(|l: NdjsonLine| (l.number as nat, l.text@)) =~= before.push(
                ((i + 1) as nat, t@),
            ));
        }
        i = i + 1;
    }
    assert(ps.take(i as int) =~= ps);
    lines
}

/// The complaint about a line that is not valid JSON.
pub open spec fn invalid_ndjson_text(line_number: nat, error: Seq<char>) -> Seq<char> {
    "invalid ndjson at line "@ + decimal(line_number) + ": "@ + error
}

/// The complaint about line `line_number`, which the JSON reader refused
/// with `error`.
pub fn invalid_ndjson_message(line_number: usize, error: &str) -> (r: String)
    ensures
        r@ == invalid_ndjson_text(line_number as nat, error@),
{
    let mut s = "invalid ndjson at line ".to_owned();
    s.append(decimal_string(line_number as u64).as_str());
    s.append(": ");
    s.append(error);
    s
}

/// The sentence shown when no record gave a row.
pub fn no_open_ports_message() -> (r: &'static str)
    ensures
        r@ == "No open ports found for requested targets"@,
{
    "No open ports found for requested targets"
}


#[verifier::external_type_specification]
#[verifier::external_body]
pub struct ExJsonValue(serde_json::Value);

/// What serde_json makes of `text`: the value it reads, or its error's text.
pub uninterp spec fn json_reading(text: Seq<char>) -> Result<Json, Seq<char>>;

/// The library's value for one that serde_json read, variant for variant:
/// a number keeps what serde_json's `as_u64` gives, and an object's members
/// keep serde_json's order.
#[verifier::external_body]
fn json_of_value(value: Value) -> Json {
    match value {
        Value::Null => Json::Null,
        Value::Bool(b) => Json::Bool(b),
        Value::Number(n) => Json::Number(n.as_u64()),
        Value::String(s) => Json::Str(s),
        Value::Array(items) => Json::Array(items.into_iter().map(json_of_value).collect()),
        Value::Object(members) => Json::Object(
            members.into_iter().map(|(key, item)| (key, json_of_value(item))).collect(),
        ),
    }
}

/// Reads `text` as one JSON value with `serde_json::from_str`; a refusal
/// comes back as the error's text. What comes back depends on `text` alone.
#[verifier::external_body]
fn read_json(text: &str) -> (r: Result<Json, String>)
    ensures
        match r {
            Ok(v) => json_reading(text@) == Ok::<Json, Seq<char>>(v),
            Err(e) => json_reading(text@) == Err::<Json, Seq<char>>(e@),
        },
{
    match serde_json::from_str::<Value>(text) {
        Ok(value) => Ok(json_of_value(value)),
        Err(err) => Err(err.to_string()),
    }
}

/// The JSON record on `line`, or the complaint that names the line when
/// it is not valid JSON.
pub fn read_ndjson_line(line: &NdjsonLine) -> (r: Result<Json, String>)
    ensures
        match json_reading(line.text@) {
            Ok(v) => r == Ok::<Json, String>(v),
            Err(e) => r matches Err(m) && m@ == invalid_ndjson_text(line.number as nat, e),
        },
{
    match read_json(line.text.as_str()) {
        Ok(v) => Ok(v),
        Err(e) => Err(invalid_ndjson_message(line.number, e.as_str())),
    }
}

/// The rows that `entries` give, read in order, and the complaint about
/// the first line that is not valid JSON, after which nothing more is read.
pub open spec fn report_fold(entries: Seq<(nat, Seq<char>)>) -> (Seq<Seq<char>>, Option<Seq<char>>)
    decreases entries.len(),
{
    if entries.len() == 0 {
        (Seq::empty(), None)
    } else {
        let before = report_fold(entries.drop_last());
        if before.1 is Some {
            before
        } else {
            match json_reading(entries.last().1) {
                Ok(v) => (before.0 + record_rows(v), None),
                Err(e) => (before.0, Some(invalid_ndjson_text(entries.last().0, e))),
            }
        }
    }
}

/// What showing an NDJSON text gives: the lines to print and the complaint
/// that ends the report, if any. The lines are the rows of the records
/// read before any bad line; when every line was read and none gave a row,
/// they are the sentence that says no open port was found.
pub open spec fn ndjson_report_of(content: Seq<char>) -> (Seq<Seq<char>>, Option<Seq<char>>) {
    let r = report_fold(ndjson_lines_of(content));
    if r.1 is None && r.0.len() == 0 {
        (seq!["No open ports found for requested targets"@], None)
    } else {
        r
    }
}

proof fn lemma_report_error_sticks(es: Seq<(nat, Seq<char>)>, k: int)
    requires
        0 <= k <= es.len(),
        report_fold(es.take(k)).1 is Some,
    ensures
        report_fold(es) == report_fold(es.take(k)),
    decreases es.len() - k,
{
    if k < es.len() {
        assert(es.drop_last().take(k) =~= es.take(k));
        lemma_report_error_sticks(es.drop_last(), k);
    } else {
        assert(es.take(k) =~= es);
    }
}

/// The report on the NDJSON text `content`: the lines to print, in order,
/// and the complaint about the first line that is not valid JSON, if any.
pub fn ndjson_report(content: &str) -> (r: (Vec<String>, Option<String>))
    ensures
        r.0@.map_values(|s: String| s@) == ndjson_report_of(content@).0,
        match r.1 {
            Some(e) => ndjson_report_of(content@).1 == Some(e@),
            None => ndjson_report_of(content@).1 is None,
        },
{
    let lines = ndjson_lines(content);
    let ghost es = ndjson_lines_of(content@);
    let mut out: Vec<String> = Vec::new();
    let mut i: usize = 0;
    proof {
        assert(es.take(0) =~= Seq::<(nat, Seq<char>)>::empty());
        assert(out@.map_values(|s: String| s@) =~= Seq::<Seq<char>>::empty());
    }
    while i < lines.len()
        invariant
            lines@.map_values(|l: NdjsonLine| (l.number as nat, l.text@)) == es,
            es == ndjson_lines_of(content@),
            i <= lines@.len(),
            report_fold(es.take(i as int)).1 is None,
            report_fold(es.take(i as int)).0 == out@.map_values(|s: String| s@),
        decreases lines.len() - i,
    {
        let line = &lines[i];
        proof {
            assert(es.take(i + 1).drop_last() =~= es.take(i as int));
            assert(es.take(i + 1).last() == es[i as int]);
            assert(es[i as int] == (line.number as nat, line.text@));
        }
        match read_ndjson_line(line) {
            Ok(value) => {
                let rows = record_lines(&value);
                let ghost before = out@.map_values(|s: String| s@);
                let mut j: usize = 0;
                while j < rows.len()
                    invariant
                        j <= rows@.len(),
                        out@.map_values(|s: String| s@) == before + rows@.map_values(
                            |s: String| s@,
                        ).take(j as int),
                    decreases rows.len() - j,
                {
                    let ghost prev = out@.map_values(|s: String| s@);
                    let item = rows[j].clone();
                    out.push(item);
                    assert(out@.map_values(|s: String| s@) =~= prev.push(item@));
                    proof {
                        assert(rows@.map_values(|s: String| s@).take(j + 1) =~= rows@.map_values(
                            |s: String| s@,
                        ).take(j as int).push(rows@[j as int]@));
                    }
                    assert(out@.map_values(|s: String| s@) =~= before + rows@.map_values(
                        |s: String| s@,
                    ).take(j + 1));
                    j = j + 1;
                }
                assert(rows@.map_values(|s: String| s@).take(j as int) =~= rows@.map_values(
                    |s: String| s@,
                ));
            },
            Err(message) => {
                proof {
                    lemma_report_error_sticks(es, i + 1);
                }
                return (out, Some(message));
            },
        }
        i = i + 1;
    }
    assert(es.take(i as int) =~= es);
    if out.len() == 0 {
        out.push(no_open_ports_message().to_owned());
        assert(out@.map_values(|s: String| s@) =~= seq![
            "No open ports found for requested targets"@,
        ]);
    }
    (out, None)
}


/// The width a field takes in a table row: the column's width, or the
/// field's own length when it is longer.
pub open spec fn field_width(s: Seq<char>, w: nat) -> nat {
    if s.len() < w {
        w
    } else {
        s.len()
    }
}

/// Where the port column of a row starts, given its address and protocol.
pub open spec fn port_column_start(ip: Seq<char>, proto: Seq<char>) -> int {
    (field_width(ip, 15) + 2 + field_width(proto, 4) + 2) as int
}

proof fn lemma_pad_left_shape(s: Seq<char>, w: nat)
    ensures
        pad_left(s, w) == spaces((field_width(s, w) - s.len()) as nat) + s,
        pad_left(s, w).len() == field_width(s, w),
{
    if s.len() >= w {
        assert(spaces(0) + s =~= s);
    }
}

proof fn lemma_pad_right_shape(s: Seq<char>, w: nat)
    ensures
        pad_right(s, w) == s + spaces((field_width(s, w) - s.len()) as nat),
        pad_right(s, w).len() == field_width(s, w),
{
    if s.len() >= w {
        assert(s + spaces(0) =~= s);
    }
}

/// Every field of a table row stands in full in its own column: the
/// address right-aligned in at least 15 characters, two spaces, the
/// protocol left-aligned in at least 4, two spaces, the port right-aligned
/// in at least 5, `  status=`, the status left-aligned in at least 7,
/// ` reason=` and the reason. Padding only ever adds spaces; no field is
/// cut.
pub proof fn lemma_table_row_columns(
    ip: Seq<char>,
    proto: Seq<char>,
    port: Seq<char>,
    status: Seq<char>,
    reason: Seq<char>,
)
    ensures
        ({
            let row = table_row(ip, proto, port, status, reason);
            let wi = field_width(ip, 15) as int;
            let wp = field_width(proto, 4) as int;
            let wn = field_width(port, 5) as int;
            let ws = field_width(status, 7) as int;
            let p0 = wi + 2;
            let n0 = p0 + wp + 2;
            let s0 = n0 + wn + 9;
            let r0 = s0 + ws + 8;
            &&& n0 == port_column_start(ip, proto)
            &&& row.len() == r0 + reason.len()
            &&& row.subrange(0, wi) == spaces((wi - ip.len()) as nat) + ip
            &&& row.subrange(wi, p0) == seq![' ', ' ']
            &&& row.subrange(p0, p0 + wp) == proto + spaces((wp - proto.len()) as nat)
            &&& row.subrange(p0 + wp, n0) == seq![' ', ' ']
            &&& row.subrange(n0, n0 + wn) == spaces((wn - port.len()) as nat) + port
            &&& row.subrange(n0 + wn, s0) == "  status="@
            &&& row.subrange(s0, s0 + ws) == status + spaces((ws - status.len()) as nat)
            &&& row.subrange(s0 + ws, r0) == " reason="@
            &&& row.subrange(r0, row.len() as int) == reason
        }),
{
    reveal_strlit("  ");
    reveal_strlit("  status=");
    reveal_strlit(" reason=");
    lemma_pad_left_shape(ip, 15);
    lemma_pad_right_shape(proto, 4);
    lemma_pad_left_shape(port, 5);
    lemma_pad_right_shape(status, 7);
    let a = pad_left(ip, 15);
    let b = pad_right(proto, 4);
    let c = pad_left(port, 5);
    let d = pad_right(status, 7);
    let row = table_row(ip, proto, port, status, reason);
    let wi = a.len() as int;
    let wp = b.len() as int;
    let wn = c.len() as int;
    let ws = d.len() as int;
    assert(row == a + "  "@ + b + "  "@ + c + "  status="@ + d + " reason="@ + reason);
    assert(row.subrange(0, wi) =~= a);
    assert(row.subrange(wi, wi + 2) =~= seq![' ', ' ']);
    assert(row.subrange(wi + 2, wi + 2 + wp) =~= b);
    assert(row.subrange(wi + 2 + wp, wi + 4 + wp) =~= seq![' ', ' ']);
    assert(row.subrange(wi + 4 + wp, wi + 4 + wp + wn) =~= c);
    assert(row.subrange(wi + 4 + wp + wn, wi + 13 + wp + wn) =~= "  status="@);
    assert(row.subrange(wi + 13 + wp + wn, wi + 13 + wp + wn + ws) =~= d);
    assert(row.subrange(wi + 13 + wp + wn + ws, wi + 21 + wp + wn + ws) =~= " reason="@);
    assert(row.subrange(wi + 21 + wp + wn + ws, row.len() as int) =~= reason);
}

/// The port column of a port's row reads back as that port: trimmed and
/// read as a 16-bit number, it gives `n`.
pub proof fn lemma_port_column_reads_back(
    ip: Seq<char>,
    proto: Seq<char>,
    n: u16,
    status: Seq<char>,
    reason: Seq<char>,
)
    ensures
        ({
            let port = decimal(n as nat);
            let row = table_row(ip, proto, port, status, reason);
            let n0 = port_column_start(ip, proto);
            parse_u16(trim(row.subrange(n0, n0 + field_width(port, 5)))) == Some(n)
        }),
{
    let port = decimal(n as nat);
    lemma_table_row_columns(ip, proto, port, status, reason);
    lemma_decimal_digits(n as nat);
    assert(is_digit(port[0]) && is_digit(port.last()));
    assert(!is_white(port[0]) && !is_white(port.last()));
    lemma_trim_after_spaces((field_width(port, 5) - port.len()) as nat, port);
    lemma_parse_decimal_u16(n);
}

/// The row of a status record shows its port in full: the port column of
/// its one row reads back as the record's port.
pub proof fn lemma_status_row_port(v: Json, n: u64)
    requires
        is_status_record(v),
        json_get(v, "port"@) == Some(Json::Number(Some(n))),
        n <= 0xffff,
    ensures
        record_rows(v).len() == 1,
        ({
            let row = record_rows(v)[0];
            let port = decimal(n as nat);
            let n0 = port_column_start(record_ip(v), text_or(json_get(v, "proto"@), "?"@));
            parse_u16(trim(row.subrange(n0, n0 + field_width(port, 5)))) == Some(n as u16)
        }),
{
    lemma_port_column_reads_back(
        record_ip(v),
        text_or(json_get(v, "proto"@), "?"@),
        n as u16,
        text_or(json_get_in(json_get(v, "data"@), "status"@), "unknown"@),
        text_or(json_get_in(json_get(v, "data"@), "reason"@), "n/a"@),
    );
}

/// The row for entry `i` of a record's port list shows the entry's port in
/// full: its port column reads back as that port.
pub proof fn lemma_port_entry_row_port(v: Json, entries: Vec<Json>, i: int, n: u64)
    requires
        json_get(v, "port"@) == Some(Json::Array(entries)),
        0 <= i < entries@.len(),
        json_get(entries@[i], "port"@) == Some(Json::Number(Some(n))),
        n <= 0xffff,
    ensures
        record_rows(v).len() == entries@.len(),
        ({
            let row = record_rows(v)[i];
            let port = decimal(n as nat);
            let n0 = port_column_start(record_ip(v), text_or(json_get(entries@[i], "proto"@), "?"@));
            parse_u16(trim(row.subrange(n0, n0 + field_width(port, 5)))) == Some(n as u16)
        }),
{
    lemma_port_column_reads_back(
        record_ip(v),
        text_or(json_get(entries@[i], "proto"@), "?"@),
        n as u16,
        text_or(json_get(entries@[i], "status"@), "unknown"@),
        text_or(json_get(entries@[i], "reason"@), "n/a"@),
    );
}


/// The row that shows a port record's fields.
pub open spec fn fields_row(f: (Seq<char>, Seq<char>, int, Seq<char>, Seq<char>)) -> Seq<char> {
    table_row(f.0, f.1, signed_decimal(f.2), f.3, f.4)
}

proof fn lemma_present_all<T>(s: Seq<Option<T>>)
    requires
        forall|i: int| 0 <= i < s.len() ==> (#[trigger] s[i]) is Some,
    ensures
        present(s).len() == s.len(),
        forall|i: int| 0 <= i < s.len() ==> #[trigger] present(s)[i] == s[i]->0,
    decreases s.len(),
{
    if s.len() > 0 {
        let init = s.drop_last();
        assert forall|i: int| 0 <= i < init.len() implies (#[trigger] init[i]) is Some by {
            assert(init[i] == s[i]);
        }
        lemma_present_all(init);
        assert(s.last() is Some);
        assert forall|i: int| 0 <= i < s.len() implies #[trigger] present(s)[i] == s[i]->0 by {
            if i < s.len() - 1 {
                assert(present(s)[i] == present(init)[i]);
                assert(init[i] == s[i]);
            }
        }
    }
}

/// A status record gives one port record, whose status and reason are
/// those under the record's `data` member (`unknown` and `n/a` when
/// absent), with its address, protocol and port; and that port record is
/// shown by exactly the one table row the record gives.
pub proof fn lemma_status_record_fields(v: Json, n: u64)
    requires
        is_status_record(v),
        json_get(v, "port"@) == Some(Json::Number(Some(n))),
        n <= i32::MAX,
    ensures
        record_statuses(v).len() == 1,
        record_statuses(v)[0] == (
            text_or(json_get(v, "ip"@), "<unknown-ip>"@),
            text_or(json_get(v, "proto"@), "?"@),
            n as int,
            text_or(json_get_in(json_get(v, "data"@), "status"@), "unknown"@),
            text_or(json_get_in(json_get(v, "data"@), "reason"@), "n/a"@),
        ),
        record_rows(v) == seq![fields_row(record_statuses(v)[0])],
{
    let single = seq![status_record_fields(v)];
    assert(single.drop_last() =~= Seq::<
        Option<(Seq<char>, Seq<char>, int, Seq<char>, Seq<char>)>,
    >::empty());
    lemma_present_all(single);
    assert(signed_decimal(n as int) == decimal(n as nat));
}

/// A record with a port list whose every port fits in an `i32` gives one
/// port record per entry, in order, each with the entry's own protocol,
/// port, status and reason (with the same stand-ins as its row) and the
/// record's address; and port record `i` is shown by exactly row `i`.
pub proof fn lemma_port_list_records(v: Json, entries: Vec<Json>)
    requires
        json_get(v, "port"@) == Some(Json::Array(entries)),
        forall|i: int|
            0 <= i < entries@.len() ==> (json_get(#[trigger] entries@[i], "port"@) matches Some(
                Json::Number(Some(n)),
            ) && n <= i32::MAX),
    ensures
        record_statuses(v).len() == entries@.len(),
        record_rows(v).len() == entries@.len(),
        forall|i: int|
            0 <= i < entries@.len() ==> #[trigger] record_statuses(v)[i] == (
                text_or(json_get(v, "ip"@), "<unknown-ip>"@),
                text_or(json_get(entries@[i], "proto"@), "?"@),
                json_get(entries@[i], "port"@)->0->Number_0->0 as int,
                text_or(json_get(entries@[i], "status"@), "unknown"@),
                text_or(json_get(entries@[i], "reason"@), "n/a"@),
            ),
        forall|i: int|
            0 <= i < entries@.len() ==> #[trigger] record_rows(v)[i] == fields_row(
                record_statuses(v)[i],
            ),
{
    let s = entries@.map_values(|e: Json| entry_fields(record_ip(v), e));
    assert forall|i: int| 0 <= i < s.len() implies (#[trigger] s[i]) is Some by {
        assert(json_get(entries@[i], "port"@) matches Some(Json::Number(Some(n))) && n <= i32::MAX);
    }
    lemma_present_all(s);
    assert forall|i: int| 0 <= i < entries@.len() implies #[trigger] record_rows(v)[i]
        == fields_row(record_statuses(v)[i]) by {
        assert(s[i] == entry_fields(record_ip(v), entries@[i]));
        let n = json_get(entries@[i], "port"@)->0->Number_0->0;
        assert(signed_decimal(n as int) == decimal(n as nat));
    }
}

} // verus!
