//! JSON and NDJSON structure: format detection, record boundaries and the
//! widening of inferred column types.
use vstd::prelude::*;
use crate::text::str_eq;
use crate::error::RelayError;
use serde_json::Value;

verus! {

/// JSON input format.
#[derive(Debug, Clone, Copy, PartialEq, Eq, Structural)]
pub enum JsonFormat {
    /// Auto-detect from file content.
    Auto,
    /// JSON array: `[{...}, {...}, ...]`
    JsonArray,
    /// Newline-delimited JSON: one JSON object per line.
    Ndjson,
}

/// Configuration for JSON reading.
#[derive(Debug, Clone, Copy, PartialEq, Eq, Structural)]
pub struct JsonReadOptions {
    /// Input format (default: Auto).
    pub format: JsonFormat,
    /// Number of rows to sample for schema inference.
    pub infer_schema_rows: usize,
    /// Target chunk size in rows for parallel parsing.
    pub chunk_size: usize,
}

impl Default for JsonReadOptions {
    fn default() -> (r: Self)
        ensures
            r == (JsonReadOptions { format: JsonFormat::Auto, infer_schema_rows: 1024, chunk_size: 8192 }),
    {
        JsonReadOptions { format: JsonFormat::Auto, infer_schema_rows: 1024, chunk_size: 8192 }
    }
}

/// Column types inferred from sampled values.
#[derive(Debug, Clone, Copy, PartialEq, Eq, Structural)]
pub enum ValueType {
    Null,
    Boolean,
    Int64,
    Float64,
    Utf8,
}

/// The type holding values of both: null gives way to the other type,
/// integers widen to floats, anything else mixed becomes text.
pub open spec fn widen_spec(a: ValueType, b: ValueType) -> ValueType {
    if a == ValueType::Null {
        b
    } else if b == ValueType::Null {
        a
    } else if a == b && a != ValueType::Utf8 {
        a
    } else if (a == ValueType::Int64 && b == ValueType::Float64) || (a == ValueType::Float64 && b
        == ValueType::Int64) {
        ValueType::Float64
    } else {
        ValueType::Utf8
    }
}

/// Widens two JSON value types.
pub fn widen(a: ValueType, b: ValueType) -> (r: ValueType)
    ensures
        r == widen_spec(a, b),
{
    match (a, b) {
        (ValueType::Null, other) => other,
        (other, ValueType::Null) => other,
        (ValueType::Int64, ValueType::Int64) => ValueType::Int64,
        (ValueType::Float64, ValueType::Float64) => ValueType::Float64,
        (ValueType::Int64, ValueType::Float64) => ValueType::Float64,
        (ValueType::Float64, ValueType::Int64) => ValueType::Float64,
        (ValueType::Boolean, ValueType::Boolean) => ValueType::Boolean,
        _ => ValueType::Utf8,
    }
}

/// Widening a list of types from the first; text when the list is empty.
pub open spec fn widen_all(ts: Seq<ValueType>) -> ValueType
    decreases ts.len(),
{
    if ts.len() == 0 {
        ValueType::Utf8
    } else if ts.len() == 1 {
        ts[0]
    } else {
        widen_spec(widen_all(ts.drop_last()), ts.last())
    }
}

/// Widens a list of types to the most general one.
pub fn widen_types(types: &[ValueType]) -> (r: ValueType)
    ensures
        r == widen_all(types@),
{
    let mut result: Option<ValueType> = None;
    let mut i: usize = 0;
    while i < types.len()
        invariant
            i <= types@.len(),
            i == 0 ==> result is None,
            i > 0 ==> result == Some(widen_all(types@.subrange(0, i as int))),
        decreases types@.len() - i,
    {
        proof {
            assert(types@.subrange(0, i + 1).drop_last() =~= types@.subrange(0, i as int));
        }
        result = Some(match result {
            None => types[i],
            Some(prev) => widen(prev, types[i]),
        });
        i += 1;
    }
    assert(types@.subrange(0, types@.len() as int) =~= types@);
    match result {
        Some(t) => t,
        None => ValueType::Utf8,
    }
}

// ─── Format detection ─────────────────────────────────────────────

/// Bytes skipped before the first significant byte: blanks, line breaks and
/// byte-order-mark bytes.
pub open spec fn is_lead_byte(b: u8) -> bool {
    b == 0x20 || b == 0x09 || b == 0x0a || b == 0x0d || b == 0xef || b == 0xbb || b == 0xbf
}

/// A JSON array when the first significant byte is `[`, NDJSON otherwise.
pub open spec fn format_of(data: Seq<u8>) -> JsonFormat {
    if exists|i: int| 0 <= i < data.len() && !is_lead_byte(data[i]) && (forall|j: int| 0 <= j < i ==> is_lead_byte(data[j])) && data[i] == 0x5b {
        JsonFormat::JsonArray
    } else {
        JsonFormat::Ndjson
    }
}

/// Detect whether the data is a JSON array or NDJSON.
pub fn detect_format(data: &[u8]) -> (r: JsonFormat)
    ensures
        r == format_of(data@),
{
    let mut i: usize = 0;
    while i < data.len()
        invariant
            i <= data@.len(),
            forall|j: int| 0 <= j < i ==> is_lead_byte(data@[j]),
        decreases data@.len() - i,
    {
        let b = data[i];
        if !(b == 0x20 || b == 0x09 || b == 0x0a || b == 0x0d || b == 0xef || b == 0xbb || b == 0xbf) {
            if b == 0x5b {
                return JsonFormat::JsonArray;
            } else {
                proof {
                    assert forall|k: int| 0 <= k < data@.len() && !is_lead_byte(data@[k]) && (forall|j: int| 0 <= j < k ==> is_lead_byte(data@[j])) implies data@[k] != 0x5b by {
                        if k < i {
                        } else if k > i {
                            assert(is_lead_byte(data@[i as int]));
                        }
                    }
                }
                return JsonFormat::Ndjson;
            }
        }
        i += 1;
    }
    JsonFormat::Ndjson
}

// ─── NDJSON records ───────────────────────────────────────────────

/// Every byte of `data[s..e]` is a blank (space or tab).
pub open spec fn all_blank(data: Seq<u8>, s: int, e: int) -> bool {
    forall|k: int| s <= k < e ==> data[k] == 0x20 || data[k] == 0x09
}

/// Every byte of `data[s..e]` is a blank or a line break.
pub open spec fn all_space(data: Seq<u8>, s: int, e: int) -> bool {
    forall|k: int| s <= k < e ==> data[k] == 0x20 || data[k] == 0x09 || data[k] == 0x0a || data[k] == 0x0d
}

/// The record a line feed at `i` ends, when the line (without a carriage
/// return before the feed) is not blank.
pub open spec fn line_record(data: Seq<u8>, start: int, i: int) -> Seq<(usize, usize)> {
    let end = if i > 0 && data[i - 1] == 0x0d {
        i - 1
    } else {
        i
    };
    if end > start && !all_blank(data, start, end) {
        seq![(start as usize, end as usize)]
    } else {
        Seq::empty()
    }
}

/// Where the line containing position `n` starts: after the last line feed
/// before `n`.
pub open spec fn line_start_before(data: Seq<u8>, n: int) -> int
    decreases n,
{
    if n <= 0 {
        0
    } else if data[n - 1] == 0x0a {
        n
    } else {
        line_start_before(data, n - 1)
    }
}

/// Records of the lines ended by line feeds among the first `n` bytes.
pub open spec fn ndjson_upto(data: Seq<u8>, n: int) -> Seq<(usize, usize)>
    decreases n,
{
    if n <= 0 {
        Seq::empty()
    } else if data[n - 1] == 0x0a {
        ndjson_upto(data, n - 1) + line_record(data, line_start_before(data, n - 1), n - 1)
    } else {
        ndjson_upto(data, n - 1)
    }
}

/// NDJSON records: every non-blank line, then the last line when no line
/// feed ends it and it holds more than blanks and line breaks.
pub open spec fn ndjson_records(data: Seq<u8>) -> Seq<(usize, usize)> {
    let n = data.len() as int;
    let s = line_start_before(data, n);
    ndjson_upto(data, n) + if s < n && !all_space(data, s, n) {
        seq![(s as usize, n as usize)]
    } else {
        Seq::empty()
    }
}

fn blank_range(data: &[u8], s: usize, e: usize, with_breaks: bool) -> (r: bool)
    requires
        s <= e <= data@.len(),
    ensures
        with_breaks ==> r == all_space(data@, s as int, e as int),
        !with_breaks ==> r == all_blank(data@, s as int, e as int),
{
    let mut k = s;
    while k < e
        invariant
            s <= k <= e <= data@.len(),
            with_breaks ==> all_space(data@, s as int, k as int),
            !with_breaks ==> all_blank(data@, s as int, k as int),
        decreases e - k,
    {
        let b = data[k];
        let ok = b == 0x20 || b == 0x09 || (with_breaks && (b == 0x0a || b == 0x0d));
        if !ok {
            return false;
        }
        k += 1;
    }
    true
}

/// Find record boundaries in NDJSON format: each non-blank line is a record,
/// `(start, end)` without the line break.
pub fn find_ndjson_records(data: &[u8]) -> (r: Vec<(usize, usize)>)
    ensures
        r@ == ndjson_records(data@),
{
    let mut records: Vec<(usize, usize)> = Vec::new();
    let mut line_start: usize = 0;
    let mut i: usize = 0;
    while i < data.len()
        invariant
            i <= data@.len(),
            line_start <= i,
            line_start as int == line_start_before(data@, i as int),
            records@ == ndjson_upto(data@, i as int),
        decreases data@.len() - i,
    {
        if data[i] == 0x0a {
            let line_end = if i > 0 && data[i - 1] == 0x0d {
                i - 1
            } else {
                i
            };
            if line_end > line_start {
                if !blank_range(data, line_start, line_end, false) {
                    records.push((line_start, line_end));
                }
            }
            line_start = i + 1;
        }
        i += 1;
    }
    if line_start < data.len() {
        if !blank_range(data, line_start, data.len(), true) {
            records.push((line_start, data.len()));
        }
    }
    records
}

// ─── JSON array records ───────────────────────────────────────────

/// Scanner state inside a JSON array: brace depth, inside a string, after a
/// backslash in a string, and where the current top-level object began.
pub struct ArrayScan {
    pub depth: int,
    pub in_string: bool,
    pub escape: bool,
    pub obj_start: Option<int>,
}

/// The records completed and the state after scanning `data[from..i]`.
pub open spec fn array_scan(data: Seq<u8>, from: int, i: int) -> (Seq<(usize, usize)>, ArrayScan)
    decreases i - from,
{
    if i <= from {
        (Seq::empty(), ArrayScan { depth: 0, in_string: false, escape: false, obj_start: None })
    } else {
        let (recs, st) = array_scan(data, from, i - 1);
        let p = i - 1;
        let b = data[p];
        if st.escape {
            (recs, ArrayScan { escape: false, ..st })
        } else if b == 0x5c && st.in_string {
            (recs, ArrayScan { escape: true, ..st })
        } else if b == 0x22 {
            (recs, ArrayScan { in_string: !st.in_string, ..st })
        } else if st.in_string {
            (recs, st)
        } else if b == 0x7b {
            (
                recs,
                ArrayScan {
                    depth: st.depth + 1,
                    obj_start: if st.depth == 0 {
                        Some(p)
                    } else {
                        st.obj_start
                    },
                    ..st
                },
            )
        } else if b == 0x7d {
            let d = st.depth - 1;
            (
                if d == 0 && st.obj_start is Some {
                    recs.push((st.obj_start->0 as usize, (p + 1) as usize))
                } else {
                    recs
                },
                ArrayScan { depth: d, ..st },
            )
        } else {
            (recs, st)
        }
    }
}

/// First position of byte `b`, if any.
pub open spec fn first_pos(data: Seq<u8>, b: u8) -> Option<int> {
    if exists|i: int| 0 <= i < data.len() && data[i] == b {
        Some(choose|i: int| 0 <= i < data.len() && data[i] == b && forall|j: int| 0 <= j < i ==> data[j] != b)
    } else {
        None
    }
}

/// Last position of byte `b`, if any.
pub open spec fn last_pos(data: Seq<u8>, b: u8) -> Option<int> {
    if exists|i: int| 0 <= i < data.len() && data[i] == b {
        Some(choose|i: int| 0 <= i < data.len() && data[i] == b && forall|j: int| i < j < data.len() ==> data[j] != b)
    } else {
        None
    }
}

/// Records of a JSON array: the top-level objects between the first `[` and
/// the last `]`, braces inside strings not counted.
pub open spec fn json_array_records(data: Seq<u8>) -> Seq<(usize, usize)> {
    match (first_pos(data, 0x5b), last_pos(data, 0x5d)) {
        (Some(open), Some(close)) => if open + 1 < close {
            array_scan(data, open + 1, close).0
        } else {
            Seq::empty()
        },
        _ => Seq::empty(),
    }
}

fn find_first_byte(data: &[u8], b: u8) -> (r: Option<usize>)
    ensures
        match r {
            Some(i) => i < data@.len() && first_pos(data@, b) == Some(i as int),
            None => first_pos(data@, b) is None,
        },
{
    let mut i: usize = 0;
    while i < data.len()
        invariant
            i <= data@.len(),
            forall|j: int| 0 <= j < i ==> data@[j] != b,
        decreases data@.len() - i,
    {
        if data[i] == b {
            proof {
                let c = choose|k: int| 0 <= k < data@.len() && data@[k] == b && forall|j: int| 0 <= j < k ==> data@[j] != b;
                if c < i {
                } else if c > i {
                    assert(data@[i as int] == b);
                }
            }
            return Some(i);
        }
        i += 1;
    }
    None
}

fn find_last_byte(data: &[u8], b: u8) -> (r: Option<usize>)
    ensures
        match r {
            Some(i) => i < data@.len() && last_pos(data@, b) == Some(i as int),
            None => last_pos(data@, b) is None,
        },
{
    let mut i: usize = data.len();
    while i > 0
        invariant
            i <= data@.len(),
            forall|j: int| i <= j < data@.len() ==> data@[j] != b,
        decreases i,
    {
        if data[i - 1] == b {
            proof {
                let c = choose|k: int| 0 <= k < data@.len() && data@[k] == b && forall|j: int| k < j < data@.len() ==> data@[j] != b;
                if c < i - 1 {
                    assert(data@[i - 1] == b);
                } else if c > i - 1 {
                }
            }
            return Some(i - 1);
        }
        i -= 1;
    }
    None
}

/// Find record boundaries in a JSON array `[{...}, {...}, ...]`: each
/// top-level object as `(start, end)`, the end just past its closing brace.
pub fn find_json_array_records(data: &[u8]) -> (r: Vec<(usize, usize)>)
    requires
        data@.len() <= i64::MAX,
    ensures
        r@ == json_array_records(data@),
{
    // A slice's length, a usize, bounds every position in it.
    let _len = data.len();
    let mut records: Vec<(usize, usize)> = Vec::new();
    let array_start = match find_first_byte(data, 0x5b) {
        Some(pos) => pos + 1,
        None => {
            return records;
        },
    };
    let array_end = match find_last_byte(data, 0x5d) {
        Some(pos) => pos,
        None => {
            return records;
        },
    };
    let mut i = array_start;
    let mut depth: i64 = 0;
    let mut in_string = false;
    let mut escape = false;
    let mut obj_start: Option<usize> = None;
    if array_start >= array_end {
        return records;
    }
    while i < array_end
        invariant
            data@.len() <= i64::MAX,
            array_start <= i <= array_end < data@.len(),
            ({
                let (recs, st) = array_scan(data@, array_start as int, i as int);
                &&& records@ == recs
                &&& st.depth == depth as int
                &&& st.in_string == in_string
                &&& st.escape == escape
                &&& st.obj_start == match obj_start {
                    Some(s) => Some(s as int),
                    None => None::<int>,
                }
            }),
            -(i - array_start) <= depth <= i - array_start,
        decreases array_end - i,
    {
        let byte = data[i];
        if escape {
            escape = false;
        } else if byte == 0x5c && in_string {
            escape = true;
        } else if byte == 0x22 {
            in_string = !in_string;
        } else if in_string {
        } else if byte == 0x7b {
            if depth == 0 {
                obj_start = Some(i);
            }
            depth += 1;
        } else if byte == 0x7d {
            depth -= 1;
            if depth == 0 {
                match obj_start {
                    Some(start) => records.push((start, i + 1)),
                    None => {},
                }
            }
        }
        i += 1;
    }
    records
}

/// Widening two types does not depend on their order.
pub proof fn lemma_widen_commutes(a: ValueType, b: ValueType)
    ensures
        widen_spec(a, b) == widen_spec(b, a),
{
}

/// Widening is associative, so a column's type does not depend on how its
/// sampled types are grouped.
pub proof fn lemma_widen_associates(a: ValueType, b: ValueType, c: ValueType)
    ensures
        widen_spec(widen_spec(a, b), c) == widen_spec(a, widen_spec(b, c)),
{
}

// ─── Columns of sampled records ───────────────────────────────────

/// Keys in the order they first occur among the members of the sampled
/// records (each record's members in its own order, records one after
/// another).
pub open spec fn keys_in_order(ms: Seq<(Seq<char>, ValueType)>) -> Seq<Seq<char>>
    decreases ms.len(),
{
    if ms.len() == 0 {
        Seq::empty()
    } else {
        let prev = keys_in_order(ms.drop_last());
        if prev.contains(ms.last().0) {
            prev
        } else {
            prev.push(ms.last().0)
        }
    }
}

/// The types of the values under `k`, in order.
pub open spec fn types_of(ms: Seq<(Seq<char>, ValueType)>, k: Seq<char>) -> Seq<ValueType>
    decreases ms.len(),
{
    if ms.len() == 0 {
        Seq::empty()
    } else {
        let prev = types_of(ms.drop_last(), k);
        if ms.last().0 == k {
            prev.push(ms.last().1)
        } else {
            prev
        }
    }
}

/// The inferred columns: each key, in order of first occurrence, with the
/// widening of the types of its values.
pub open spec fn inferred_columns(ms: Seq<(Seq<char>, ValueType)>) -> Seq<(Seq<char>, ValueType)> {
    let ks = keys_in_order(ms);
    Seq::new(ks.len(), |j: int| (ks[j], widen_all(types_of(ms, ks[j]))))
}

/// The members as keys and types.
pub open spec fn members_view(ms: Seq<(String, ValueType)>) -> Seq<(Seq<char>, ValueType)> {
    Seq::new(ms.len(), |i: int| (ms[i].0@, ms[i].1))
}

/// A key occurs in the order exactly when some value sits under it, and
/// no key occurs twice.
proof fn lemma_keys_in_order(ms: Seq<(Seq<char>, ValueType)>)
    ensures
        forall|k: Seq<char>| #[trigger] keys_in_order(ms).contains(k) <==> types_of(ms, k).len() > 0,
        forall|i: int, j: int|
            0 <= i < j < keys_in_order(ms).len() ==> keys_in_order(ms)[i] != keys_in_order(ms)[j],
    decreases ms.len(),
{
    if ms.len() > 0 {
        let p = ms.drop_last();
        lemma_keys_in_order(p);
        let prev = keys_in_order(p);
        assert forall|k: Seq<char>| #[trigger] keys_in_order(ms).contains(k) <==> types_of(ms, k).len() > 0 by {
            if !prev.contains(ms.last().0) {
                if keys_in_order(ms).contains(k) {
                    let i = choose|i: int| 0 <= i < keys_in_order(ms).len() && keys_in_order(ms)[i] == k;
                    if i < prev.len() {
                        assert(prev.contains(k));
                    }
                }
                if prev.contains(k) {
                    let i = choose|i: int| 0 <= i < prev.len() && prev[i] == k;
                    assert(keys_in_order(ms)[i] == k);
                }
                if k == ms.last().0 {
                    assert(keys_in_order(ms)[prev.len() as int] == k);
                }
            }
        }
    }
}

/// The columns of sampled records, read from the members of each record in
/// turn: keys in order of first occurrence, each with the widened type of
/// its values.
pub fn infer_columns(members: &Vec<(String, ValueType)>) -> (r: Vec<(String, ValueType)>)
    ensures
        members_view(r@) == inferred_columns(members_view(members@)),
{
    let ghost ms = members_view(members@);
    let mut keys: Vec<String> = Vec::new();
    let mut types: Vec<ValueType> = Vec::new();
    let mut i: usize = 0;
    while i < members.len()
        invariant
            ms == members_view(members@),
            i <= members@.len(),
            keys@.len() == types@.len(),
            keys@.len() == keys_in_order(ms.subrange(0, i as int)).len(),
            forall|j: int| 0 <= j < keys@.len() ==> #[trigger] keys@[j]@ == keys_in_order(ms.subrange(0, i as int))[j],
            forall|j: int|
                0 <= j < keys@.len() ==> #[trigger] types@[j] == widen_all(types_of(ms.subrange(0, i as int), keys@[j]@)),
        decreases members@.len() - i,
    {
        let ghost p = ms.subrange(0, i as int);
        let ghost q = ms.subrange(0, i + 1);
        proof {
            assert(q.drop_last() =~= p);
            assert(q.last() == ms[i as int]);
            lemma_keys_in_order(p);
        }
        let key = &members[i].0;
        let t = members[i].1;
        let mut j: usize = 0;
        while j < keys.len()
            invariant
                j <= keys@.len(),
                forall|m: int| 0 <= m < j ==> keys@[m]@ != key@,
            ensures
                j <= keys@.len(),
                forall|m: int| 0 <= m < j ==> keys@[m]@ != key@,
                j < keys@.len() ==> keys@[j as int]@ == key@,
            decreases keys@.len() - j,
        {
            if str_eq(keys[j].as_str(), key.as_str()) {
                break;
            }
            j += 1;
        }
        if j < keys.len() {
            proof {
                assert(keys@[j as int]@ == key@);
                assert(keys_in_order(p)[j as int] == key@);
            }
            let w = widen(types[j], t);
            types.set(j, w);
            proof {
                assert(keys_in_order(q) == keys_in_order(p));
                assert forall|m: int| 0 <= m < keys@.len() implies #[trigger] types@[m] == widen_all(types_of(q, keys@[m]@)) by {
                    if m != j {
                        assert(keys_in_order(p)[m] != keys_in_order(p)[j as int]);
                    } else {
                        assert(types_of(p, key@).len() > 0) by {
                            assert(keys_in_order(p).contains(key@));
                        }
                        assert(types_of(q, key@) == types_of(p, key@).push(t));
                        assert(types_of(q, key@).drop_last() =~= types_of(p, key@));
                    }
                }
            }
        } else {
            proof {
                assert(!keys_in_order(p).contains(key@)) by {
                    if keys_in_order(p).contains(key@) {
                        let m = choose|m: int| 0 <= m < keys_in_order(p).len() && keys_in_order(p)[m] == key@;
                        assert(keys@[m]@ == key@);
                    }
                }
                assert(types_of(p, key@).len() == 0);
                assert(types_of(q, key@) =~= seq![t]);
            }
            keys.push(key.clone());
            types.push(t);
            proof {
                assert forall|m: int| 0 <= m < keys@.len() - 1 implies #[trigger] types@[m] == widen_all(types_of(q, keys@[m]@)) by {
                    assert(keys@[m]@ == keys_in_order(p)[m]);
                    assert(keys@[m]@ != key@);
                }
            }
        }
        i += 1;
    }
    proof {
        assert(ms.subrange(0, members@.len() as int) =~= ms);
    }
    let mut out: Vec<(String, ValueType)> = Vec::new();
    let mut k: usize = 0;
    while k < keys.len()
        invariant
            ms == members_view(members@),
            keys@.len() == types@.len(),
            keys@.len() == keys_in_order(ms).len(),
            forall|j: int| 0 <= j < keys@.len() ==> #[trigger] keys@[j]@ == keys_in_order(ms)[j],
            forall|j: int| 0 <= j < keys@.len() ==> #[trigger] types@[j] == widen_all(types_of(ms, keys@[j]@)),
            k <= keys@.len(),
            out@.len() == k,
            forall|j: int| 0 <= j < k ==> (#[trigger] out@[j]).0@ == keys@[j]@ && out@[j].1 == types@[j],
        decreases keys@.len() - k,
    {
        out.push((keys[k].clone(), types[k]));
        k += 1;
    }
    assert(members_view(out@) =~= inferred_columns(ms));
    out
}

// ─── Records of a file ────────────────────────────────────────────

/// The format a file is read in: the one asked for, or the detected one when
/// asked to detect.
pub open spec fn resolved_format(data: Seq<u8>, requested: JsonFormat) -> JsonFormat {
    if requested == JsonFormat::Auto {
        format_of(data)
    } else {
        requested
    }
}

/// The format a file is read in and the byte spans of its records in that
/// format.
pub fn json_records(data: &[u8], requested: JsonFormat) -> (r: (JsonFormat, Vec<(usize, usize)>))
    requires
        data@.len() <= i64::MAX,
    ensures
        r.0 == resolved_format(data@, requested),
        !(r.0 is Auto),
        r.0 is JsonArray ==> r.1@ == json_array_records(data@),
        r.0 is Ndjson ==> r.1@ == ndjson_records(data@),
{
    let format = if requested == JsonFormat::Auto {
        detect_format(data)
    } else {
        requested
    };
    match format {
        JsonFormat::JsonArray => (format, find_json_array_records(data)),
        _ => (JsonFormat::Ndjson, find_ndjson_records(data)),
    }
}


// ─── Member types of JSON records ─────────────────────────────────

/// What a JSON value is, as far as type inference asks: the kind of value,
/// and for a number whether it is an integer that fits in 64 signed bits.
#[derive(Debug, Clone, Copy, PartialEq, Eq, Structural)]
pub enum JsonKind {
    Null,
    Bool,
    Number { fits_i64: bool },
    Str,
    Array,
    Object,
}

/// The column type a value of this kind is inferred as: integers that fit
/// give 64-bit integers, other numbers floats, arrays and objects text.
pub open spec fn kind_type(k: JsonKind) -> ValueType {
    match k {
        JsonKind::Null => ValueType::Null,
        JsonKind::Bool => ValueType::Boolean,
        JsonKind::Number { fits_i64 } => if fits_i64 {
            ValueType::Int64
        } else {
            ValueType::Float64
        },
        JsonKind::Str => ValueType::Utf8,
        JsonKind::Array => ValueType::Utf8,
        JsonKind::Object => ValueType::Utf8,
    }
}

/// The column type of a value of kind `k`.
pub fn value_type_of(k: JsonKind) -> (r: ValueType)
    ensures
        r == kind_type(k),
{
    match k {
        JsonKind::Null => ValueType::Null,
        JsonKind::Bool => ValueType::Boolean,
        JsonKind::Number { fits_i64 } => if fits_i64 {
            ValueType::Int64
        } else {
            ValueType::Float64
        },
        JsonKind::Str => ValueType::Utf8,
        JsonKind::Array => ValueType::Utf8,
        JsonKind::Object => ValueType::Utf8,
    }
}

/// A parsed record: an object with its members (keys and kinds, in the
/// map's order), or a value of another kind.
pub enum ParsedRecord {
    Object(Vec<(String, JsonKind)>),
    Other(JsonKind),
}

/// A parsed record by content.
pub enum RecordShape {
    Object(Seq<(Seq<char>, JsonKind)>),
    Other(JsonKind),
}

/// What `serde_json::from_slice::<Value>` makes of a record: on success
/// the object's members or the kind of the other value it holds; on
/// failure the error's text.
pub uninterp spec fn json_record_shape(record: Seq<u8>) -> Result<RecordShape, Seq<char>>;

/// The members as keys and kinds.
pub open spec fn kinds_view(ms: Seq<(String, JsonKind)>) -> Seq<(Seq<char>, JsonKind)> {
    Seq::new(ms.len(), |i: int| (ms[i].0@, ms[i].1))
}

/// A parse result by content.
pub open spec fn parse_view(r: Result<ParsedRecord, String>) -> Result<RecordShape, Seq<char>> {
    match r {
        Ok(ParsedRecord::Object(v)) => Ok(RecordShape::Object(kinds_view(v@))),
        Ok(ParsedRecord::Other(k)) => Ok(RecordShape::Other(k)),
        Err(e) => Err(e@),
    }
}

/// `serde_json::from_slice::<serde_json::Value>` on one record: an object's
/// members taken as keys and kinds, another value by its kind, and the
/// error as its `Display` text. The result is named by `json_record_shape`:
/// a function of the record's bytes alone.
#[verifier::external_body]
fn parse_json_record(record: &[u8]) -> (r: Result<ParsedRecord, String>)
    ensures
        parse_view(r) == json_record_shape(record@),
{
    let kind = |v: &Value| match v {
        Value::Null => JsonKind::Null,
        Value::Bool(_) => JsonKind::Bool,
        Value::Number(n) => JsonKind::Number { fits_i64: n.is_i64() },
        Value::String(_) => JsonKind::Str,
        Value::Array(_) => JsonKind::Array,
        Value::Object(_) => JsonKind::Object,
    };
    match serde_json::from_slice::<Value>(record) {
        Ok(Value::Object(m)) => Ok(ParsedRecord::Object(m.iter().map(|(k, v)| (k.clone(), kind(v))).collect())),
        Ok(v) => Ok(ParsedRecord::Other(kind(&v))),
        Err(e) => Err(format!("{}", e)),
    }
}

/// The members a parsed record contributes: an object's members; a value
/// that is not an object contributes none.
pub open spec fn shape_members(sh: RecordShape) -> Seq<(Seq<char>, JsonKind)> {
    match sh {
        RecordShape::Object(ms) => ms,
        RecordShape::Other(_) => Seq::empty(),
    }
}

/// The members as keys and the types their values are inferred as.
pub open spec fn typed_members(ms: Seq<(Seq<char>, JsonKind)>) -> Seq<(Seq<char>, ValueType)> {
    Seq::new(ms.len(), |i: int| (ms[i].0, kind_type(ms[i].1)))
}

/// The message of a record that does not parse.
pub open spec fn parse_failure(msg: Seq<char>) -> Seq<char> {
    "JSON parse error during schema inference: "@ + msg
}

/// The members of one JSON record with the types their values are
/// inferred as, in the order the parser gives them; a record that does not
/// parse is an error.
pub fn record_member_types(record: &[u8]) -> (r: Result<Vec<(String, ValueType)>, RelayError>)
    ensures
        json_record_shape(record@) is Ok <==> r is Ok,
        r matches Ok(v) ==> members_view(v@) == typed_members(shape_members(json_record_shape(record@)->Ok_0)),
        r matches Err(e) ==> e matches RelayError::Arrow(m) && m@ == parse_failure(json_record_shape(record@)->Err_0),
{
    match parse_json_record(record) {
        Ok(ParsedRecord::Other(_)) => {
            let out: Vec<(String, ValueType)> = Vec::new();
            assert(members_view(out@) =~= typed_members(Seq::empty()));
            Ok(out)
        },
        Ok(ParsedRecord::Object(kinds)) => {
            let ghost ks = kinds_view(kinds@);
            let mut out: Vec<(String, ValueType)> = Vec::new();
            let mut i: usize = 0;
            while i < kinds.len()
                invariant
                    ks == kinds_view(kinds@),
                    i <= kinds@.len(),
                    out@.len() == i,
                    forall|j: int| 0 <= j < i ==> (#[trigger] out@[j]).0@ == ks[j].0 && out@[j].1 == kind_type(ks[j].1),
                decreases kinds@.len() - i,
            {
                let (key, kind) = &kinds[i];
                out.push((key.clone(), value_type_of(*kind)));
                i += 1;
            }
            assert(members_view(out@) =~= typed_members(ks));
            Ok(out)
        },
        Err(msg) => {
            let mut m = String::from_str("JSON parse error during schema inference: ");
            m.append(msg.as_str());
            Err(RelayError::Arrow(m))
        },
    }
}

/// The members of records `0..n`, one after another, with inferred types;
/// the first record that does not parse gives its message.
pub open spec fn records_members(data: Seq<u8>, recs: Seq<(usize, usize)>, n: int) -> Result<Seq<(Seq<char>, ValueType)>, Seq<char>>
    decreases n,
{
    if n <= 0 {
        Ok(Seq::empty())
    } else {
        match records_members(data, recs, n - 1) {
            Err(m) => Err(m),
            Ok(ms) => match json_record_shape(data.subrange(recs[n - 1].0 as int, recs[n - 1].1 as int)) {
                Err(m) => Err(parse_failure(m)),
                Ok(sh) => Ok(ms + typed_members(shape_members(sh))),
            },
        }
    }
}

/// Once a record fails, every longer run of records fails with its message.
proof fn lemma_records_err(data: Seq<u8>, recs: Seq<(usize, usize)>, n: int, m: int)
    requires
        1 <= n <= m,
        records_members(data, recs, n) is Err,
    ensures
        records_members(data, recs, m) == records_members(data, recs, n),
    decreases m - n,
{
    if m > n {
        lemma_records_err(data, recs, n, m - 1);
    }
}

/// Column names and types inferred from the sampled records: every record
/// is parsed in order, and the members of all of them give the columns in
/// first-seen key order, each with the widened type of its values. A record
/// that does not parse is an error.
pub fn infer_json_columns(data: &[u8], records: &[(usize, usize)]) -> (r: Result<Vec<(String, ValueType)>, RelayError>)
    requires
        forall|k: int| 0 <= k < records@.len() ==> (#[trigger] records@[k]).0 <= records@[k].1 <= data@.len(),
    ensures
        records_members(data@, records@, records@.len() as int) is Ok <==> r is Ok,
        r matches Ok(v) ==> members_view(v@) == inferred_columns(
            records_members(data@, records@, records@.len() as int)->Ok_0,
        ),
        r matches Err(e) ==> e matches RelayError::Arrow(m) && m@ == records_members(
            data@,
            records@,
            records@.len() as int,
        )->Err_0,
{
    let mut members: Vec<(String, ValueType)> = Vec::new();
    assert(members_view(members@) =~= Seq::<(Seq<char>, ValueType)>::empty());
    let mut k: usize = 0;
    while k < records.len()
        invariant
            forall|q: int| 0 <= q < records@.len() ==> (#[trigger] records@[q]).0 <= records@[q].1 <= data@.len(),
            k <= records@.len(),
            records_members(data@, records@, k as int) == Ok::<Seq<(Seq<char>, ValueType)>, Seq<char>>(members_view(members@)),
        decreases records@.len() - k,
    {
        let (start, end) = records[k];
        assert(records@[k as int].0 <= records@[k as int].1 <= data@.len());
        let rec = vstd::slice::slice_subrange(data, start, end);
        match record_member_types(rec) {
            Ok(found) => {
                let ghost before = members_view(members@);
                let mut j: usize = 0;
                while j < found.len()
                    invariant
                        j <= found@.len(),
                        members_view(members@) == before + members_view(found@).subrange(0, j as int),
                    decreases found@.len() - j,
                {
                    let ghost prev = members@;
                    let (key, t) = &found[j];
                    members.push((key.clone(), *t));
                    assert(members@ == prev.push((found@[j as int].0, found@[j as int].1)));
                    assert(members_view(members@) =~= members_view(prev).push(members_view(found@)[j as int]));
                    assert(members_view(found@).subrange(0, j + 1) =~= members_view(found@).subrange(0, j as int).push(
                        members_view(found@)[j as int],
                    ));
                    assert(members_view(members@) =~= before + members_view(found@).subrange(0, j + 1));
                    j += 1;
                }
                assert(members_view(found@).subrange(0, found@.len() as int) =~= members_view(found@));
            },
            Err(e) => {
                proof {
                    assert(rec@ == data@.subrange(start as int, end as int));
                    lemma_records_err(data@, records@, k + 1, records@.len() as int);
                }
                return Err(e);
            },
        }
        k += 1;
    }
    Ok(infer_columns(&members))
}

} // verus!
