//! Relay's logical type system, mirroring the Apache Arrow data types.
use vstd::prelude::*;
use crate::text::{int_text, push_i64};

verus! {

/// Time resolution of temporal types.
#[derive(Debug, Clone, PartialEq, Eq, Hash)]
pub enum TimeUnit {
    Second,
    Millisecond,
    Microsecond,
    Nanosecond,
}

/// Unit of an interval type.
#[derive(Debug, Clone, PartialEq, Eq, Hash)]
pub enum IntervalUnit {
    YearMonth,
    DayTime,
    MonthDayNano,
}

/// Core type enumeration for Relay's internal type system.
/// Maps directly to Apache Arrow data types.
#[derive(Debug, PartialEq, Eq, Hash)]
pub enum RelayType {
    // Primitive types
    Boolean,
    Int8,
    Int16,
    Int32,
    Int64,
    UInt8,
    UInt16,
    UInt32,
    UInt64,
    Float16,
    Float32,
    Float64,
    // String types
    Utf8,
    LargeUtf8,
    Utf8View,
    // Binary types
    Binary,
    LargeBinary,
    BinaryView,
    // Temporal types
    Date32,
    Date64,
    Time32Second,
    Time32Millisecond,
    Time64Microsecond,
    Time64Nanosecond,
    Timestamp(TimeUnit, Option<String>),
    Duration(TimeUnit),
    Interval(IntervalUnit),
    // Complex types
    List(Box<RelayType>),
    LargeList(Box<RelayType>),
    FixedSizeList(Box<RelayType>, i32),
    Struct(Vec<(String, RelayType)>),
    MapType(Box<RelayType>, bool),
    Dictionary(Box<RelayType>, Box<RelayType>),
    Union(Vec<RelayType>),
    // Special
    Null,
}

// ─── Classification ───────────────────────────────────────────────

/// Fixed-width primitive types.
pub open spec fn is_primitive_type(t: RelayType) -> bool {
    ||| t is Boolean
    ||| t is Int8
    ||| t is Int16
    ||| t is Int32
    ||| t is Int64
    ||| t is UInt8
    ||| t is UInt16
    ||| t is UInt32
    ||| t is UInt64
    ||| t is Float16
    ||| t is Float32
    ||| t is Float64
    ||| t is Date32
    ||| t is Date64
}

/// Variable-length string types.
pub open spec fn is_string_type(t: RelayType) -> bool {
    t is Utf8 || t is LargeUtf8 || t is Utf8View
}

/// Variable-length binary types.
pub open spec fn is_binary_type(t: RelayType) -> bool {
    t is Binary || t is LargeBinary || t is BinaryView
}

/// Temporal types.
pub open spec fn is_temporal_type(t: RelayType) -> bool {
    ||| t is Date32
    ||| t is Date64
    ||| t is Time32Second
    ||| t is Time32Millisecond
    ||| t is Time64Microsecond
    ||| t is Time64Nanosecond
    ||| t is Timestamp
    ||| t is Duration
    ||| t is Interval
}

/// Numeric types with vectorized kernels (booleans are bit-packed and excluded).
pub open spec fn is_simd_type(t: RelayType) -> bool {
    ||| t is Int8
    ||| t is Int16
    ||| t is Int32
    ||| t is Int64
    ||| t is UInt8
    ||| t is UInt16
    ||| t is UInt32
    ||| t is UInt64
    ||| t is Float16
    ||| t is Float32
    ||| t is Float64
}

/// Byte width of a fixed-width type (booleans count as one byte).
pub open spec fn byte_width(t: RelayType) -> Option<usize> {
    match t {
        RelayType::Boolean | RelayType::Int8 | RelayType::UInt8 => Some(1),
        RelayType::Int16 | RelayType::UInt16 | RelayType::Float16 => Some(2),
        RelayType::Int32 | RelayType::UInt32 | RelayType::Float32 | RelayType::Date32
        | RelayType::Time32Second | RelayType::Time32Millisecond => Some(4),
        RelayType::Int64 | RelayType::UInt64 | RelayType::Float64 | RelayType::Date64
        | RelayType::Time64Microsecond | RelayType::Time64Nanosecond => Some(8),
        RelayType::Timestamp(_, _) | RelayType::Duration(_) => Some(8),
        _ => None,
    }
}

/// Two types are the same: equal variants and parameters, with struct fields
/// and union members compared element by element.
pub open spec fn same_type(a: RelayType, b: RelayType) -> bool
    decreases a,
{
    match a {
        RelayType::List(x) => b matches RelayType::List(y) && same_type(*x, *y),
        RelayType::LargeList(x) => b matches RelayType::LargeList(y) && same_type(*x, *y),
        RelayType::FixedSizeList(x, n) => b matches RelayType::FixedSizeList(y, m) && n == m
            && same_type(*x, *y),
        RelayType::MapType(x, s) => b matches RelayType::MapType(y, t) && s == t && same_type(
            *x,
            *y,
        ),
        RelayType::Dictionary(k, v) => b matches RelayType::Dictionary(k2, v2) && same_type(*k, *k2)
            && same_type(*v, *v2),
        RelayType::Struct(fs) => b matches RelayType::Struct(gs) && same_fields(fs@, gs@),
        RelayType::Union(ms) => b matches RelayType::Union(ns) && same_types(ms@, ns@),
        _ => a == b,
    }
}

/// Struct fields pairwise: equal names and the same types.
pub open spec fn same_fields(fs: Seq<(String, RelayType)>, gs: Seq<(String, RelayType)>) -> bool
    decreases fs,
{
    if fs.len() == 0 {
        gs.len() == 0
    } else {
        &&& gs.len() == fs.len()
        &&& same_fields(fs.drop_last(), gs.drop_last())
        &&& fs.last().0 == gs.last().0
        &&& same_type(fs.last().1, gs.last().1)
    }
}

/// Type lists pairwise the same.
pub open spec fn same_types(ms: Seq<RelayType>, ns: Seq<RelayType>) -> bool
    decreases ms,
{
    if ms.len() == 0 {
        ns.len() == 0
    } else {
        &&& ns.len() == ms.len()
        &&& same_types(ms.drop_last(), ns.drop_last())
        &&& same_type(ms.last(), ns.last())
    }
}

// ─── Text forms ───────────────────────────────────────────────────

/// The quoted, escaped form in which `{:?}` shows a string.
pub uninterp spec fn str_debug_text(s: Seq<char>) -> Seq<char>;

/// `format!("{:?}", s)` for a string slice.
#[verifier::external_body]
pub(crate) fn str_debug(s: &str) -> (r: String)
    ensures
        r@ == str_debug_text(s@),
{
    format!("{:?}", s)
}

pub open spec fn unit_text(u: TimeUnit) -> Seq<char> {
    match u {
        TimeUnit::Second => "s"@,
        TimeUnit::Millisecond => "ms"@,
        TimeUnit::Microsecond => "us"@,
        TimeUnit::Nanosecond => "ns"@,
    }
}

pub open spec fn unit_debug_text(u: TimeUnit) -> Seq<char> {
    match u {
        TimeUnit::Second => "Second"@,
        TimeUnit::Millisecond => "Millisecond"@,
        TimeUnit::Microsecond => "Microsecond"@,
        TimeUnit::Nanosecond => "Nanosecond"@,
    }
}

pub open spec fn interval_debug_text(u: IntervalUnit) -> Seq<char> {
    match u {
        IntervalUnit::YearMonth => "YearMonth"@,
        IntervalUnit::DayTime => "DayTime"@,
        IntervalUnit::MonthDayNano => "MonthDayNano"@,
    }
}

pub open spec fn bool_text(b: bool) -> Seq<char> {
    if b { "true"@ } else { "false"@ }
}

/// The `{:?}` form of a type (derived debug formatting).
pub open spec fn debug_text(t: RelayType) -> Seq<char>
    decreases t,
{
    match t {
        RelayType::Boolean => "Boolean"@,
        RelayType::Int8 => "Int8"@,
        RelayType::Int16 => "Int16"@,
        RelayType::Int32 => "Int32"@,
        RelayType::Int64 => "Int64"@,
        RelayType::UInt8 => "UInt8"@,
        RelayType::UInt16 => "UInt16"@,
        RelayType::UInt32 => "UInt32"@,
        RelayType::UInt64 => "UInt64"@,
        RelayType::Float16 => "Float16"@,
        RelayType::Float32 => "Float32"@,
        RelayType::Float64 => "Float64"@,
        RelayType::Utf8 => "Utf8"@,
        RelayType::LargeUtf8 => "LargeUtf8"@,
        RelayType::Utf8View => "Utf8View"@,
        RelayType::Binary => "Binary"@,
        RelayType::LargeBinary => "LargeBinary"@,
        RelayType::BinaryView => "BinaryView"@,
        RelayType::Date32 => "Date32"@,
        RelayType::Date64 => "Date64"@,
        RelayType::Time32Second => "Time32Second"@,
        RelayType::Time32Millisecond => "Time32Millisecond"@,
        RelayType::Time64Microsecond => "Time64Microsecond"@,
        RelayType::Time64Nanosecond => "Time64Nanosecond"@,
        RelayType::Timestamp(u, tz) => "Timestamp("@ + unit_debug_text(u) + ", "@ + match tz {
            None => "None"@,
            Some(z) => "Some("@ + str_debug_text(z@) + ")"@,
        } + ")"@,
        RelayType::Duration(u) => "Duration("@ + unit_debug_text(u) + ")"@,
        RelayType::Interval(u) => "Interval("@ + interval_debug_text(u) + ")"@,
        RelayType::List(inner) => "List("@ + debug_text(*inner) + ")"@,
        RelayType::LargeList(inner) => "LargeList("@ + debug_text(*inner) + ")"@,
        RelayType::FixedSizeList(inner, n) => "FixedSizeList("@ + debug_text(*inner) + ", "@
            + int_text(n as int) + ")"@,
        RelayType::Struct(fields) => "Struct(["@ + fields_debug_text(fields@) + "])"@,
        RelayType::MapType(inner, sorted) => "Map("@ + debug_text(*inner) + ", "@ + bool_text(sorted)
            + ")"@,
        RelayType::Dictionary(k, v) => "Dictionary("@ + debug_text(*k) + ", "@ + debug_text(*v)
            + ")"@,
        RelayType::Union(members) => "Union(["@ + list_debug_text(members@) + "])"@,
        RelayType::Null => "Null"@,
    }
}

/// `{:?}` of struct fields, as the tuples `("name", Type)` separated by ", ".
pub open spec fn fields_debug_text(fs: Seq<(String, RelayType)>) -> Seq<char>
    decreases fs,
{
    if fs.len() == 0 {
        Seq::empty()
    } else {
        let last = fs.last();
        let item = "("@ + str_debug_text(last.0@) + ", "@ + debug_text(last.1) + ")"@;
        if fs.len() == 1 {
            item
        } else {
            fields_debug_text(fs.drop_last()) + ", "@ + item
        }
    }
}

/// `{:?}` of a list of types separated by ", ".
pub open spec fn list_debug_text(ts: Seq<RelayType>) -> Seq<char>
    decreases ts,
{
    if ts.len() == 0 {
        Seq::empty()
    } else if ts.len() == 1 {
        debug_text(ts[0])
    } else {
        list_debug_text(ts.drop_last()) + ", "@ + debug_text(ts.last())
    }
}

/// The display form of a type (`i32`, `list[f64]`, `struct<a: i32>`, ...); types
/// without a short form show their debug form.
pub open spec fn type_text(t: RelayType) -> Seq<char>
    decreases t,
{
    match t {
        RelayType::Boolean => "bool"@,
        RelayType::Int8 => "i8"@,
        RelayType::Int16 => "i16"@,
        RelayType::Int32 => "i32"@,
        RelayType::Int64 => "i64"@,
        RelayType::UInt8 => "u8"@,
        RelayType::UInt16 => "u16"@,
        RelayType::UInt32 => "u32"@,
        RelayType::UInt64 => "u64"@,
        RelayType::Float16 => "f16"@,
        RelayType::Float32 => "f32"@,
        RelayType::Float64 => "f64"@,
        RelayType::Utf8 => "string"@,
        RelayType::LargeUtf8 => "large_string"@,
        RelayType::Utf8View => "string_view"@,
        RelayType::Binary => "binary"@,
        RelayType::LargeBinary => "large_binary"@,
        RelayType::BinaryView => "binary_view"@,
        RelayType::Date32 => "date32"@,
        RelayType::Date64 => "date64"@,
        RelayType::Timestamp(u, tz) => "timestamp("@ + unit_text(u) + match tz {
            None => Seq::empty(),
            Some(z) => ", \""@ + z@ + "\""@,
        } + ")"@,
        RelayType::Duration(u) => "duration("@ + unit_text(u) + ")"@,
        RelayType::List(inner) => "list["@ + type_text(*inner) + "]"@,
        RelayType::LargeList(inner) => "large_list["@ + type_text(*inner) + "]"@,
        RelayType::FixedSizeList(inner, n) => "fixed_list["@ + type_text(*inner) + ", "@
            + int_text(n as int) + "]"@,
        RelayType::Struct(fields) => "struct<"@ + fields_text(fields@) + ">"@,
        RelayType::Null => "null"@,
        _ => debug_text(t),
    }
}

/// Display of struct fields as `name: type` separated by ", ".
pub open spec fn fields_text(fs: Seq<(String, RelayType)>) -> Seq<char>
    decreases fs,
{
    if fs.len() == 0 {
        Seq::empty()
    } else {
        let last = fs.last();
        let item = last.0@ + ": "@ + type_text(last.1);
        if fs.len() == 1 {
            item
        } else {
            fields_text(fs.drop_last()) + ", "@ + item
        }
    }
}

impl TimeUnit {
    /// Short unit suffix: `s`, `ms`, `us` or `ns`.
    pub fn to_string(&self) -> (r: String)
        ensures
            r@ == unit_text(*self),
    {
        match self {
            TimeUnit::Second => String::from_str("s"),
            TimeUnit::Millisecond => String::from_str("ms"),
            TimeUnit::Microsecond => String::from_str("us"),
            TimeUnit::Nanosecond => String::from_str("ns"),
        }
    }

    fn push_debug(&self, out: &mut String)
        ensures
            final(out)@ == old(out)@ + unit_debug_text(*self),
    {
        match self {
            TimeUnit::Second => out.append("Second"),
            TimeUnit::Millisecond => out.append("Millisecond"),
            TimeUnit::Microsecond => out.append("Microsecond"),
            TimeUnit::Nanosecond => out.append("Nanosecond"),
        }
    }

    /// A copy of this unit.
    pub fn copy(&self) -> (r: TimeUnit)
        ensures
            r == *self,
    {
        match self {
            TimeUnit::Second => TimeUnit::Second,
            TimeUnit::Millisecond => TimeUnit::Millisecond,
            TimeUnit::Microsecond => TimeUnit::Microsecond,
            TimeUnit::Nanosecond => TimeUnit::Nanosecond,
        }
    }
}

impl IntervalUnit {
    /// A copy of this unit.
    pub fn copy(&self) -> (r: IntervalUnit)
        ensures
            r == *self,
    {
        match self {
            IntervalUnit::YearMonth => IntervalUnit::YearMonth,
            IntervalUnit::DayTime => IntervalUnit::DayTime,
            IntervalUnit::MonthDayNano => IntervalUnit::MonthDayNano,
        }
    }
}

fn push_bool(out: &mut String, b: bool)
    ensures
        final(out)@ == old(out)@ + bool_text(b),
{
    if b {
        out.append("true");
    } else {
        out.append("false");
    }
}

impl RelayType {
    /// Returns true if this type is a fixed-width primitive type.
    pub fn is_primitive(&self) -> (r: bool)
        ensures
            r == is_primitive_type(*self),
    {
        matches!(
            self,
            RelayType::Boolean | RelayType::Int8 | RelayType::Int16 | RelayType::Int32
                | RelayType::Int64 | RelayType::UInt8 | RelayType::UInt16 | RelayType::UInt32
                | RelayType::UInt64 | RelayType::Float16 | RelayType::Float32
                | RelayType::Float64 | RelayType::Date32 | RelayType::Date64
        )
    }

    /// Returns true if this type is a variable-length string type.
    pub fn is_string(&self) -> (r: bool)
        ensures
            r == is_string_type(*self),
    {
        matches!(self, RelayType::Utf8 | RelayType::LargeUtf8 | RelayType::Utf8View)
    }

    /// Returns true if this type is a variable-length binary type.
    pub fn is_binary(&self) -> (r: bool)
        ensures
            r == is_binary_type(*self),
    {
        matches!(self, RelayType::Binary | RelayType::LargeBinary | RelayType::BinaryView)
    }

    /// Returns true if this type is a temporal type.
    pub fn is_temporal(&self) -> (r: bool)
        ensures
            r == is_temporal_type(*self),
    {
        matches!(
            self,
            RelayType::Date32 | RelayType::Date64 | RelayType::Time32Second
                | RelayType::Time32Millisecond | RelayType::Time64Microsecond
                | RelayType::Time64Nanosecond | RelayType::Timestamp(_, _)
                | RelayType::Duration(_) | RelayType::Interval(_)
        )
    }

    /// Returns true if this type supports SIMD vectorized operations.
    pub fn is_simd_compatible(&self) -> (r: bool)
        ensures
            r == is_simd_type(*self),
    {
        matches!(
            self,
            RelayType::Int8 | RelayType::Int16 | RelayType::Int32 | RelayType::Int64
                | RelayType::UInt8 | RelayType::UInt16 | RelayType::UInt32 | RelayType::UInt64
                | RelayType::Float16 | RelayType::Float32 | RelayType::Float64
        )
    }

    /// Returns the byte size of fixed-width types, or None for variable-width.
    pub fn byte_size(&self) -> (r: Option<usize>)
        ensures
            r == byte_width(*self),
    {
        match self {
            RelayType::Boolean => Some(1),
            RelayType::Int8 | RelayType::UInt8 => Some(1),
            RelayType::Int16 | RelayType::UInt16 | RelayType::Float16 => Some(2),
            RelayType::Int32 | RelayType::UInt32 | RelayType::Float32 | RelayType::Date32
            | RelayType::Time32Second | RelayType::Time32Millisecond => Some(4),
            RelayType::Int64 | RelayType::UInt64 | RelayType::Float64 | RelayType::Date64
            | RelayType::Time64Microsecond | RelayType::Time64Nanosecond => Some(8),
            RelayType::Timestamp(_, _) | RelayType::Duration(_) => Some(8),
            _ => None,
        }
    }

    /// The display form of this type.
    pub fn to_string(&self) -> (r: String)
        ensures
            r@ == type_text(*self),
    {
        let mut out = String::new();
        self.push_text(&mut out);
        out
    }

    /// Appends the display form of this type.
    pub fn push_text(&self, out: &mut String)
        ensures
            final(out)@ == old(out)@ + type_text(*self),
        decreases *self,
    {
        match self {
            RelayType::Boolean => out.append("bool"),
            RelayType::Int8 => out.append("i8"),
            RelayType::Int16 => out.append("i16"),
            RelayType::Int32 => out.append("i32"),
            RelayType::Int64 => out.append("i64"),
            RelayType::UInt8 => out.append("u8"),
            RelayType::UInt16 => out.append("u16"),
            RelayType::UInt32 => out.append("u32"),
            RelayType::UInt64 => out.append("u64"),
            RelayType::Float16 => out.append("f16"),
            RelayType::Float32 => out.append("f32"),
            RelayType::Float64 => out.append("f64"),
            RelayType::Utf8 => out.append("string"),
            RelayType::LargeUtf8 => out.append("large_string"),
            RelayType::Utf8View => out.append("string_view"),
            RelayType::Binary => out.append("binary"),
            RelayType::LargeBinary => out.append("large_binary"),
            RelayType::BinaryView => out.append("binary_view"),
            RelayType::Date32 => out.append("date32"),
            RelayType::Date64 => out.append("date64"),
            RelayType::Timestamp(u, tz) => {
                out.append("timestamp(");
                let us = u.to_string();
                out.append(us.as_str());
                match tz {
                    None => {},
                    Some(z) => {
                        out.append(", \"");
                        out.append(z.as_str());
                        out.append("\"");
                    },
                }
                out.append(")");
            },
            RelayType::Duration(u) => {
                out.append("duration(");
                let us = u.to_string();
                out.append(us.as_str());
                out.append(")");
            },
            RelayType::List(inner) => {
                out.append("list[");
                inner.push_text(out);
                out.append("]");
            },
            RelayType::LargeList(inner) => {
                out.append("large_list[");
                inner.push_text(out);
                out.append("]");
            },
            RelayType::FixedSizeList(inner, n) => {
                out.append("fixed_list[");
                inner.push_text(out);
                out.append(", ");
                push_i64(out, *n as i64);
                out.append("]");
            },
            RelayType::Struct(fields) => {
                out.append("struct<");
                let mut i: usize = 0;
                let ghost start = out@;
                while i < fields.len()
                    invariant
                        i <= fields@.len(),
                        out@ == start + fields_text(fields@.subrange(0, i as int)),
                        *self == RelayType::Struct(*fields),
                    decreases fields@.len() - i,
                {
                    let ghost before = out@;
                    proof {
                        assert(fields@.subrange(0, i + 1).drop_last() =~= fields@.subrange(0, i as int));
                        assert(fields@.subrange(0, i + 1).last() == fields@[i as int]);
                    }
                    if i > 0 {
                        out.append(", ");
                    }
                    out.append(fields[i].0.as_str());
                    out.append(": ");
                    proof {
                        assert(decreases_to!(*self => self->Struct_0));
                        assert(decreases_to!(fields@ => fields@[i as int]));
                        assert(decreases_to!(fields@[i as int] => fields@[i as int].1));
                        assert(decreases_to!(*self => fields@[i as int].1));
                    }
                    fields[i].1.push_text(out);
                    i += 1;
                }
                assert(fields@.subrange(0, fields@.len() as int) =~= fields@);
                out.append(">");
            },
            RelayType::Null => out.append("null"),
            _ => self.push_debug(out),
        }
    }

    /// Appends the `{:?}` form of this type.
    pub fn push_debug(&self, out: &mut String)
        ensures
            final(out)@ == old(out)@ + debug_text(*self),
        decreases *self,
    {
        match self {
            RelayType::Boolean => out.append("Boolean"),
            RelayType::Int8 => out.append("Int8"),
            RelayType::Int16 => out.append("Int16"),
            RelayType::Int32 => out.append("Int32"),
            RelayType::Int64 => out.append("Int64"),
            RelayType::UInt8 => out.append("UInt8"),
            RelayType::UInt16 => out.append("UInt16"),
            RelayType::UInt32 => out.append("UInt32"),
            RelayType::UInt64 => out.append("UInt64"),
            RelayType::Float16 => out.append("Float16"),
            RelayType::Float32 => out.append("Float32"),
            RelayType::Float64 => out.append("Float64"),
            RelayType::Utf8 => out.append("Utf8"),
            RelayType::LargeUtf8 => out.append("LargeUtf8"),
            RelayType::Utf8View => out.append("Utf8View"),
            RelayType::Binary => out.append("Binary"),
            RelayType::LargeBinary => out.append("LargeBinary"),
            RelayType::BinaryView => out.append("BinaryView"),
            RelayType::Date32 => out.append("Date32"),
            RelayType::Date64 => out.append("Date64"),
            RelayType::Time32Second => out.append("Time32Second"),
            RelayType::Time32Millisecond => out.append("Time32Millisecond"),
            RelayType::Time64Microsecond => out.append("Time64Microsecond"),
            RelayType::Time64Nanosecond => out.append("Time64Nanosecond"),
            RelayType::Timestamp(u, tz) => {
                out.append("Timestamp(");
                u.push_debug(out);
                out.append(", ");
                match tz {
                    None => out.append("None"),
                    Some(z) => {
                        out.append("Some(");
                        let d = str_debug(z.as_str());
                        out.append(d.as_str());
                        out.append(")");
                    },
                }
                out.append(")");
            },
            RelayType::Duration(u) => {
                out.append("Duration(");
                u.push_debug(out);
                out.append(")");
            },
            RelayType::Interval(u) => {
                out.append("Interval(");
                match u {
                    IntervalUnit::YearMonth => out.append("YearMonth"),
                    IntervalUnit::DayTime => out.append("DayTime"),
                    IntervalUnit::MonthDayNano => out.append("MonthDayNano"),
                }
                out.append(")");
            },
            RelayType::List(inner) => {
                out.append("List(");
                inner.push_debug(out);
                out.append(")");
            },
            RelayType::LargeList(inner) => {
                out.append("LargeList(");
                inner.push_debug(out);
                out.append(")");
            },
            RelayType::FixedSizeList(inner, n) => {
                out.append("FixedSizeList(");
                inner.push_debug(out);
                out.append(", ");
                push_i64(out, *n as i64);
                out.append(")");
            },
            RelayType::Struct(fields) => {
                out.append("Struct([");
                let mut i: usize = 0;
                let ghost start = out@;
                while i < fields.len()
                    invariant
                        i <= fields@.len(),
                        out@ == start + fields_debug_text(fields@.subrange(0, i as int)),
                        *self == RelayType::Struct(*fields),
                    decreases fields@.len() - i,
                {
                    proof {
                        assert(fields@.subrange(0, i + 1).drop_last() =~= fields@.subrange(0, i as int));
                        assert(fields@.subrange(0, i + 1).last() == fields@[i as int]);
                    }
                    if i > 0 {
                        out.append(", ");
                    }
                    out.append("(");
                    let d = str_debug(fields[i].0.as_str());
                    out.append(d.as_str());
                    out.append(", ");
                    proof {
                        assert(decreases_to!(*self => self->Struct_0));
                        assert(decreases_to!(fields@ => fields@[i as int]));
                        assert(decreases_to!(fields@[i as int] => fields@[i as int].1));
                        assert(decreases_to!(*self => fields@[i as int].1));
                    }
                    fields[i].1.push_debug(out);
                    out.append(")");
                    i += 1;
                }
                assert(fields@.subrange(0, fields@.len() as int) =~= fields@);
                out.append("])");
            },
            RelayType::MapType(inner, sorted) => {
                out.append("Map(");
                inner.push_debug(out);
                out.append(", ");
                push_bool(out, *sorted);
                out.append(")");
            },
            RelayType::Dictionary(k, v) => {
                out.append("Dictionary(");
                k.push_debug(out);
                out.append(", ");
                v.push_debug(out);
                out.append(")");
            },
            RelayType::Union(members) => {
                out.append("Union([");
                let mut i: usize = 0;
                let ghost start = out@;
                while i < members.len()
                    invariant
                        i <= members@.len(),
                        out@ == start + list_debug_text(members@.subrange(0, i as int)),
                        *self == RelayType::Union(*members),
                    decreases members@.len() - i,
                {
                    proof {
                        assert(members@.subrange(0, i + 1).drop_last() =~= members@.subrange(0, i as int));
                        assert(members@.subrange(0, i + 1).last() == members@[i as int]);
                    }
                    if i > 0 {
                        out.append(", ");
                    }
                    proof {
                        assert(decreases_to!(*self => self->Union_0));
                        assert(decreases_to!(members@ => members@[i as int]));
                        assert(decreases_to!(*self => members@[i as int]));
                    }
                    members[i].push_debug(out);
                    i += 1;
                }
                assert(members@.subrange(0, members@.len() as int) =~= members@);
                out.append("])");
            },
            RelayType::Null => out.append("Null"),
        }
    }

    /// A copy of this type, nested fields and members included.
    pub fn deep_copy(&self) -> (r: RelayType)
        ensures
            same_type(r, *self),
        decreases *self,
    {
        match self {
            RelayType::Timestamp(u, tz) => {
                let z: Option<String> = match tz {
                    None => None,
                    Some(z) => Some(z.clone()),
                };
                assert(z == *tz);
                RelayType::Timestamp(u.copy(), z)
            },
            RelayType::Duration(u) => RelayType::Duration(u.copy()),
            RelayType::Interval(u) => RelayType::Interval(u.copy()),
            RelayType::List(x) => RelayType::List(Box::new(x.deep_copy())),
            RelayType::LargeList(x) => RelayType::LargeList(Box::new(x.deep_copy())),
            RelayType::FixedSizeList(x, n) => RelayType::FixedSizeList(Box::new(x.deep_copy()), *n),
            RelayType::MapType(x, s) => RelayType::MapType(Box::new(x.deep_copy()), *s),
            RelayType::Dictionary(k, v) => RelayType::Dictionary(
                Box::new(k.deep_copy()),
                Box::new(v.deep_copy()),
            ),
            RelayType::Struct(fields) => {
                let mut out: Vec<(String, RelayType)> = Vec::new();
                let mut i: usize = 0;
                while i < fields.len()
                    invariant
                        i <= fields@.len(),
                        out@.len() == i,
                        same_fields(out@, fields@.subrange(0, i as int)),
                        *self == RelayType::Struct(*fields),
                    decreases fields@.len() - i,
                {
                    proof {
                        assert(decreases_to!(*self => self->Struct_0));
                        assert(decreases_to!(fields@ => fields@[i as int]));
                        assert(decreases_to!(fields@[i as int] => fields@[i as int].1));
                        assert(decreases_to!(*self => fields@[i as int].1));
                    }
                    let t = fields[i].1.deep_copy();
                    let ghost prev = out@;
                    out.push((fields[i].0.clone(), t));
                    proof {
                        assert(fields@.subrange(0, i + 1).drop_last() =~= fields@.subrange(0, i as int));
                        assert(out@.drop_last() =~= prev);
                    }
                    i += 1;
                }
                assert(fields@.subrange(0, fields@.len() as int) =~= fields@);
                RelayType::Struct(out)
            },
            RelayType::Union(members) => {
                let mut out: Vec<RelayType> = Vec::new();
                let mut i: usize = 0;
                while i < members.len()
                    invariant
                        i <= members@.len(),
                        out@.len() == i,
                        same_types(out@, members@.subrange(0, i as int)),
                        *self == RelayType::Union(*members),
                    decreases members@.len() - i,
                {
                    proof {
                        assert(decreases_to!(*self => self->Union_0));
                        assert(decreases_to!(members@ => members@[i as int]));
                        assert(decreases_to!(*self => members@[i as int]));
                    }
                    let t = members[i].deep_copy();
                    let ghost prev = out@;
                    out.push(t);
                    proof {
                        assert(members@.subrange(0, i + 1).drop_last() =~= members@.subrange(0, i as int));
                        assert(out@.drop_last() =~= prev);
                    }
                    i += 1;
                }
                assert(members@.subrange(0, members@.len() as int) =~= members@);
                RelayType::Union(out)
            },
            RelayType::Boolean => RelayType::Boolean,
            RelayType::Int8 => RelayType::Int8,
            RelayType::Int16 => RelayType::Int16,
            RelayType::Int32 => RelayType::Int32,
            RelayType::Int64 => RelayType::Int64,
            RelayType::UInt8 => RelayType::UInt8,
            RelayType::UInt16 => RelayType::UInt16,
            RelayType::UInt32 => RelayType::UInt32,
            RelayType::UInt64 => RelayType::UInt64,
            RelayType::Float16 => RelayType::Float16,
            RelayType::Float32 => RelayType::Float32,
            RelayType::Float64 => RelayType::Float64,
            RelayType::Utf8 => RelayType::Utf8,
            RelayType::LargeUtf8 => RelayType::LargeUtf8,
            RelayType::Utf8View => RelayType::Utf8View,
            RelayType::Binary => RelayType::Binary,
            RelayType::LargeBinary => RelayType::LargeBinary,
            RelayType::BinaryView => RelayType::BinaryView,
            RelayType::Date32 => RelayType::Date32,
            RelayType::Date64 => RelayType::Date64,
            RelayType::Time32Second => RelayType::Time32Second,
            RelayType::Time32Millisecond => RelayType::Time32Millisecond,
            RelayType::Time64Microsecond => RelayType::Time64Microsecond,
            RelayType::Time64Nanosecond => RelayType::Time64Nanosecond,
            RelayType::Null => RelayType::Null,
        }
    }
}

impl Clone for RelayType {
    fn clone(&self) -> (r: Self)
        ensures
            same_type(r, *self),
    {
        self.deep_copy()
    }
}

} // verus!
