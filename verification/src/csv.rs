//! CSV structure: reading options, record boundaries, splitting a line into
//! fields and inferring column types from field text.
use vstd::prelude::*;
use vstd::utf8::{decode_utf8, valid_utf8};
use vstd::string::StringSliceAdditionalSpecFns;
use crate::csv_simd::{is_record_end, record_boundaries, record_ends_upto, quotes_upto, NEWLINE};
use crate::json::ValueType;
use crate::text::{ci_word, is_ci_word, nat_text, push_u64, str_eq};

verus! {

/// Configuration for CSV reading.
#[derive(Debug, Clone, Copy, PartialEq, Eq, Structural)]
pub struct CsvReadOptions {
    /// Whether the first row is a header.
    pub has_header: bool,
    /// Field delimiter (default: comma).
    pub delimiter: u8,
    /// Quote character (default: double quote).
    pub quote: u8,
    /// Number of rows to sample for schema inference.
    pub infer_schema_rows: usize,
    /// Target chunk size in bytes for parallel parsing.
    pub chunk_size: usize,
    /// Whether to trim whitespace from fields.
    pub trim: bool,
    /// Use word-at-a-time structural scanning (default: true).
    pub use_simd: bool,
}

impl Default for CsvReadOptions {
    fn default() -> (r: Self)
        ensures
            r == (CsvReadOptions {
                has_header: true,
                delimiter: 0x2c,
                quote: 0x22,
                infer_schema_rows: 1024,
                chunk_size: 4194304,
                trim: true,
                use_simd: true,
            }),
    {
        CsvReadOptions {
            has_header: true,
            delimiter: 0x2c,
            quote: 0x22,
            infer_schema_rows: 1024,
            chunk_size: 4194304,
            trim: true,
            use_simd: true,
        }
    }
}

// ─── Record boundaries ────────────────────────────────────────────

/// Find all record boundaries (line feeds outside quotes, then the end of the
/// data when it does not end with a line feed), one byte at a time.
pub fn find_record_boundaries(data: &[u8], quote: u8) -> (boundaries: Vec<usize>)
    ensures
        boundaries@ == record_boundaries(data@, quote),
{
    let mut boundaries: Vec<usize> = Vec::new();
    let mut in_quotes = false;
    let mut i: usize = 0;
    while i < data.len()
        invariant
            i <= data@.len(),
            in_quotes == (quotes_upto(data@, quote, i as int) % 2 == 1),
            boundaries@ == record_ends_upto(data@, quote, i as int),
        decreases data@.len() - i,
    {
        let byte = data[i];
        if byte == quote {
            in_quotes = !in_quotes;
        } else if byte == NEWLINE && !in_quotes {
            boundaries.push(i);
        }
        assert(record_ends_upto(data@, quote, i + 1) =~= record_ends_upto(data@, quote, i as int) + if is_record_end(data@, quote, i as int) {
            seq![i]
        } else {
            Seq::empty()
        });
        i += 1;
    }
    if data.len() > 0 && data[data.len() - 1] != NEWLINE {
        boundaries.push(data.len());
    }
    boundaries
}

// ─── Splitting a line ─────────────────────────────────────────────

/// The raw fields of a line, from position `i` on: a quote opens or closes
/// quoting (two quotes inside quoting stand for one), an unquoted delimiter
/// ends a field, and a carriage return or line feed ends the line.
pub open spec fn split_from(line: Seq<u8>, delimiter: u8, quote: u8, i: int, in_quotes: bool, cur: Seq<u8>, done: Seq<Seq<u8>>) -> Seq<Seq<u8>>
    decreases line.len() - i,
{
    if i < 0 || i >= line.len() {
        done.push(cur)
    } else {
        let b = line[i];
        if b == quote {
            if in_quotes && i + 1 < line.len() && line[i + 1] == quote {
                split_from(line, delimiter, quote, i + 2, in_quotes, cur.push(quote), done)
            } else {
                split_from(line, delimiter, quote, i + 1, !in_quotes, cur, done)
            }
        } else if b == delimiter && !in_quotes {
            split_from(line, delimiter, quote, i + 1, in_quotes, Seq::empty(), done.push(cur))
        } else if b == 0x0d || b == 0x0a {
            done.push(cur)
        } else {
            split_from(line, delimiter, quote, i + 1, in_quotes, cur.push(b), done)
        }
    }
}

/// The raw bytes of each field of a line.
pub open spec fn csv_fields(line: Seq<u8>, delimiter: u8, quote: u8) -> Seq<Seq<u8>> {
    split_from(line, delimiter, quote, 0, false, Seq::empty(), Seq::empty())
}

/// The text `String::from_utf8_lossy` makes of bytes: their decoding when
/// they are valid UTF-8, with replacement characters otherwise.
pub uninterp spec fn lossy_text(b: Seq<u8>) -> Seq<char>;

/// `String::from_utf8_lossy`, as an owned string.
#[verifier::external_body]
fn utf8_lossy(b: &[u8]) -> (r: String)
    ensures
        r@ == lossy_text(b@),
        valid_utf8(b@) ==> r@ == decode_utf8(b@),
{
    String::from_utf8_lossy(b).into_owned()
}

/// The character has the Unicode `White_Space` property.
pub open spec fn is_white_space(c: char) -> bool {
    let u = c as u32;
    ||| 0x09 <= u <= 0x0d
    ||| u == 0x20 || u == 0x85 || u == 0xa0 || u == 0x1680
    ||| 0x2000 <= u <= 0x200a
    ||| u == 0x2028 || u == 0x2029 || u == 0x202f || u == 0x205f || u == 0x3000
}

/// The text without its leading white space.
pub open spec fn trim_start(s: Seq<char>) -> Seq<char>
    decreases s.len(),
{
    if s.len() > 0 && is_white_space(s[0]) {
        trim_start(s.drop_first())
    } else {
        s
    }
}

/// The text without its trailing white space.
pub open spec fn trim_end(s: Seq<char>) -> Seq<char>
    decreases s.len(),
{
    if s.len() > 0 && is_white_space(s.last()) {
        trim_end(s.drop_last())
    } else {
        s
    }
}

/// The text `str::trim` leaves: leading and trailing white space (in the
/// sense of Unicode's `White_Space` property) removed.
pub open spec fn trimmed(s: Seq<char>) -> Seq<char> {
    trim_end(trim_start(s))
}

/// `str::trim`: the slice without leading and trailing characters of the
/// Unicode `White_Space` property.
#[verifier::external_body]
fn trim_str(s: &str) -> (r: &str)
    ensures
        r@ == trimmed(s@),
{
    s.trim()
}

/// The text of a field: the bytes read as (lossy) UTF-8, trimmed when asked.
pub open spec fn field_text(raw: Seq<u8>, trim: bool) -> Seq<char> {
    if trim {
        trimmed(lossy_text(raw))
    } else {
        lossy_text(raw)
    }
}

fn finish_field(current: &Vec<u8>, trim: bool) -> (r: String)
    ensures
        r@ == field_text(current@, trim),
{
    let field = utf8_lossy(current.as_slice());
    if trim {
        trim_str(field.as_str()).to_string()
    } else {
        field
    }
}

/// Parse a single CSV line into fields, handling quotes: each field's text,
/// trimmed when `trim` is set. Never fails.
pub fn parse_csv_line(line: &[u8], delimiter: u8, quote: u8, trim: bool) -> (r: Result<Vec<String>, crate::error::RelayError>)
    ensures
        r matches Ok(fields) && fields@.len() == csv_fields(line@, delimiter, quote).len() && forall|k: int|
            0 <= k < fields@.len() ==> #[trigger] fields@[k]@ == field_text(csv_fields(line@, delimiter, quote)[k], trim),
{
    let mut fields: Vec<String> = Vec::new();
    let mut current: Vec<u8> = Vec::new();
    let mut in_quotes = false;
    let mut i: usize = 0;
    let ghost mut done: Seq<Seq<u8>> = Seq::empty();
    let mut ended = false;
    while i < line.len() && !ended
        invariant
            i <= line@.len(),
            ended ==> split_from(line@, delimiter, quote, i as int, in_quotes, current@, done) == done.push(current@),
            fields@.len() == done.len(),
            forall|k: int| 0 <= k < done.len() ==> #[trigger] fields@[k]@ == field_text(done[k], trim),
            split_from(line@, delimiter, quote, i as int, in_quotes, current@, done) == csv_fields(line@, delimiter, quote),
        decreases line@.len() - i + if ended { 0int } else { 1int },
    {
        let byte = line[i];
        if byte == quote {
            if in_quotes && i + 1 < line.len() && line[i + 1] == quote {
                current.push(quote);
                i += 2;
            } else {
                in_quotes = !in_quotes;
                i += 1;
            }
        } else if byte == delimiter && !in_quotes {
            let f = finish_field(&current, trim);
            fields.push(f);
            proof {
                done = done.push(current@);
            }
            current = Vec::new();
            i += 1;
        } else if byte == 0x0d || byte == 0x0a {
            ended = true;
        } else {
            current.push(byte);
            i += 1;
        }
    }
    let f = finish_field(&current, trim);
    fields.push(f);
    proof {
        done = done.push(current@);
    }
    Ok(fields)
}

// ─── Type inference ───────────────────────────────────────────────

/// The value `str::parse::<i64>` reads from bytes: an optional `+` or `-`,
/// then one or more ASCII digits, within the 64-bit range.
pub open spec fn parsed_i64(b: Seq<u8>) -> Option<i64> {
    let signed = b.len() > 0 && (b[0] == 0x2b || b[0] == 0x2d);
    let negative = b.len() > 0 && b[0] == 0x2d;
    let digits = if signed {
        b.subrange(1, b.len() as int)
    } else {
        b
    };
    let v = if negative {
        -digits_value(digits)
    } else {
        digits_value(digits)
    };
    if digits.len() > 0 && all_digits(digits) && i64::MIN <= v <= i64::MAX {
        Some(v as i64)
    } else {
        None
    }
}

/// Every byte is an ASCII digit.
pub open spec fn all_digits(b: Seq<u8>) -> bool {
    forall|k: int| 0 <= k < b.len() ==> 0x30 <= #[trigger] b[k] <= 0x39
}

/// The decimal value of a digit string.
pub open spec fn digits_value(b: Seq<u8>) -> int
    decreases b.len(),
{
    if b.len() == 0 {
        0
    } else {
        digits_value(b.drop_last()) * 10 + (b.last() as int - 0x30)
    }
}

proof fn lemma_digits_nonneg(b: Seq<u8>)
    requires
        all_digits(b),
    ensures
        digits_value(b) >= 0,
    decreases b.len(),
{
    if b.len() > 0 {
        assert(all_digits(b.drop_last()));
        lemma_digits_nonneg(b.drop_last());
        assert(0x30 <= b[b.len() - 1] <= 0x39);
    }
}

/// A digit string's value is at least that of any of its prefixes.
proof fn lemma_digits_prefix_le(b: Seq<u8>, i: int)
    requires
        all_digits(b),
        0 <= i <= b.len(),
    ensures
        digits_value(b.subrange(0, i)) <= digits_value(b),
    decreases b.len(),
{
    if i == b.len() {
        assert(b.subrange(0, i) =~= b);
    } else {
        let init = b.drop_last();
        assert(all_digits(init));
        lemma_digits_prefix_le(init, i);
        assert(init.subrange(0, i) =~= b.subrange(0, i));
        lemma_digits_nonneg(init);
        assert(0x30 <= b[b.len() - 1] <= 0x39);
    }
}

/// Reads a 64-bit integer as `str::parse::<i64>` does: an optional sign,
/// then one or more ASCII digits, within range.
fn parse_i64(s: &str) -> (r: Option<i64>)
    ensures
        r == parsed_i64(s.spec_bytes()),
{
    let b = s.as_bytes();
    let ghost bs = s.spec_bytes();
    let n = b.len();
    if n == 0 {
        return None;
    }
    let signed = b[0] == 0x2b || b[0] == 0x2d;
    let negative = b[0] == 0x2d;
    let start: usize = if signed {
        1
    } else {
        0
    };
    let ghost digits = bs.subrange(start as int, n as int);
    proof {
        assert(bs[0] == b[0]);
        if !signed {
            assert(digits =~= bs);
        }
        assert(digits == if signed {
            bs.subrange(1, bs.len() as int)
        } else {
            bs
        });
    }
    if start == n {
        assert(digits.len() == 0);
        assert(parsed_i64(bs) is None);
        return None;
    }
    let mut acc: i64 = 0;
    let mut i: usize = start;
    while i < n
        invariant
            b@ == bs,
            bs == s.spec_bytes(),
            n == bs.len(),
            start <= i <= n,
            digits == bs.subrange(start as int, n as int),
            bs.len() > 0,
            signed == (bs[0] == 0x2b || bs[0] == 0x2d),
            negative == (bs[0] == 0x2d),
            start == (if signed { 1usize } else { 0usize }),
            digits == if signed {
                bs.subrange(1, bs.len() as int)
            } else {
                bs
            },
            all_digits(bs.subrange(start as int, i as int)),
            acc as int == -digits_value(bs.subrange(start as int, i as int)),
        decreases n - i,
    {
        let c = b[i];
        let ghost pre = bs.subrange(start as int, i as int);
        let ghost next = bs.subrange(start as int, i + 1);
        assert(next.drop_last() =~= pre);
        assert(digits[i - start] == c);
        if c < 0x30 || c > 0x39 {
            assert(!all_digits(digits));
            return None;
        }
        proof {
            lemma_digits_nonneg(pre);
        }
        assert(all_digits(next));
        assert(next[next.len() - 1] == c);
        assert(digits_value(next) == digits_value(pre) * 10 + (c as int - 0x30));
        let d = (c - 0x30) as i64;
        let wide = acc as i128 * 10 - d as i128;
        if wide < i64::MIN as i128 {
            proof {
                assert(next =~= digits.subrange(0, (i + 1 - start) as int));
                if all_digits(digits) {
                    lemma_digits_prefix_le(digits, (i + 1 - start) as int);
                }
            }
            return None;
        }
        acc = wide as i64;
        i += 1;
    }
    assert(bs.subrange(start as int, n as int) == digits);
    if negative {
        Some(acc)
    } else if acc == i64::MIN {
        None
    } else {
        Some(-acc)
    }
}

/// The character is the letter, in either case.
pub open spec fn ci(c: char, lower: char, upper: char) -> bool {
    c == lower || c == upper
}

/// The text is `true` or `false` in any mix of letter cases.
pub open spec fn is_bool_text(s: Seq<char>) -> bool {
    ||| s.len() == 4 && ci(s[0], 't', 'T') && ci(s[1], 'r', 'R') && ci(s[2], 'u', 'U') && ci(s[3], 'e', 'E')
    ||| s.len() == 5 && ci(s[0], 'f', 'F') && ci(s[1], 'a', 'A') && ci(s[2], 'l', 'L') && ci(s[3], 's', 'S')
        && ci(s[4], 'e', 'E')
}

/// The type of a field's text: text when empty, else an integer when it
/// parses as one, a float when `is_float` (it parses as a 64-bit float), a
/// boolean when it reads `true` or `false` in any letter case, text otherwise.
pub open spec fn inferred_type(value: Seq<char>, bytes: Seq<u8>, is_float: bool) -> ValueType {
    if value.len() == 0 {
        ValueType::Utf8
    } else if parsed_i64(bytes) is Some {
        ValueType::Int64
    } else if is_float {
        ValueType::Float64
    } else if is_bool_text(value) {
        ValueType::Boolean
    } else {
        ValueType::Utf8
    }
}

fn bool_text(s: &str) -> (r: bool)
    ensures
        r == is_bool_text(s@),
{
    let n = s.unicode_len();
    if n == 4 {
        let (a, b, c, d) = (s.get_char(0), s.get_char(1), s.get_char(2), s.get_char(3));
        (a == 't' || a == 'T') && (b == 'r' || b == 'R') && (c == 'u' || c == 'U') && (d == 'e' || d == 'E')
    } else if n == 5 {
        let (a, b, c, d, e) = (s.get_char(0), s.get_char(1), s.get_char(2), s.get_char(3), s.get_char(4));
        (a == 'f' || a == 'F') && (b == 'a' || b == 'A') && (c == 'l' || c == 'L') && (d == 's' || d == 'S') && (e
            == 'e' || e == 'E')
    } else {
        false
    }
}

/// Infer the type of a single field's text; `is_float` tells whether the
/// text parses as a 64-bit float.
pub fn infer_type(value: &str, is_float: bool) -> (r: ValueType)
    ensures
        r == inferred_type(value@, value.spec_bytes(), is_float),
{
    if value.unicode_len() == 0 {
        return ValueType::Utf8;
    }
    if parse_i64(value).is_some() {
        return ValueType::Int64;
    }
    if is_float {
        return ValueType::Float64;
    }
    if bool_text(value) {
        return ValueType::Boolean;
    }
    ValueType::Utf8
}

/// The type holding values of both (CSV): equal types stay, integers widen
/// to floats, anything else becomes text.
pub open spec fn widen_spec(a: ValueType, b: ValueType) -> ValueType {
    if a == b && (a == ValueType::Int64 || a == ValueType::Float64 || a == ValueType::Boolean) {
        a
    } else if (a == ValueType::Int64 && b == ValueType::Float64) || (a == ValueType::Float64 && b
        == ValueType::Int64) {
        ValueType::Float64
    } else {
        ValueType::Utf8
    }
}

/// Widens two CSV column types.
pub fn widen(a: ValueType, b: ValueType) -> (r: ValueType)
    ensures
        r == widen_spec(a, b),
{
    match (a, b) {
        (ValueType::Int64, ValueType::Int64) => ValueType::Int64,
        (ValueType::Float64, ValueType::Float64) => ValueType::Float64,
        (ValueType::Int64, ValueType::Float64) => ValueType::Float64,
        (ValueType::Float64, ValueType::Int64) => ValueType::Float64,
        (ValueType::Boolean, ValueType::Boolean) => ValueType::Boolean,
        _ => ValueType::Utf8,
    }
}

/// Widening a list of types from the first; text when the list is empty.
pub open spec fn widen_all(ts: Seq<ValueType>) -> ValueType
    decreases ts.len(),
{
    if ts.len() == 0 {
        ValueType::Utf8
    } else if ts.len() == 1 {
        ts[0]
    } else {
        widen_spec(widen_all(ts.drop_last()), ts.last())
    }
}

/// Widens a list of types to the most general one.
pub fn widen_types(types: &[ValueType]) -> (r: ValueType)
    ensures
        r == widen_all(types@),
{
    let mut result: Option<ValueType> = None;
    let mut i: usize = 0;
    while i < types.len()
        invariant
            i <= types@.len(),
            i == 0 ==> result is None,
            i > 0 ==> result == Some(widen_all(types@.subrange(0, i as int))),
        decreases types@.len() - i,
    {
        proof {
            assert(types@.subrange(0, i + 1).drop_last() =~= types@.subrange(0, i as int));
        }
        result = Some(match result {
            None => types[i],
            Some(prev) => widen(prev, types[i]),
        });
        i += 1;
    }
    assert(types@.subrange(0, types@.len() as int) =~= types@);
    match result {
        Some(t) => t,
        None => ValueType::Utf8,
    }
}

// ─── Cell values ──────────────────────────────────────────────────

/// The boolean a cell of a boolean column holds: `true`, `yes` or `1`, and
/// `false`, `no` or `0`, the words in any letter case; nothing otherwise.
pub open spec fn bool_cell_value(s: Seq<char>) -> Option<bool> {
    if s == "1"@ || ci_word(s, "true"@) || ci_word(s, "yes"@) {
        Some(true)
    } else if s == "0"@ || ci_word(s, "false"@) || ci_word(s, "no"@) {
        Some(false)
    } else {
        None
    }
}

/// Reads a cell of a boolean column.
pub fn bool_cell(value: &str) -> (r: Option<bool>)
    ensures
        r == bool_cell_value(value@),
{
    proof {
        reveal_strlit("true");
        reveal_strlit("yes");
        reveal_strlit("false");
        reveal_strlit("no");
        reveal_strlit("1");
        reveal_strlit("0");
    }
    if str_eq(value, "1") || is_ci_word(value, "true") || is_ci_word(value, "yes") {
        Some(true)
    } else if str_eq(value, "0") || is_ci_word(value, "false") || is_ci_word(value, "no") {
        Some(false)
    } else {
        None
    }
}

/// Reads a cell of an integer column: the integer it spells, if any.
pub fn int_cell(value: &str) -> (r: Option<i64>)
    ensures
        r == parsed_i64(value.spec_bytes()),
{
    parse_i64(value)
}

/// Widening two types does not depend on their order.
pub proof fn lemma_widen_commutes(a: ValueType, b: ValueType)
    ensures
        widen_spec(a, b) == widen_spec(b, a),
{
}

/// Widening is associative, so a column's type does not depend on how its
/// sampled types are grouped.
pub proof fn lemma_widen_associates(a: ValueType, b: ValueType, c: ValueType)
    ensures
        widen_spec(widen_spec(a, b), c) == widen_spec(a, widen_spec(b, c)),
{
}

// ─── Records of a file ────────────────────────────────────────────

/// The byte range of record `row`: from just after the previous record's end
/// (or the start of the data) to its own end.
pub open spec fn record_span_of(offsets: Seq<usize>, row: int) -> (int, int) {
    (if row == 0 {
        0
    } else {
        offsets[row - 1] + 1
    }, offsets[row] as int)
}

/// The byte range of record `row` given the records' end offsets.
pub fn record_span(offsets: &[usize], row: usize) -> (r: (usize, usize))
    requires
        row < offsets@.len(),
        row > 0 ==> offsets@[row - 1] < usize::MAX,
    ensures
        r.0 == record_span_of(offsets@, row as int).0,
        r.1 == record_span_of(offsets@, row as int).1,
{
    let start = if row == 0 {
        0
    } else {
        offsets[row - 1] + 1
    };
    (start, offsets[row])
}

/// The names a header-less file's columns get: `col0`, `col1`, and so on.
pub open spec fn generated_names(n: nat) -> Seq<Seq<char>> {
    Seq::new(n, |i: int| "col"@ + nat_text(i as nat))
}

/// Names for `n` columns of a file without a header row.
pub fn column_names_for(n: usize) -> (r: Vec<String>)
    ensures
        r@.len() == n,
        forall|i: int| 0 <= i < n ==> r@[i]@ == generated_names(n as nat)[i],
{
    let mut out: Vec<String> = Vec::new();
    let mut i: usize = 0;
    while i < n
        invariant
            i <= n,
            out@.len() == i,
            forall|j: int| 0 <= j < i ==> out@[j]@ == generated_names(n as nat)[j],
        decreases n - i,
    {
        let mut name = String::from_str("col");
        push_u64(&mut name, i as u64);
        out.push(name);
        i += 1;
    }
    out
}

// ─── Columns of sampled rows ──────────────────────────────────────

/// The inferred types of the non-empty values of column `c` among the first
/// `n` sampled rows; `floats` tells, per field, whether its text reads as a
/// 64-bit float.
pub open spec fn column_hints(rows: Seq<Vec<String>>, floats: Seq<Vec<bool>>, c: int, n: int) -> Seq<ValueType>
    decreases n,
{
    if n <= 0 {
        Seq::empty()
    } else {
        column_hints(rows, floats, c, n - 1) + if c < rows[n - 1]@.len() && rows[n - 1]@[c]@.len() > 0 {
            seq![inferred_type(rows[n - 1]@[c]@, vstd::utf8::encode_utf8(rows[n - 1]@[c]@), floats[n - 1]@[c])]
        } else {
            Seq::empty()
        }
    }
}

/// The type of each of `num_cols` columns over sampled rows: the widening
/// of the types of its non-empty values (text when it has none). Fields
/// past `num_cols` are ignored.
pub fn column_types(rows: &Vec<Vec<String>>, floats: &Vec<Vec<bool>>, num_cols: usize) -> (r: Vec<ValueType>)
    requires
        rows@.len() == floats@.len(),
        forall|i: int| 0 <= i < rows@.len() ==> (#[trigger] rows@[i])@.len() == floats@[i]@.len(),
    ensures
        r@.len() == num_cols,
        forall|c: int| 0 <= c < num_cols ==> r@[c] == widen_all(column_hints(rows@, floats@, c, rows@.len() as int)),
{
    let mut out: Vec<ValueType> = Vec::new();
    let mut c: usize = 0;
    while c < num_cols
        invariant
            rows@.len() == floats@.len(),
            forall|i: int| 0 <= i < rows@.len() ==> (#[trigger] rows@[i])@.len() == floats@[i]@.len(),
            c <= num_cols,
            out@.len() == c,
            forall|q: int| 0 <= q < c ==> out@[q] == widen_all(column_hints(rows@, floats@, q, rows@.len() as int)),
        decreases num_cols - c,
    {
        let mut acc: Option<ValueType> = None;
        let mut i: usize = 0;
        while i < rows.len()
            invariant
                rows@.len() == floats@.len(),
                forall|k: int| 0 <= k < rows@.len() ==> (#[trigger] rows@[k])@.len() == floats@[k]@.len(),
                i <= rows@.len(),
                c < num_cols,
                acc is None ==> column_hints(rows@, floats@, c as int, i as int).len() == 0,
                acc matches Some(t) ==> column_hints(rows@, floats@, c as int, i as int).len() > 0 && t == widen_all(
                    column_hints(rows@, floats@, c as int, i as int),
                ),
            decreases rows@.len() - i,
        {
            let ghost prev = column_hints(rows@, floats@, c as int, i as int);
            if c < rows[i].len() && rows[i][c].unicode_len() > 0 {
                let t = infer_type(rows[i][c].as_str(), floats[i][c]);
                proof {
                    let next = column_hints(rows@, floats@, c as int, i + 1);
                    assert(next == prev.push(t));
                    assert(next.drop_last() =~= prev);
                }
                acc = Some(match acc {
                    None => t,
                    Some(a) => widen(a, t),
                });
            } else {
                proof {
                    assert(column_hints(rows@, floats@, c as int, i + 1) =~= prev);
                }
            }
            i += 1;
        }
        out.push(match acc {
            Some(t) => t,
            None => ValueType::Utf8,
        });
        c += 1;
    }
    out
}

} // verus!
