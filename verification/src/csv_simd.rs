//! Word-at-a-time CSV structural scanning.
//!
//! Eight bytes are loaded into one `u64` (byte `k` in bits `8k..8k+8`), and
//! equality with a target byte is found for all eight lanes at once. Quote
//! parity then tells which structural characters lie inside quoted fields.
use vstd::prelude::*;

verus! {

// ─── Lanes of a word ──────────────────────────────────────────────

/// Byte lane `k` (0..8) of a word.
pub open spec fn lane(w: u64, k: u64) -> u64 {
    (w >> (8 * k)) & 0xff
}

/// The high bit of byte lane `k` of a word.
pub open spec fn lane_flag(w: u64, k: u64) -> bool {
    (w >> (8 * k + 7)) & 1 == 1
}

/// High-bit mask for each byte lane: 0x80 in every byte position.
pub const HI: u64 = 0x8080_8080_8080_8080u64;

/// Low-bit mask for each byte lane: 0x01 in every byte position.
pub const LO: u64 = 0x0101_0101_0101_0101u64;

/// The seven low bits of each byte lane.
pub const LOW7: u64 = 0x7f7f_7f7f_7f7f_7f7fu64;

/// Broadcast a single byte to fill a u64 word.
pub fn broadcast(b: u8) -> (r: u64)
    ensures
        r == LO * (b as u64),
        forall|k: u64| k < 8 ==> lane(r, k) == b,
{
    let r = LO * (b as u64);
    assert(forall|k: u64| k < 8 ==> lane(r, k) == b) by (bit_vector)
        requires
            r == 0x0101_0101_0101_0101u64 * (b as u64),
    ;
    r
}

/// A word whose lane `k` is flagged exactly when lane `k` of `x` is zero, and
/// which has no other bit set.
fn zero_lanes(x: u64) -> (r: u64)
    ensures
        forall|k: u64| k < 8 ==> (lane_flag(r, k) <==> lane(x, k) == 0),
        r & !HI == 0,
{
    assert((x & LOW7) + LOW7 <= u64::MAX) by (bit_vector);
    let y = (x & LOW7) + LOW7;
    let r = !(y | x | LOW7);
    assert(forall|k: u64| k < 8 ==> (lane_flag(r, k) <==> lane(x, k) == 0)) by (bit_vector)
        requires
            y == (x & 0x7f7f_7f7f_7f7f_7f7fu64) + 0x7f7f_7f7f_7f7f_7f7fu64,
            r == !(y | x | 0x7f7f_7f7f_7f7f_7f7fu64),
    ;
    assert(r & !HI == 0) by (bit_vector)
        requires
            r == !(y | x | 0x7f7f_7f7f_7f7f_7f7fu64),
    ;
    r
}

/// Detect bytes equal to `target` in a word: the high bit of each byte lane is
/// set exactly when that byte equals `target`.
pub fn eq_bytes(word: u64, target: u8) -> (r: u64)
    ensures
        forall|k: u64| k < 8 ==> (lane_flag(r, k) <==> lane(word, k) == target),
        r & !HI == 0,
{
    let b = broadcast(target);
    let x = word ^ b;
    assert(forall|k: u64| k < 8 ==> (lane(x, k) == 0 <==> lane(word, k) == lane(b, k)))
        by (bit_vector)
        requires
            x == word ^ b,
    ;
    zero_lanes(x)
}

/// Bit `k` of a byte is set.
pub open spec fn bit_set(b: u8, k: u8) -> bool {
    (b >> k) & 1 == 1
}

/// Compress the lane high bits into one byte: bit `k` is lane `k`'s flag.
pub fn compress_hi(mask: u64) -> (r: u8)
    ensures
        forall|k: u8| k < 8 ==> (bit_set(r, k) <==> lane_flag(mask, k as u64)),
{
    let mut result: u8 = 0;
    let mut i: u8 = 0;
    assert(forall|k: u8| k < 8 ==> (0u8 >> k) & 1 == 0) by (bit_vector);
    while i < 8
        invariant
            i <= 8,
            forall|k: u8| k < i ==> (bit_set(result, k) <==> lane_flag(mask, k as u64)),
            forall|k: u8| i <= k < 8 ==> (result >> k) & 1 == 0,
        decreases 8 - i,
    {
        let bit: u8 = if (mask >> (i as u64 * 8 + 7)) & 1 == 1 {
            1
        } else {
            0
        };
        let old_result = result;
        assert((old_result >> i) & 1 == 0);
        result = result | (bit << i);
        assert(forall|k: u8|
            k < 8 ==> ((result >> k) & 1) == (if k == i {
                bit
            } else {
                (old_result >> k) & 1
            })) by (bit_vector)
            requires
                result == old_result | (bit << i),
                bit <= 1,
                i < 8,
                (old_result >> i) & 1 == 0,
        ;
        assert(lane_flag(mask, i as u64) == (bit == 1)) by {
            assert((i as u64 * 8 + 7) as int == 8 * (i as u64) + 7);
        }
        assert forall|k: u8| k < i + 1 implies (bit_set(result, k) <==> lane_flag(
            mask,
            k as u64,
        )) by {
            if k != i {
                assert(bit_set(old_result, k) <==> lane_flag(mask, k as u64));
            }
        }
        assert forall|k: u8| i + 1 <= k < 8 implies (result >> k) & 1 == 0 by {
            assert((old_result >> k) & 1 == 0);
        }
        i += 1;
    }
    result
}

proof fn lemma_bit_test(b: u8, k: u8)
    requires
        k < 8,
    ensures
        (b & (1u8 << k) != 0) == bit_set(b, k),
{
    assert((b & (1u8 << k) != 0) == ((b >> k) & 1 == 1)) by (bit_vector)
        requires
            k < 8,
    ;
}

/// Loads `data[i..i + 8]` into one word, byte `k` in lane `k`.
fn load_word(data: &[u8], i: usize) -> (w: u64)
    requires
        i + 8 <= data@.len(),
    ensures
        forall|k: u64| k < 8 ==> lane(w, k) == data@[i + k],
{
    let b0 = data[i] as u64;
    let b1 = data[i + 1] as u64;
    let b2 = data[i + 2] as u64;
    let b3 = data[i + 3] as u64;
    let b4 = data[i + 4] as u64;
    let b5 = data[i + 5] as u64;
    let b6 = data[i + 6] as u64;
    let b7 = data[i + 7] as u64;
    let w = b0 | (b1 << 8) | (b2 << 16) | (b3 << 24) | (b4 << 32) | (b5 << 40) | (b6 << 48) | (b7
        << 56);
    assert({
        &&& lane(w, 0) == b0
        &&& lane(w, 1) == b1
        &&& lane(w, 2) == b2
        &&& lane(w, 3) == b3
        &&& lane(w, 4) == b4
        &&& lane(w, 5) == b5
        &&& lane(w, 6) == b6
        &&& lane(w, 7) == b7
    }) by (bit_vector)
        requires
            b0 < 256 && b1 < 256 && b2 < 256 && b3 < 256 && b4 < 256 && b5 < 256 && b6 < 256 && b7
                < 256,
            w == b0 | (b1 << 8) | (b2 << 16) | (b3 << 24) | (b4 << 32) | (b5 << 40) | (b6 << 48) | (
            b7 << 56),
    ;
    assert forall|k: u64| k < 8 implies lane(w, k) == data@[i + k] by {
        if k == 0 {
        } else if k == 1 {
        } else if k == 2 {
        } else if k == 3 {
        } else if k == 4 {
        } else if k == 5 {
        } else if k == 6 {
        } else {
        }
    }
    w
}

// ─── Byte positions ───────────────────────────────────────────────

/// The line-feed byte.
pub const NEWLINE: u8 = 0x0a;

/// Positions `p < n` with `data[p] == t`, in increasing order.
pub open spec fn positions_upto(data: Seq<u8>, t: u8, n: int) -> Seq<usize>
    decreases n,
{
    if n <= 0 {
        Seq::empty()
    } else {
        positions_upto(data, t, n - 1) + if data[n - 1] == t {
            seq![(n - 1) as usize]
        } else {
            Seq::empty()
        }
    }
}

/// All positions of `t` in `data`, in increasing order.
pub open spec fn byte_positions(data: Seq<u8>, t: u8) -> Seq<usize> {
    positions_upto(data, t, data.len() as int)
}

proof fn lemma_positions_skip(data: Seq<u8>, t: u8, i: int, j: int)
    requires
        0 <= i <= j <= data.len(),
        forall|p: int| i <= p < j ==> data[p] != t,
    ensures
        positions_upto(data, t, j) == positions_upto(data, t, i),
    decreases j - i,
{
    if j > i {
        lemma_positions_skip(data, t, i, j - 1);
        assert(positions_upto(data, t, j) =~= positions_upto(data, t, j - 1));
    }
}

proof fn lemma_positions_member(data: Seq<u8>, t: u8, n: int, p: int)
    requires
        0 <= n <= data.len(),
        n < usize::MAX,
    ensures
        positions_upto(data, t, n).contains(p as usize) && 0 <= p <= usize::MAX <==> (0 <= p < n
            && data[p] == t),
    decreases n,
{
    if n > 0 {
        lemma_positions_member(data, t, n - 1, p);
        let prev = positions_upto(data, t, n - 1);
        let tail: Seq<usize> = if data[n - 1] == t {
            seq![(n - 1) as usize]
        } else {
            Seq::empty()
        };
        assert(positions_upto(data, t, n) == prev + tail);
        if 0 <= p <= usize::MAX && (prev + tail).contains(p as usize) {
            let k = choose|k: int| 0 <= k < (prev + tail).len() && (prev + tail)[k] == p as usize;
            if k < prev.len() {
                assert(prev[k] == (prev + tail)[k]);
            }
        }
        if 0 <= p < n && data[p] == t {
            if p < n - 1 {
                let k = choose|k: int| 0 <= k < prev.len() && prev[k] == p as usize;
                assert((prev + tail)[k] == prev[k]);
            } else {
                assert((prev + tail)[prev.len() as int] == tail[0]);
            }
        }
    }
}

/// Find all positions of a target byte within a data slice, in increasing order.
pub fn find_byte_positions(data: &[u8], target: u8) -> (positions: Vec<usize>)
    ensures
        positions@ == byte_positions(data@, target),
{
    let mut positions: Vec<usize> = Vec::with_capacity(data.len() / 16);
    let mut i: usize = 0;
    while data.len() - i >= 8
        invariant
            i <= data@.len(),
            positions@ == positions_upto(data@, target, i as int),
        decreases data@.len() - i,
    {
        let word = load_word(data, i);
        let mask = eq_bytes(word, target);
        if mask != 0 {
            let bits = compress_hi(mask);
            let mut bit: u8 = 0;
            while bit < 8
                invariant
                    bit <= 8,
                    i + 8 <= data@.len(),
                    data@.len() == data.len(),
                    positions@ == positions_upto(data@, target, i + bit),
                    forall|k: u8| k < 8 ==> (bit_set(bits, k) <==> data@[i + k] == target),
                decreases 8 - bit,
            {
                proof {
                    lemma_bit_test(bits, bit);
                }
                if bits & (1u8 << bit) != 0 {
                    positions.push(i + bit as usize);
                }
                bit += 1;
            }
        } else {
            proof {
                assert(forall|k: u64| k < 8 ==> !lane_flag(0u64, k)) by (bit_vector);
                assert forall|p: int| i <= p < i + 8 implies data@[p] != target by {
                    assert(lane(word, (p - i) as u64) == data@[p]);
                }
                lemma_positions_skip(data@, target, i as int, i + 8);
            }
        }
        i += 8;
    }
    while i < data.len()
        invariant
            i <= data@.len(),
            positions@ == positions_upto(data@, target, i as int),
        decreases data@.len() - i,
    {
        if data[i] == target {
            positions.push(i);
        }
        i += 1;
    }
    positions
}

// ─── Record boundaries ────────────────────────────────────────────

/// Number of quote bytes among the first `n` bytes.
pub open spec fn quotes_upto(data: Seq<u8>, quote: u8, n: int) -> nat
    decreases n,
{
    if n <= 0 {
        0
    } else {
        quotes_upto(data, quote, n - 1) + if data[n - 1] == quote {
            1nat
        } else {
            0nat
        }
    }
}

/// Position `p` is a line feed outside quotes: not itself the quote byte, and
/// preceded by an even number of quotes.
pub open spec fn is_record_end(data: Seq<u8>, quote: u8, p: int) -> bool {
    data[p] == NEWLINE && data[p] != quote && quotes_upto(data, quote, p) % 2 == 0
}

/// Unquoted line feeds among the first `n` bytes, in increasing order.
pub open spec fn record_ends_upto(data: Seq<u8>, quote: u8, n: int) -> Seq<usize>
    decreases n,
{
    if n <= 0 {
        Seq::empty()
    } else {
        record_ends_upto(data, quote, n - 1) + if is_record_end(data, quote, n - 1) {
            seq![(n - 1) as usize]
        } else {
            Seq::empty()
        }
    }
}

/// Record boundaries: every unquoted line feed, then the end of the data when
/// it does not end with a line feed.
pub open spec fn record_boundaries(data: Seq<u8>, quote: u8) -> Seq<usize> {
    record_ends_upto(data, quote, data.len() as int) + if data.len() > 0 && data.last()
        != NEWLINE {
        seq![data.len() as usize]
    } else {
        Seq::empty()
    }
}

proof fn lemma_boundaries_skip(data: Seq<u8>, quote: u8, i: int, j: int)
    requires
        0 <= i <= j <= data.len(),
        forall|p: int| i <= p < j ==> data[p] != quote && data[p] != NEWLINE,
    ensures
        record_ends_upto(data, quote, j) == record_ends_upto(data, quote, i),
        quotes_upto(data, quote, j) == quotes_upto(data, quote, i),
    decreases j - i,
{
    if j > i {
        lemma_boundaries_skip(data, quote, i, j - 1);
        assert(record_ends_upto(data, quote, j) =~= record_ends_upto(data, quote, j - 1));
    }
}

/// One byte of the scan: toggles the quote state on a quote and records an
/// unquoted line feed.
fn scan_byte(data: &[u8], p: usize, quote: u8, in_quotes: &mut bool, boundaries: &mut Vec<usize>)
    requires
        p < data@.len(),
        *old(in_quotes) == (quotes_upto(data@, quote, p as int) % 2 == 1),
        old(boundaries)@ == record_ends_upto(data@, quote, p as int),
    ensures
        *final(in_quotes) == (quotes_upto(data@, quote, p + 1) % 2 == 1),
        final(boundaries)@ == record_ends_upto(data@, quote, p + 1),
{
    let byte = data[p];
    if byte == quote {
        *in_quotes = !*in_quotes;
    } else if byte == NEWLINE && !*in_quotes {
        boundaries.push(p);
    }
    assert(record_ends_upto(data@, quote, p + 1) =~= record_ends_upto(data@, quote, p as int) + if is_record_end(data@, quote, p as int) {
        seq![p]
    } else {
        Seq::empty()
    });
}

/// Find record boundaries: line feeds outside quotes, plus the end of the data
/// when it does not end with a line feed. Eight bytes are examined at a time.
pub fn find_record_boundaries_simd(data: &[u8], quote: u8) -> (boundaries: Vec<usize>)
    ensures
        boundaries@ == record_boundaries(data@, quote),
{
    let mut boundaries: Vec<usize> = Vec::with_capacity(data.len() / 32);
    let mut in_quotes = false;
    let mut i: usize = 0;
    while data.len() - i >= 8
        invariant
            i <= data@.len(),
            in_quotes == (quotes_upto(data@, quote, i as int) % 2 == 1),
            boundaries@ == record_ends_upto(data@, quote, i as int),
        decreases data@.len() - i,
    {
        let word = load_word(data, i);
        let quote_mask = eq_bytes(word, quote);
        let newline_mask = eq_bytes(word, NEWLINE);
        proof {
            assert(forall|k: u64| k < 8 ==> !lane_flag(0u64, k)) by (bit_vector);
            assert forall|k: u64| k < 8 implies lane(word, k) == data@[i + k] by {}
        }
        if quote_mask == 0 && newline_mask == 0 {
            proof {
                assert forall|p: int| i <= p < i + 8 implies data@[p] != quote && data@[p]
                    != NEWLINE by {
                    assert(lane(word, (p - i) as u64) == data@[p]);
                }
                lemma_boundaries_skip(data@, quote, i as int, i + 8);
            }
        } else if newline_mask == 0 {
            proof {
                assert forall|p: int| i <= p < i + 8 implies data@[p] != NEWLINE by {
                    assert(lane(word, (p - i) as u64) == data@[p]);
                }
            }
            let bits = compress_hi(quote_mask);
            let mut b: u8 = 0;
            while b < 8
                invariant
                    b <= 8,
                    i + 8 <= data@.len(),
                    in_quotes == (quotes_upto(data@, quote, i + b) % 2 == 1),
                    boundaries@ == record_ends_upto(data@, quote, i as int),
                    boundaries@ == record_ends_upto(data@, quote, i + b),
                    forall|k: u8| k < 8 ==> (bit_set(bits, k) <==> data@[i + k] == quote),
                    forall|p: int| i <= p < i + 8 ==> data@[p] != NEWLINE,
                decreases 8 - b,
            {
                proof {
                    lemma_bit_test(bits, b);
                    assert(record_ends_upto(data@, quote, i + b + 1) =~= record_ends_upto(
                        data@,
                        quote,
                        i + b,
                    ));
                }
                if bits & (1u8 << b) != 0 {
                    in_quotes = !in_quotes;
                }
                b += 1;
            }
        } else {
            let mut j: usize = 0;
            while j < 8
                invariant
                    j <= 8,
                    i + 8 <= data@.len(),
                    data@.len() == data.len(),
                    in_quotes == (quotes_upto(data@, quote, i + j) % 2 == 1),
                    boundaries@ == record_ends_upto(data@, quote, i + j),
                decreases 8 - j,
            {
                scan_byte(data, i + j, quote, &mut in_quotes, &mut boundaries);
                j += 1;
            }
        }
        i += 8;
    }
    while i < data.len()
        invariant
            i <= data@.len(),
            in_quotes == (quotes_upto(data@, quote, i as int) % 2 == 1),
            boundaries@ == record_ends_upto(data@, quote, i as int),
        decreases data@.len() - i,
    {
        scan_byte(data, i, quote, &mut in_quotes, &mut boundaries);
        i += 1;
    }
    if data.len() > 0 && data[data.len() - 1] != NEWLINE {
        boundaries.push(data.len());
    }
    boundaries
}

// ─── Quote parity ─────────────────────────────────────────────────

/// Position `p` occurs in the list.
pub open spec fn is_mark(qs: Seq<usize>, p: int) -> bool {
    exists|k: int| 0 <= k < qs.len() && qs[k] as int == p
}

/// Number of distinct listed positions below `n`.
pub open spec fn marks_before(qs: Seq<usize>, n: int) -> nat
    decreases n,
{
    if n <= 0 {
        0
    } else {
        marks_before(qs, n - 1) + if is_mark(qs, n - 1) {
            1nat
        } else {
            0nat
        }
    }
}

/// Position `p` occurs among the first `k` entries of the list.
pub open spec fn marked_among(qs: Seq<usize>, k: int, p: int) -> bool {
    exists|k2: int| 0 <= k2 < k && qs[k2] as int == p
}

proof fn lemma_marks_bound(qs: Seq<usize>, n: int)
    requires
        n >= 0,
    ensures
        marks_before(qs, n) <= n,
    decreases n,
{
    if n > 0 {
        lemma_marks_bound(qs, n - 1);
    }
}

/// Number of entries of the list below `p`, repeats counted.
pub open spec fn listed_below(qs: Seq<usize>, p: int) -> nat
    decreases qs.len(),
{
    if qs.len() == 0 {
        0
    } else {
        listed_below(qs.drop_last(), p) + if (qs.last() as int) < p {
            1nat
        } else {
            0nat
        }
    }
}

/// The positions are listed in strictly increasing order.
pub open spec fn strictly_increasing(qs: Seq<usize>) -> bool {
    forall|i: int, j: int| 0 <= i < j < qs.len() ==> qs[i] < qs[j]
}

proof fn lemma_listed_step(qs: Seq<usize>, p: int)
    requires
        strictly_increasing(qs),
    ensures
        listed_below(qs, p + 1) == listed_below(qs, p) + if is_mark(qs, p) {
            1nat
        } else {
            0nat
        },
    decreases qs.len(),
{
    if qs.len() > 0 {
        let init = qs.drop_last();
        assert(strictly_increasing(init));
        lemma_listed_step(init, p);
        if is_mark(init, p) {
            let k = choose|k: int| 0 <= k < init.len() && init[k] as int == p;
            assert(qs[k] < qs[qs.len() - 1]);
            assert(is_mark(qs, p));
        }
        if is_mark(qs, p) {
            let k = choose|k: int| 0 <= k < qs.len() && qs[k] as int == p;
            if k < qs.len() - 1 {
                assert(init[k] as int == p);
            }
        }
        if (qs.last() as int) == p {
            assert(qs[qs.len() - 1] as int == p);
        }
    }
}

/// For positions listed in strictly increasing order, the count of marks
/// below `p` is the number of listed positions below `p`.
pub proof fn lemma_marks_count_listed(qs: Seq<usize>, p: int)
    requires
        strictly_increasing(qs),
        p >= 0,
    ensures
        marks_before(qs, p) == listed_below(qs, p),
    decreases p,
{
    if p == 0 {
        lemma_listed_zero(qs);
    } else {
        lemma_marks_count_listed(qs, p - 1);
        lemma_listed_step(qs, p - 1);
    }
}

proof fn lemma_listed_zero(qs: Seq<usize>)
    ensures
        listed_below(qs, 0) == 0,
    decreases qs.len(),
{
    if qs.len() > 0 {
        lemma_listed_zero(qs.drop_last());
    }
}

/// Quote parity by prefix counts: `count_at(i)` is the number of quote
/// positions below `i`, and position `i` is inside quotes when it is odd.
pub struct QuoteParity {
    prefix_counts: Vec<usize>,
}

impl QuoteParity {
    #[verifier::type_invariant]
    spec fn wf(self) -> bool {
        self.prefix_counts@.len() >= 1
    }

    /// The data length the counts cover.
    pub closed spec fn total(self) -> nat {
        (self.prefix_counts@.len() - 1) as nat
    }

    /// Number of quote positions below `pos`.
    pub closed spec fn count_at(self, pos: int) -> nat {
        self.prefix_counts@[pos] as nat
    }

    /// Build prefix quote counts from quote positions; positions at or past
    /// `total_len` are ignored, and a position listed twice counts once.
    pub fn new(quote_positions: &[usize], total_len: usize) -> (r: Self)
        requires
            total_len < usize::MAX,
        ensures
            r.total() == total_len,
            forall|pos: int| 0 <= pos <= total_len ==> r.count_at(pos) == marks_before(quote_positions@, pos),
    {
        let ghost qs = quote_positions@;
        let n = total_len + 1;
        let mut prefix_counts: Vec<usize> = Vec::with_capacity(n);
        while prefix_counts.len() < n
            invariant
                prefix_counts@.len() <= n,
                forall|p: int| 0 <= p < prefix_counts@.len() ==> prefix_counts@[p] == 0,
            decreases n - prefix_counts@.len(),
        {
            prefix_counts.push(0);
        }
        let mut k: usize = 0;
        while k < quote_positions.len()
            invariant
                n == total_len + 1,
                prefix_counts@.len() == n,
                qs == quote_positions@,
                k <= qs.len(),
                prefix_counts@[0] == 0,
                forall|q: int|
                    1 <= q <= total_len ==> prefix_counts@[q] == if marked_among(qs, k as int, q - 1) {
                        1usize
                    } else {
                        0usize
                    },
            decreases qs.len() - k,
        {
            let pos = quote_positions[k];
            if pos < total_len {
                prefix_counts.set(pos + 1, 1);
            }
            proof {
                assert forall|q: int| 1 <= q <= total_len implies prefix_counts@[q] == if marked_among(
                    qs,
                    k + 1,
                    q - 1,
                ) {
                    1usize
                } else {
                    0usize
                } by {
                    if q - 1 == pos as int {
                        assert(qs[k as int] as int == q - 1);
                    } else if marked_among(qs, k + 1, q - 1) {
                        let k2 = choose|k2: int| 0 <= k2 < k + 1 && qs[k2] as int == q - 1;
                        assert(k2 < k);
                    }
                }
            }
            k += 1;
        }
        let mut i: usize = 1;
        while i < n
            invariant
                n == total_len + 1,
                total_len < usize::MAX,
                prefix_counts@.len() == n,
                1 <= i <= n,
                forall|p: int| 0 <= p < i ==> prefix_counts@[p] == marks_before(qs, p),
                forall|p: int|
                    i <= p < n ==> prefix_counts@[p] == if is_mark(qs, p - 1) {
                        1usize
                    } else {
                        0usize
                    },
            decreases n - i,
        {
            proof {
                lemma_marks_bound(qs, i - 1);
            }
            let v = prefix_counts[i] + prefix_counts[i - 1];
            prefix_counts.set(i, v);
            i += 1;
        }
        QuoteParity { prefix_counts }
    }

    /// Returns true if the given position is inside a quoted field.
    pub fn is_quoted(&self, pos: usize) -> (r: bool)
        requires
            pos <= self.total(),
        ensures
            r == (self.count_at(pos as int) % 2 == 1),
    {
        proof {
            use_type_invariant(self);
        }
        let c = self.prefix_counts[pos];
        assert((c & 1 == 1) == (c % 2 == 1)) by (bit_vector);
        c & 1 == 1
    }
}

/// Built from strictly increasing quote positions, the parity structure
/// counts at each position the listed quotes below it, so `is_quoted(p)`
/// tells whether that number is odd.
pub proof fn lemma_quote_parity_counts_listed(qp: QuoteParity, qs: Seq<usize>, pos: int)
    requires
        strictly_increasing(qs),
        0 <= pos <= qp.total(),
        forall|p: int| 0 <= p <= qp.total() ==> qp.count_at(p) == marks_before(qs, p),
    ensures
        qp.count_at(pos) == listed_below(qs, pos),
{
    lemma_marks_count_listed(qs, pos);
}

// ─── Field delimiters ─────────────────────────────────────────────

/// The listed positions of `line` that lie outside quotes, shifted by `start`.
pub open spec fn unquoted_shifted(ps: Seq<usize>, line: Seq<u8>, quote: u8, start: int) -> Seq<
    usize,
>
    decreases ps.len(),
{
    if ps.len() == 0 {
        Seq::empty()
    } else {
        unquoted_shifted(ps.drop_last(), line, quote, start) + if quotes_upto(
            line,
            quote,
            ps.last() as int,
        ) % 2 == 0 {
            seq![(start + ps.last()) as usize]
        } else {
            Seq::empty()
        }
    }
}

/// Delimiters of `data[start..end]` outside quoted fields, as positions in `data`.
pub open spec fn field_delimiters(data: Seq<u8>, start: int, end: int, delimiter: u8, quote: u8) -> Seq<usize> {
    let line = data.subrange(start, end);
    unquoted_shifted(byte_positions(line, delimiter), line, quote, start)
}

proof fn lemma_marks_are_quotes(line: Seq<u8>, quote: u8, qs: Seq<usize>, n: int)
    requires
        qs == byte_positions(line, quote),
        0 <= n <= line.len(),
        line.len() < usize::MAX,
    ensures
        marks_before(qs, n) == quotes_upto(line, quote, n),
    decreases n,
{
    if n > 0 {
        lemma_marks_are_quotes(line, quote, qs, n - 1);
        lemma_positions_member(line, quote, line.len() as int, n - 1);
        if is_mark(qs, n - 1) {
            let k = choose|k: int| 0 <= k < qs.len() && qs[k] as int == n - 1;
            assert(qs.contains((n - 1) as usize));
        }
        if line[n - 1] == quote {
            assert(qs.contains((n - 1) as usize));
        }
    }
}

/// Find delimiter positions within a single line (no newlines), respecting
/// quotes: the positions in `data` of the delimiters of `data[start..end]`
/// that lie outside quoted fields.
pub fn find_field_delimiters(data: &[u8], start: usize, end: usize, delimiter: u8, quote: u8) -> (r: Vec<usize>)
    requires
        start <= end <= data@.len(),
        end - start < usize::MAX,
    ensures
        r@ == field_delimiters(data@, start as int, end as int, delimiter, quote),
{
    let line = vstd::slice::slice_subrange(data, start, end);
    let delim_positions = find_byte_positions(line, delimiter);
    let quote_positions = find_byte_positions(line, quote);
    let qp = QuoteParity::new(quote_positions.as_slice(), line.len());
    let ghost ps = delim_positions@;
    proof {
        assert forall|pos: int| 0 <= pos <= line@.len() implies qp.count_at(pos) == quotes_upto(
            line@,
            quote,
            pos,
        ) by {
            lemma_marks_are_quotes(line@, quote, quote_positions@, pos);
        }
    }
    let mut out: Vec<usize> = Vec::new();
    let mut k: usize = 0;
    while k < delim_positions.len()
        invariant
            k <= ps.len(),
            ps == delim_positions@,
            ps == byte_positions(line@, delimiter),
            line@ == data@.subrange(start as int, end as int),
            line@.len() < usize::MAX,
            qp.total() == line@.len(),
            start + line@.len() <= data@.len(),
            data@.len() == data.len(),
            forall|pos: int|
                0 <= pos <= line@.len() ==> qp.count_at(pos) == quotes_upto(line@, quote, pos),
            out@ == unquoted_shifted(ps.subrange(0, k as int), line@, quote, start as int),
        decreases ps.len() - k,
    {
        let pos = delim_positions[k];
        proof {
            lemma_positions_member(line@, delimiter, line@.len() as int, pos as int);
            assert(ps.contains(pos));
            assert(ps.subrange(0, k + 1).drop_last() =~= ps.subrange(0, k as int));
        }
        if !qp.is_quoted(pos) {
            out.push(start + pos);
        }
        k += 1;
    }
    assert(ps.subrange(0, ps.len() as int) =~= ps);
    out
}

} // verus!
