//! Mapping of tabular records onto candles: case-insensitive header
//! aliasing, exact decimal parsing into micro-scaled integers, validation
//! and tick quantization.

use vstd::prelude::*;

use crate::candle::{round_div, spec_round_div, Candle};
use crate::types::{order_type_t, side_t};

verus! {

/// The candle fields a tabular column can map to.
#[derive(Debug, Copy, Clone, PartialEq, Eq, Structural)]
pub enum FieldKind {
    TsOpen,
    TsClose,
    Open,
    High,
    Low,
    Close,
    Volume,
    TradeCount,
}

/// Why a header or a record was rejected. Record-level errors do not stop
/// the stream: later records are still handled.
#[derive(Debug, Copy, Clone, PartialEq, Eq, Structural)]
pub enum ParseError {
    /// The reader could not produce this record at all.
    BadRecord,
    /// The record has a different number of columns than the header.
    WrongColumnCount,
    /// The header maps no timestamp column, so the record has no time.
    MissingTimestamp,
    /// This field's text is not a well-formed number in range.
    InvalidValue(FieldKind),
    /// The fields parse but violate candle integrity, before or after
    /// quantization.
    InvalidCandle,
    /// The header lacks a required column.
    MissingColumn(FieldKind),
}

/// ASCII lowercase of one character; everything else is untouched.
pub open spec fn spec_lower_char(c: char) -> char {
    if 65 <= c as u32 <= 90 {
        (c as u32 + 32) as char
    } else {
        c
    }
}

/// ASCII lowercase of a character sequence.
pub open spec fn spec_lower(s: Seq<char>) -> Seq<char> {
    s.map_values(|c: char| spec_lower_char(c))
}

/// Whether a cell equals an ASCII-lowercase keyword, ignoring ASCII case.
fn matches_keyword(name: &Vec<char>, kw: &str) -> (r: bool)
    ensures
        r == (spec_lower(name@) == kw@),
{
    broadcast use vstd::utf8::char_u32_cast;

    let n = kw.unicode_len();
    if name.len() != n {
        proof {
            assert(spec_lower(name@).len() == name@.len());
        }
        return false;
    }
    let mut i: usize = 0;
    while i < n
        invariant
            0 <= i <= n,
            n == name@.len(),
            n == kw@.len(),
            forall|j: int| 0 <= j < i ==> spec_lower(name@)[j] == kw@[j],
        decreases n - i,
    {
        let a = name[i] as u32;
        let b = kw.get_char(i) as u32;
        let la = if 65 <= a && a <= 90 {
            a + 32
        } else {
            a
        };
        let ok = la == b;
        proof {
            broadcast use vstd::utf8::char_u32_cast;

            assert(spec_lower(name@)[i as int] == spec_lower_char(name@[i as int]));
            if 65 <= a && a <= 90 {
                assert(spec_lower_char(name@[i as int]) as u32 == a + 32);
            } else {
                assert(spec_lower_char(name@[i as int]) as u32 == a);
            }
        }
        if !ok {
            proof {
                assert(spec_lower(name@)[i as int] != kw@[i as int]);
            }
            return false;
        }
        i += 1;
    }
    proof {
        assert(spec_lower(name@) =~= kw@);
    }
    true
}

/// The candle field a column name denotes, after trimming by the reader:
/// the aliases are matched case-insensitively.
pub open spec fn spec_field_of(name: Seq<char>) -> Option<FieldKind> {
    let n = spec_lower(name);
    if n == "timestamp"@ || n == "ts"@ || n == "time"@ || n == "ts_open"@ || n == "open_time"@ {
        Some(FieldKind::TsOpen)
    } else if n == "ts_close"@ || n == "close_time"@ || n == "timestamp_close"@ {
        Some(FieldKind::TsClose)
    } else if n == "open"@ || n == "o"@ || n == "open_price"@ {
        Some(FieldKind::Open)
    } else if n == "high"@ || n == "h"@ || n == "high_price"@ {
        Some(FieldKind::High)
    } else if n == "low"@ || n == "l"@ || n == "low_price"@ {
        Some(FieldKind::Low)
    } else if n == "close"@ || n == "c"@ || n == "close_price"@ {
        Some(FieldKind::Close)
    } else if n == "volume"@ || n == "v"@ || n == "vol"@ || n == "base_volume"@ {
        Some(FieldKind::Volume)
    } else if n == "trades"@ || n == "trade_count"@ || n == "num_trades"@ || n == "count"@ {
        Some(FieldKind::TradeCount)
    } else {
        None
    }
}

/// Map a column name to the candle field it denotes, if any.
pub fn field_of(name: &Vec<char>) -> (r: Option<FieldKind>)
    ensures
        r == spec_field_of(name@),
{
    if matches_keyword(name, "timestamp") || matches_keyword(name, "ts") || matches_keyword(
        name,
        "time",
    ) || matches_keyword(name, "ts_open") || matches_keyword(name, "open_time") {
        Some(FieldKind::TsOpen)
    } else if matches_keyword(name, "ts_close") || matches_keyword(name, "close_time")
        || matches_keyword(name, "timestamp_close") {
        Some(FieldKind::TsClose)
    } else if matches_keyword(name, "open") || matches_keyword(name, "o") || matches_keyword(
        name,
        "open_price",
    ) {
        Some(FieldKind::Open)
    } else if matches_keyword(name, "high") || matches_keyword(name, "h") || matches_keyword(
        name,
        "high_price",
    ) {
        Some(FieldKind::High)
    } else if matches_keyword(name, "low") || matches_keyword(name, "l") || matches_keyword(
        name,
        "low_price",
    ) {
        Some(FieldKind::Low)
    } else if matches_keyword(name, "close") || matches_keyword(name, "c") || matches_keyword(
        name,
        "close_price",
    ) {
        Some(FieldKind::Close)
    } else if matches_keyword(name, "volume") || matches_keyword(name, "v") || matches_keyword(
        name,
        "vol",
    ) || matches_keyword(name, "base_volume") {
        Some(FieldKind::Volume)
    } else if matches_keyword(name, "trades") || matches_keyword(name, "trade_count")
        || matches_keyword(name, "num_trades") || matches_keyword(name, "count") {
        Some(FieldKind::TradeCount)
    } else {
        None
    }
}

/// The side a piece of text denotes, matched case-insensitively.
pub open spec fn spec_side_from_text(s: Seq<char>) -> Option<side_t> {
    let n = spec_lower(s);
    if n == "buy"@ {
        Some(side_t::SIDE_BUY)
    } else if n == "sell"@ {
        Some(side_t::SIDE_SELL)
    } else {
        None
    }
}

/// Decode a side from free text: `buy` or `sell` in any ASCII case.
pub fn side_from_text(s: &Vec<char>) -> (r: Option<side_t>)
    ensures
        r == spec_side_from_text(s@),
{
    if matches_keyword(s, "buy") {
        Some(side_t::SIDE_BUY)
    } else if matches_keyword(s, "sell") {
        Some(side_t::SIDE_SELL)
    } else {
        None
    }
}

/// The order type a piece of text denotes, matched case-insensitively.
pub open spec fn spec_order_type_from_text(s: Seq<char>) -> Option<order_type_t> {
    let n = spec_lower(s);
    if n == "limit"@ {
        Some(order_type_t::ORDER_TYPE_LIMIT)
    } else if n == "market"@ {
        Some(order_type_t::ORDER_TYPE_MARKET)
    } else {
        None
    }
}

/// Decode an order type from free text: `limit` or `market` in any ASCII
/// case.
pub fn order_type_from_text(s: &Vec<char>) -> (r: Option<order_type_t>)
    ensures
        r == spec_order_type_from_text(s@),
{
    if matches_keyword(s, "limit") {
        Some(order_type_t::ORDER_TYPE_LIMIT)
    } else if matches_keyword(s, "market") {
        Some(order_type_t::ORDER_TYPE_MARKET)
    } else {
        None
    }
}

/// Decimal digit test.
pub open spec fn spec_is_digit(c: char) -> bool {
    48 <= c as u32 <= 57
}

/// Value of one decimal digit.
pub open spec fn spec_digit_val(c: char) -> int {
    c as u32 - 48
}

/// Whether every character of a sequence is a decimal digit.
pub open spec fn spec_all_digits(s: Seq<char>) -> bool {
    forall|i: int| 0 <= i < s.len() ==> spec_is_digit(#[trigger] s[i])
}

/// The number a digit run denotes, most significant digit first.
pub open spec fn spec_digits_val(s: Seq<char>) -> int
    decreases s.len(),
{
    if s.len() == 0 {
        0
    } else {
        spec_digits_val(s.drop_last()) * 10 + spec_digit_val(s.last())
    }
}

/// Ten to a non-negative power.
pub open spec fn spec_pow10(n: int) -> int
    decreases n,
{
    if n <= 0 {
        1
    } else {
        10 * spec_pow10(n - 1)
    }
}

/// A run of `n` digits denotes a value in `[0, 10^n)`.
pub proof fn lemma_digits_val_bounds(s: Seq<char>)
    requires
        spec_all_digits(s),
    ensures
        0 <= spec_digits_val(s) < spec_pow10(s.len() as int),
    decreases s.len(),
{
    if s.len() > 0 {
        let head = s.drop_last();
        assert forall|i: int| 0 <= i < head.len() implies spec_is_digit(#[trigger] head[i]) by {
            assert(head[i] == s[i]);
        };
        lemma_digits_val_bounds(head);
        assert(s.last() == s[s.len() - 1]);
        assert(spec_is_digit(s.last()));
    }
}

/// Dropping trailing digits never increases the value a run denotes.
pub proof fn lemma_digits_val_take_le(s: Seq<char>, i: int)
    requires
        spec_all_digits(s),
        0 <= i <= s.len(),
    ensures
        spec_digits_val(s.take(i)) <= spec_digits_val(s),
    decreases s.len(),
{
    if i == s.len() {
        assert(s.take(i) =~= s);
    } else {
        let head = s.drop_last();
        assert forall|k: int| 0 <= k < head.len() implies spec_is_digit(#[trigger] head[k]) by {
            assert(head[k] == s[k]);
        };
        lemma_digits_val_bounds(head);
        lemma_digits_val_take_le(head, i);
        assert(s.take(i) =~= head.take(i));
        assert(s.last() == s[s.len() - 1]);
        assert(spec_is_digit(s.last()));
    }
}

/// Two characters with the same code are the same character.
pub proof fn lemma_char_code(c: char, lit: char)
    requires
        c as u32 == lit as u32,
    ensures
        c == lit,
{
    broadcast use vstd::utf8::char_u32_cast;

    assert(((c as u32) as char) == c);
    assert(((lit as u32) as char) == lit);
}

/// Cap on the digit-run evaluator: anything above it is out of range for
/// every caller.
pub const DIGIT_CAP: i128 = 20_000_000_000_000_000_000;

/// Evaluate the digit run `s[from..to]`: its value, unless a character is
/// not a digit or the value exceeds `DIGIT_CAP`.
fn digits_value(s: &Vec<char>, from: usize, to: usize) -> (r: Option<i128>)
    requires
        from <= to <= s@.len(),
    ensures
        ({
            let part = s@.subrange(from as int, to as int);
            &&& r is Some <==> spec_all_digits(part) && spec_digits_val(part) <= DIGIT_CAP as int
            &&& (r matches Some(v) ==> v as int == spec_digits_val(part) && spec_all_digits(part))
        }),
{
    let ghost part = s@.subrange(from as int, to as int);
    let mut acc: i128 = 0;
    let mut i: usize = from;
    while i < to
        invariant
            from <= i <= to <= s@.len(),
            part == s@.subrange(from as int, to as int),
            spec_all_digits(s@.subrange(from as int, i as int)),
            acc as int == spec_digits_val(s@.subrange(from as int, i as int)),
            0 <= acc <= DIGIT_CAP,
        decreases to - i,
    {
        let c = s[i];
        let code = c as u32;
        proof {
            assert(part[i - from] == s@[i as int]);
        }
        if code < 48 || code > 57 {
            proof {
                assert(!spec_is_digit(part[i - from]));
            }
            return None;
        }
        proof {
            assert(s@.subrange(from as int, i as int + 1).drop_last() =~= s@.subrange(
                from as int,
                i as int,
            ));
            assert(s@.subrange(from as int, i as int + 1).last() == s@[i as int]);
        }
        let acc2: i128 = acc * 10 + ((code - 48) as i128);
        if acc2 > DIGIT_CAP {
            proof {
                let pre = s@.subrange(from as int, i as int + 1);
                if spec_all_digits(part) {
                    assert(pre =~= part.take(i + 1 - from));
                    lemma_digits_val_take_le(part, i + 1 - from);
                }
            }
            return None;
        }
        acc = acc2;
        i += 1;
        proof {
            assert(s@.subrange(from as int, i as int) == s@.subrange(
                from as int,
                (i - 1) as int + 1,
            ));
        }
    }
    proof {
        assert(part =~= s@.subrange(from as int, i as int));
    }
    Some(acc)
}

/// Whether every character of `s[from..to]` is a decimal digit.
fn all_digits_range(s: &Vec<char>, from: usize, to: usize) -> (r: bool)
    requires
        from <= to <= s@.len(),
    ensures
        r == spec_all_digits(s@.subrange(from as int, to as int)),
{
    let ghost part = s@.subrange(from as int, to as int);
    let mut i: usize = from;
    while i < to
        invariant
            from <= i <= to <= s@.len(),
            part == s@.subrange(from as int, to as int),
            forall|j: int| 0 <= j < i - from ==> spec_is_digit(#[trigger] part[j]),
        decreases to - i,
    {
        let code = s[i] as u32;
        proof {
            assert(part[i - from] == s@[i as int]);
        }
        if code < 48 || code > 57 {
            return false;
        }
        i += 1;
    }
    true
}

/// A signed decimal integer: an optional sign, then at least one digit,
/// denoting a value that fits the result type.
pub open spec fn spec_parse_i64(s: Seq<char>) -> Option<i64> {
    let negative = s.len() > 0 && s[0] == '-';
    let signed = s.len() > 0 && (s[0] == '-' || s[0] == '+');
    let body = if signed {
        s.drop_first()
    } else {
        s
    };
    if body.len() > 0 && spec_all_digits(body) {
        let mag = spec_digits_val(body);
        let v = if negative {
            -mag
        } else {
            mag
        };
        if i64::MIN <= v <= i64::MAX {
            Some(v as i64)
        } else {
            None
        }
    } else {
        None
    }
}

/// Parse a signed decimal integer, exactly as `spec_parse_i64` describes.
pub fn parse_i64(s: &Vec<char>) -> (r: Option<i64>)
    ensures
        r == spec_parse_i64(s@),
{
    if s.len() == 0 {
        return None;
    }
    let c0 = s[0] as u32;
    let negative = c0 == 45;
    let signed = c0 == 45 || c0 == 43;
    proof {
        if c0 == 45 {
            lemma_char_code(s@[0], '-');
        }
        if c0 == 43 {
            lemma_char_code(s@[0], '+');
        }
    }
    let start: usize = if signed {
        1
    } else {
        0
    };
    proof {
        if signed {
            assert(s@.subrange(start as int, s@.len() as int) =~= s@.drop_first());
        } else {
            assert(s@.subrange(start as int, s@.len() as int) =~= s@);
        }
    }
    if start == s.len() {
        return None;
    }
    match digits_value(s, start, s.len()) {
        None => {
            proof {
                let body = s@.subrange(start as int, s@.len() as int);
                if spec_all_digits(body) {
                    assert(spec_digits_val(body) > DIGIT_CAP as int);
                }
            }
            None
        },
        Some(mag) => {
            proof {
                lemma_digits_val_bounds(s@.subrange(start as int, s@.len() as int));
            }
            if negative {
                if mag > 9_223_372_036_854_775_808i128 {
                    None
                } else {
                    Some((-mag) as i64)
                }
            } else {
                if mag > i64::MAX as i128 {
                    None
                } else {
                    Some(mag as i64)
                }
            }
        },
    }
}

/// The magnitude of an unsigned decimal body in micro units: digits, with
/// an optional dot and fraction. The fraction is kept to six digits,
/// rounded at the seventh, half away from zero.
pub open spec fn spec_body_micro(body: Seq<char>) -> Option<int> {
    match body.index_of_first('.') {
        None => if body.len() > 0 && spec_all_digits(body) {
            Some(spec_digits_val(body) * 1000000)
        } else {
            None
        },
        Some(di) => {
            let ip = body.take(di);
            let fp = body.skip(di + 1);
            if ip.len() + fp.len() > 0 && spec_all_digits(ip) && spec_all_digits(fp) {
                let k: int = if fp.len() <= 6 {
                    fp.len() as int
                } else {
                    6
                };
                let f6 = spec_digits_val(fp.take(k)) * spec_pow10(6 - k);
                let up: int = if fp.len() > 6 && spec_digit_val(fp[6]) >= 5 {
                    1
                } else {
                    0
                };
                Some(spec_digits_val(ip) * 1000000 + f6 + up)
            } else {
                None
            }
        },
    }
}

/// A signed decimal number in micro units (six implied decimal digits):
/// an optional sign, then digits with an optional dot and fraction,
/// denoting a value whose micro magnitude fits the result type.
pub open spec fn spec_parse_micro(s: Seq<char>) -> Option<i64> {
    let negative = s.len() > 0 && s[0] == '-';
    let signed = s.len() > 0 && (s[0] == '-' || s[0] == '+');
    let body = if signed {
        s.drop_first()
    } else {
        s
    };
    match spec_body_micro(body) {
        Some(mag) => {
            let v = if negative {
                -mag
            } else {
                mag
            };
            if i64::MIN <= v <= i64::MAX {
                Some(v as i64)
            } else {
                None
            }
        },
        None => None,
    }
}

/// The value a micro-magnitude takes for each fraction length.
proof fn lemma_pow10_small()
    ensures
        spec_pow10(0) == 1,
        spec_pow10(1) == 10,
        spec_pow10(2) == 100,
        spec_pow10(3) == 1000,
        spec_pow10(4) == 10000,
        spec_pow10(5) == 100000,
        spec_pow10(6) == 1000000,
{
    assert(spec_pow10(0) == 1);
    assert(spec_pow10(1) == 10);
    assert(spec_pow10(2) == 100);
    assert(spec_pow10(3) == 1000);
    assert(spec_pow10(4) == 10000);
    assert(spec_pow10(5) == 100000);
    assert(spec_pow10(6) == 1000000);
}

/// Parse a signed decimal number into micro units, exactly as
/// `spec_parse_micro` describes.
#[verifier::rlimit(100)]
#[verifier::spinoff_prover]
pub fn parse_micro(s: &Vec<char>) -> (r: Option<i64>)
    ensures
        r == spec_parse_micro(s@),
{
    if s.len() == 0 {
        proof {
            s@.index_of_first_ensures('.');
        }
        return None;
    }
    let c0 = s[0] as u32;
    let negative = c0 == 45;
    let signed = c0 == 45 || c0 == 43;
    proof {
        if c0 == 45 {
            lemma_char_code(s@[0], '-');
        }
        if c0 == 43 {
            lemma_char_code(s@[0], '+');
        }
    }
    let start: usize = if signed {
        1
    } else {
        0
    };
    let ghost body = if signed {
        s@.drop_first()
    } else {
        s@
    };
    proof {
        assert(body =~= s@.subrange(start as int, s@.len() as int));
    }
    let n = s.len();
    // Find the first dot in the body.
    let mut dot: usize = n;
    let mut j: usize = start;
    while j < n
        invariant
            start <= j <= n,
            n == s@.len(),
            dot == n || (start <= dot < j && s@[dot as int] as u32 == 46 && forall|k: int|
                start <= k < dot ==> s@[k] as u32 != 46),
            dot == n ==> forall|k: int| start <= k < j ==> s@[k] as u32 != 46,
        decreases n - j,
    {
        if dot == n && s[j] as u32 == 46 {
            dot = j;
        }
        j += 1;
    }
    proof {
        body.index_of_first_ensures('.');
        assert('.' as u32 == 46);
    }
    if dot == n {
        // No dot: an integer body.
        proof {
            if body.index_of_first('.') is Some {
                let di = body.index_of_first('.').unwrap();
                assert(body[di] == '.');
                assert(s@[di + start] as u32 == 46);
            }
            assert(body.index_of_first('.') is None);
        }
        if start == n {
            return None;
        }
        match digits_value(s, start, n) {
            None => {
                proof {
                    if spec_all_digits(body) {
                        assert(spec_digits_val(body) > DIGIT_CAP as int);
                        assert(spec_digits_val(body) * 1000000 >= spec_digits_val(body))
                            by (nonlinear_arith)
                            requires
                                spec_digits_val(body) >= 0,
                        ;
                    }
                }
                None
            },
            Some(mag) => {
                proof {
                    lemma_digits_val_bounds(body);
                }
                let micro: i128 = mag * 1000000;
                if negative {
                    if micro > 9_223_372_036_854_775_808i128 {
                        None
                    } else {
                        Some((-micro) as i64)
                    }
                } else {
                    if micro > i64::MAX as i128 {
                        None
                    } else {
                        Some(micro as i64)
                    }
                }
            },
        }
    } else {
        // A dot at `dot`: integer part before it, fraction after it.
        proof {
            lemma_char_code(s@[dot as int], '.');
            let ghost bdot = dot - start;
            assert(body[bdot] == '.');
            assert(body.index_of_first('.') is Some);
            let di = body.index_of_first('.').unwrap();
            if di < bdot {
                assert(s@[di + start] as u32 == 46);
            }
            assert(di == bdot);
        }
        let ghost di = dot - start;
        let ghost ip = body.take(di);
        let ghost fp = body.skip(di + 1);
        proof {
            assert(ip =~= s@.subrange(start as int, dot as int));
            assert(fp =~= s@.subrange(dot as int + 1, n as int));
        }
        if start == dot && dot + 1 == n {
            // A lone dot: no digits on either side.
            return None;
        }
        if !all_digits_range(s, dot + 1, n) {
            return None;
        }
        let ipv = match digits_value(s, start, dot) {
            None => {
                proof {
                    if spec_all_digits(ip) {
                        assert(spec_digits_val(ip) > DIGIT_CAP as int);
                        let kk2: int = if fp.len() <= 6 {
                            fp.len() as int
                        } else {
                            6
                        };
                        assert forall|x: int| 0 <= x < fp.take(kk2).len() implies spec_is_digit(
                            #[trigger] fp.take(kk2)[x],
                        ) by {
                            assert(fp.take(kk2)[x] == fp[x]);
                        };
                        lemma_digits_val_bounds(fp.take(kk2));
                        lemma_pow10_small();
                        assert(spec_pow10(6 - kk2) >= 1);
                        assert(spec_digits_val(fp.take(kk2)) * spec_pow10(6 - kk2) >= 0)
                            by (nonlinear_arith)
                            requires
                                spec_digits_val(fp.take(kk2)) >= 0,
                                spec_pow10(6 - kk2) >= 1,
                        ;
                        assert(spec_digits_val(ip) * 1000000 > 20_000_000_000_000_000_000)
                            by (nonlinear_arith)
                            requires
                                spec_digits_val(ip) > 20_000_000_000_000_000_000,
                        ;
                    }
                }
                return None;
            },
            Some(v) => v,
        };
        let flen = n - (dot + 1);
        let k: usize = if flen <= 6 {
            flen
        } else {
            6
        };
        let ghost kk: int = if fp.len() <= 6 {
            fp.len() as int
        } else {
            6
        };
        proof {
            assert(kk == k as int);
            assert(fp.take(kk) =~= s@.subrange(dot as int + 1, dot as int + 1 + kk));
            assert forall|x: int| 0 <= x < fp.take(kk).len() implies spec_is_digit(
                #[trigger] fp.take(kk)[x],
            ) by {
                assert(fp.take(kk)[x] == fp[x]);
            };
            lemma_digits_val_bounds(fp.take(kk));
            lemma_pow10_small();
        }
        let f6raw = match digits_value(s, dot + 1, dot + 1 + k) {
            Some(v) => v,
            None => unreached(),
        };
        let scale: i128 = if k == 0 {
            1000000
        } else if k == 1 {
            100000
        } else if k == 2 {
            10000
        } else if k == 3 {
            1000
        } else if k == 4 {
            100
        } else if k == 5 {
            10
        } else {
            1
        };
        proof {
            assert(scale as int == spec_pow10(6 - kk));
            assert(f6raw * scale < 1000000) by (nonlinear_arith)
                requires
                    0 <= f6raw,
                    1 <= scale,
                    f6raw < spec_pow10(kk as int),
                    scale == spec_pow10(6 - kk),
                    spec_pow10(kk as int) * spec_pow10(6 - kk as int) == 1000000,
            ;
            assert(f6raw * scale >= 0) by (nonlinear_arith)
                requires
                    0 <= f6raw,
                    1 <= scale,
            ;
        }
        let f6: i128 = f6raw * scale;
        let up: i128 = if flen > 6 {
            let c7 = s[dot + 1 + 6] as u32;
            proof {
                assert(fp[6] == s@[dot as int + 7]);
            }
            if c7 >= 53 {
                1
            } else {
                0
            }
        } else {
            0
        };
        proof {
            lemma_digits_val_bounds(ip);
        }
        let micro: i128 = ipv * 1000000 + f6 + up;
        if negative {
            if micro > 9_223_372_036_854_775_808i128 {
                None
            } else {
                Some((-micro) as i64)
            }
        } else {
            if micro > i64::MAX as i128 {
                None
            } else {
                Some(micro as i64)
            }
        }
    }
}

/// Maps column indices to candle fields. Open, high, low, close and volume
/// are required; timestamps and trade count are optional and defaulted.
#[derive(Debug, Copy, Clone, PartialEq, Eq)]
pub struct HeaderMap {
    pub ts_open_idx: Option<usize>,
    pub ts_close_idx: Option<usize>,
    pub open_idx: usize,
    pub high_idx: usize,
    pub low_idx: usize,
    pub close_idx: usize,
    pub volume_idx: usize,
    pub trade_count_idx: Option<usize>,
}

/// The index of the last column denoting this field, if any: a later
/// column of the same meaning overrides an earlier one.
pub open spec fn spec_last_idx(headers: Seq<Seq<char>>, kind: FieldKind) -> Option<int>
    decreases headers.len(),
{
    if headers.len() == 0 {
        None
    } else if spec_field_of(headers.last()) == Some(kind) {
        Some(headers.len() - 1)
    } else {
        spec_last_idx(headers.drop_last(), kind)
    }
}

/// Whether an optional index equals an optional mathematical index.
pub open spec fn spec_opt_idx_is(o: Option<usize>, s: Option<int>) -> bool {
    match o {
        Some(a) => s == Some(a as int),
        None => s is None,
    }
}

/// Build the header map from column names: the five price/volume columns
/// are required, in this order of reporting; timestamps and trade count
/// stay optional.
pub open spec fn spec_header_map(headers: Seq<Seq<char>>) -> Result<HeaderMap, ParseError> {
    if spec_last_idx(headers, FieldKind::Open) is None {
        Err(ParseError::MissingColumn(FieldKind::Open))
    } else if spec_last_idx(headers, FieldKind::High) is None {
        Err(ParseError::MissingColumn(FieldKind::High))
    } else if spec_last_idx(headers, FieldKind::Low) is None {
        Err(ParseError::MissingColumn(FieldKind::Low))
    } else if spec_last_idx(headers, FieldKind::Close) is None {
        Err(ParseError::MissingColumn(FieldKind::Close))
    } else if spec_last_idx(headers, FieldKind::Volume) is None {
        Err(ParseError::MissingColumn(FieldKind::Volume))
    } else {
        Ok(
            HeaderMap {
                ts_open_idx: match spec_last_idx(headers, FieldKind::TsOpen) {
                    Some(i) => Some(i as usize),
                    None => None,
                },
                ts_close_idx: match spec_last_idx(headers, FieldKind::TsClose) {
                    Some(i) => Some(i as usize),
                    None => None,
                },
                open_idx: spec_last_idx(headers, FieldKind::Open).unwrap() as usize,
                high_idx: spec_last_idx(headers, FieldKind::High).unwrap() as usize,
                low_idx: spec_last_idx(headers, FieldKind::Low).unwrap() as usize,
                close_idx: spec_last_idx(headers, FieldKind::Close).unwrap() as usize,
                volume_idx: spec_last_idx(headers, FieldKind::Volume).unwrap() as usize,
                trade_count_idx: match spec_last_idx(headers, FieldKind::TradeCount) {
                    Some(i) => Some(i as usize),
                    None => None,
                },
            },
        )
    }
}

impl HeaderMap {
    /// Build the header map from the header row, matching each column name
    /// against the known aliases; the last matching column wins.
    pub fn from_headers(headers: &Vec<Vec<char>>) -> (r: Result<HeaderMap, ParseError>)
        ensures
            r == spec_header_map(headers.deep_view()),
    {
        let ghost dv = headers.deep_view();
        let mut ts_open_idx: Option<usize> = None;
        let mut ts_close_idx: Option<usize> = None;
        let mut open_idx: Option<usize> = None;
        let mut high_idx: Option<usize> = None;
        let mut low_idx: Option<usize> = None;
        let mut close_idx: Option<usize> = None;
        let mut volume_idx: Option<usize> = None;
        let mut trade_count_idx: Option<usize> = None;
        let n = headers.len();
        let mut i: usize = 0;
        while i < n
            invariant
                0 <= i <= n,
                n == headers@.len(),
                dv == headers.deep_view(),
                dv.len() == n,
                spec_opt_idx_is(ts_open_idx, spec_last_idx(dv.take(i as int), FieldKind::TsOpen)),
                spec_opt_idx_is(
                    ts_close_idx,
                    spec_last_idx(dv.take(i as int), FieldKind::TsClose),
                ),
                spec_opt_idx_is(open_idx, spec_last_idx(dv.take(i as int), FieldKind::Open)),
                spec_opt_idx_is(high_idx, spec_last_idx(dv.take(i as int), FieldKind::High)),
                spec_opt_idx_is(low_idx, spec_last_idx(dv.take(i as int), FieldKind::Low)),
                spec_opt_idx_is(close_idx, spec_last_idx(dv.take(i as int), FieldKind::Close)),
                spec_opt_idx_is(volume_idx, spec_last_idx(dv.take(i as int), FieldKind::Volume)),
                spec_opt_idx_is(
                    trade_count_idx,
                    spec_last_idx(dv.take(i as int), FieldKind::TradeCount),
                ),
            decreases n - i,
        {
            proof {
                assert(dv.take(i as int + 1).drop_last() =~= dv.take(i as int));
                assert(dv.take(i as int + 1).last() == dv[i as int]);
                assert(dv[i as int] == headers@[i as int]@);
            }
            match field_of(&headers[i]) {
                Some(FieldKind::TsOpen) => ts_open_idx = Some(i),
                Some(FieldKind::TsClose) => ts_close_idx = Some(i),
                Some(FieldKind::Open) => open_idx = Some(i),
                Some(FieldKind::High) => high_idx = Some(i),
                Some(FieldKind::Low) => low_idx = Some(i),
                Some(FieldKind::Close) => close_idx = Some(i),
                Some(FieldKind::Volume) => volume_idx = Some(i),
                Some(FieldKind::TradeCount) => trade_count_idx = Some(i),
                None => {},
            }
            i += 1;
        }
        proof {
            assert(dv.take(n as int) =~= dv);
        }
        let open_idx = match open_idx {
            Some(v) => v,
            None => {
                return Err(ParseError::MissingColumn(FieldKind::Open));
            },
        };
        let high_idx = match high_idx {
            Some(v) => v,
            None => {
                return Err(ParseError::MissingColumn(FieldKind::High));
            },
        };
        let low_idx = match low_idx {
            Some(v) => v,
            None => {
                return Err(ParseError::MissingColumn(FieldKind::Low));
            },
        };
        let close_idx = match close_idx {
            Some(v) => v,
            None => {
                return Err(ParseError::MissingColumn(FieldKind::Close));
            },
        };
        let volume_idx = match volume_idx {
            Some(v) => v,
            None => {
                return Err(ParseError::MissingColumn(FieldKind::Volume));
            },
        };
        Ok(
            HeaderMap {
                ts_open_idx,
                ts_close_idx,
                open_idx,
                high_idx,
                low_idx,
                close_idx,
                volume_idx,
                trade_count_idx,
            },
        )
    }
}

/// A bar's fields as exact scaled integers, before tick quantization:
/// prices and volume in micro units.
#[derive(Debug, Copy, Clone, PartialEq, Eq, Structural)]
pub struct BarFields {
    pub ts_open: i64,
    pub ts_close: i64,
    pub open_micro: i64,
    pub high_micro: i64,
    pub low_micro: i64,
    pub close_micro: i64,
    pub volume_micro: i64,
    pub trade_count: i64,
}

/// Integrity of a parsed bar, before quantization: positive, ordered
/// timestamps; low at or below open, close and high, which bound open and
/// close; non-negative volume and trade count.
pub open spec fn spec_bar_valid(b: BarFields) -> bool {
    &&& b.ts_open > 0
    &&& b.ts_close > 0
    &&& b.ts_close >= b.ts_open
    &&& b.low_micro <= b.high_micro
    &&& b.low_micro <= b.open_micro <= b.high_micro
    &&& b.low_micro <= b.close_micro <= b.high_micro
    &&& b.volume_micro >= 0
    &&& b.trade_count >= 0
}

/// Validate a parsed bar; never panics on bad data.
pub fn bar_valid(b: &BarFields) -> (r: bool)
    ensures
        r == spec_bar_valid(*b),
{
    b.ts_open > 0 && b.ts_close > 0 && b.ts_close >= b.ts_open && b.low_micro <= b.high_micro
        && b.low_micro <= b.open_micro && b.open_micro <= b.high_micro && b.low_micro
        <= b.close_micro && b.close_micro <= b.high_micro && b.volume_micro >= 0 && b.trade_count
        >= 0
}

/// Read one micro-scaled decimal cell of a record.
pub open spec fn spec_get_micro(row: Seq<Seq<char>>, idx: int, kind: FieldKind) -> Result<
    i64,
    ParseError,
> {
    if !(0 <= idx < row.len()) {
        Err(ParseError::WrongColumnCount)
    } else {
        match spec_parse_micro(row[idx]) {
            Some(v) => Ok(v),
            None => Err(ParseError::InvalidValue(kind)),
        }
    }
}

/// Read one integer cell of a record.
pub open spec fn spec_get_i64(row: Seq<Seq<char>>, idx: int, kind: FieldKind) -> Result<
    i64,
    ParseError,
> {
    if !(0 <= idx < row.len()) {
        Err(ParseError::WrongColumnCount)
    } else {
        match spec_parse_i64(row[idx]) {
            Some(v) => Ok(v),
            None => Err(ParseError::InvalidValue(kind)),
        }
    }
}

/// The bar a record denotes under a header map: prices and volume parsed
/// as exact decimals; a missing close time defaults to one minute after
/// the open time, a missing open time to one minute before the close time,
/// a missing trade count to zero. A record with no timestamp column at all
/// is rejected.
pub open spec fn spec_parse_record(hm: HeaderMap, row: Seq<Seq<char>>) -> Result<
    BarFields,
    ParseError,
> {
    match spec_get_micro(row, hm.open_idx as int, FieldKind::Open) {
        Err(e) => Err(e),
        Ok(open_micro) => match spec_get_micro(row, hm.high_idx as int, FieldKind::High) {
            Err(e) => Err(e),
            Ok(high_micro) => match spec_get_micro(row, hm.low_idx as int, FieldKind::Low) {
                Err(e) => Err(e),
                Ok(low_micro) => match spec_get_micro(row, hm.close_idx as int, FieldKind::Close) {
                    Err(e) => Err(e),
                    Ok(close_micro) => match spec_get_micro(
                        row,
                        hm.volume_idx as int,
                        FieldKind::Volume,
                    ) {
                        Err(e) => Err(e),
                        Ok(volume_micro) => match spec_record_times(hm, row) {
                            Err(e) => Err(e),
                            Ok((ts_open, ts_close)) => match spec_record_trades(hm, row) {
                                Err(e) => Err(e),
                                Ok(trade_count) => Ok(
                                    BarFields {
                                        ts_open,
                                        ts_close,
                                        open_micro,
                                        high_micro,
                                        low_micro,
                                        close_micro,
                                        volume_micro,
                                        trade_count,
                                    },
                                ),
                            },
                        },
                    },
                },
            },
        },
    }
}

/// The open and close times a record denotes: read from their columns
/// where mapped, defaulted one minute apart where only one is mapped.
pub open spec fn spec_record_times(hm: HeaderMap, row: Seq<Seq<char>>) -> Result<
    (i64, i64),
    ParseError,
> {
    match hm.ts_open_idx {
        Some(oi) => match spec_get_i64(row, oi as int, FieldKind::TsOpen) {
            Err(e) => Err(e),
            Ok(ts_open) => match hm.ts_close_idx {
                Some(ci) => match spec_get_i64(row, ci as int, FieldKind::TsClose) {
                    Err(e) => Err(e),
                    Ok(ts_close) => Ok((ts_open, ts_close)),
                },
                None => if ts_open + 60000 <= i64::MAX {
                    Ok((ts_open, (ts_open + 60000) as i64))
                } else {
                    Err(ParseError::InvalidCandle)
                },
            },
        },
        None => match hm.ts_close_idx {
            Some(ci) => match spec_get_i64(row, ci as int, FieldKind::TsClose) {
                Err(e) => Err(e),
                Ok(ts_close) => if ts_close - 60000 >= i64::MIN {
                    Ok(((ts_close - 60000) as i64, ts_close))
                } else {
                    Err(ParseError::InvalidCandle)
                },
            },
            None => Err(ParseError::MissingTimestamp),
        },
    }
}

/// The trade count a record denotes: read from its column where mapped,
/// zero otherwise.
pub open spec fn spec_record_trades(hm: HeaderMap, row: Seq<Seq<char>>) -> Result<
    i64,
    ParseError,
> {
    match hm.trade_count_idx {
        Some(ti) => spec_get_i64(row, ti as int, FieldKind::TradeCount),
        None => Ok(0),
    }
}

/// Parse one record into a bar, exactly as `spec_parse_record` describes.
pub fn parse_record(hm: &HeaderMap, row: &Vec<Vec<char>>) -> (r: Result<BarFields, ParseError>)
    ensures
        r == spec_parse_record(*hm, row.deep_view()),
{
    let ghost dv = row.deep_view();
    let open_micro = match get_micro(row, hm.open_idx, FieldKind::Open) {
        Ok(v) => v,
        Err(e) => {
            return Err(e);
        },
    };
    let high_micro = match get_micro(row, hm.high_idx, FieldKind::High) {
        Ok(v) => v,
        Err(e) => {
            return Err(e);
        },
    };
    let low_micro = match get_micro(row, hm.low_idx, FieldKind::Low) {
        Ok(v) => v,
        Err(e) => {
            return Err(e);
        },
    };
    let close_micro = match get_micro(row, hm.close_idx, FieldKind::Close) {
        Ok(v) => v,
        Err(e) => {
            return Err(e);
        },
    };
    let volume_micro = match get_micro(row, hm.volume_idx, FieldKind::Volume) {
        Ok(v) => v,
        Err(e) => {
            return Err(e);
        },
    };
    let times = match record_times(hm, row) {
        Ok(v) => v,
        Err(e) => {
            return Err(e);
        },
    };
    let trade_count = match record_trades(hm, row) {
        Ok(v) => v,
        Err(e) => {
            return Err(e);
        },
    };
    Ok(
        BarFields {
            ts_open: times.0,
            ts_close: times.1,
            open_micro,
            high_micro,
            low_micro,
            close_micro,
            volume_micro,
            trade_count,
        },
    )
}

/// Read one micro-scaled decimal cell.
fn get_micro(row: &Vec<Vec<char>>, idx: usize, kind: FieldKind) -> (r: Result<i64, ParseError>)
    ensures
        r == spec_get_micro(row.deep_view(), idx as int, kind),
{
    if idx >= row.len() {
        return Err(ParseError::WrongColumnCount);
    }
    proof {
        assert(row.deep_view()[idx as int] == row@[idx as int]@);
    }
    match parse_micro(&row[idx]) {
        Some(v) => Ok(v),
        None => Err(ParseError::InvalidValue(kind)),
    }
}

/// Read one integer cell.
fn get_i64(row: &Vec<Vec<char>>, idx: usize, kind: FieldKind) -> (r: Result<i64, ParseError>)
    ensures
        r == spec_get_i64(row.deep_view(), idx as int, kind),
{
    if idx >= row.len() {
        return Err(ParseError::WrongColumnCount);
    }
    proof {
        assert(row.deep_view()[idx as int] == row@[idx as int]@);
    }
    match parse_i64(&row[idx]) {
        Some(v) => Ok(v),
        None => Err(ParseError::InvalidValue(kind)),
    }
}

/// Read or default the record's open and close times.
fn record_times(hm: &HeaderMap, row: &Vec<Vec<char>>) -> (r: Result<(i64, i64), ParseError>)
    ensures
        r == spec_record_times(*hm, row.deep_view()),
{
    match hm.ts_open_idx {
        Some(oi) => {
            let ts_open = match get_i64(row, oi, FieldKind::TsOpen) {
                Ok(v) => v,
                Err(e) => {
                    return Err(e);
                },
            };
            match hm.ts_close_idx {
                Some(ci) => {
                    match get_i64(row, ci, FieldKind::TsClose) {
                        Ok(ts_close) => Ok((ts_open, ts_close)),
                        Err(e) => Err(e),
                    }
                },
                None => {
                    if ts_open <= i64::MAX - 60000 {
                        Ok((ts_open, ts_open + 60000))
                    } else {
                        Err(ParseError::InvalidCandle)
                    }
                },
            }
        },
        None => {
            match hm.ts_close_idx {
                Some(ci) => {
                    let ts_close = match get_i64(row, ci, FieldKind::TsClose) {
                        Ok(v) => v,
                        Err(e) => {
                            return Err(e);
                        },
                    };
                    if ts_close >= i64::MIN + 60000 {
                        Ok((ts_close - 60000, ts_close))
                    } else {
                        Err(ParseError::InvalidCandle)
                    }
                },
                None => Err(ParseError::MissingTimestamp),
            }
        },
    }
}

/// Read or default the record's trade count.
fn record_trades(hm: &HeaderMap, row: &Vec<Vec<char>>) -> (r: Result<i64, ParseError>)
    ensures
        r == spec_record_trades(*hm, row.deep_view()),
{
    match hm.trade_count_idx {
        Some(ti) => get_i64(row, ti, FieldKind::TradeCount),
        None => Ok(0),
    }
}

/// The candle a record denotes: the parsed bar must be valid, prices are
/// quantized to ticks (nearest, ties away from zero), and the quantized
/// candle must still be valid.
pub open spec fn spec_record_to_candle(hm: HeaderMap, row: Seq<Seq<char>>, tsm: int) -> Result<
    Candle,
    ParseError,
> {
    match spec_parse_record(hm, row) {
        Err(e) => Err(e),
        Ok(b) => if !spec_bar_valid(b) {
            Err(ParseError::InvalidCandle)
        } else {
            let c = Candle {
                ts_open: b.ts_open,
                ts_close: b.ts_close,
                open_tick: spec_round_div(b.open_micro as int, tsm) as i64,
                high_tick: spec_round_div(b.high_micro as int, tsm) as i64,
                low_tick: spec_round_div(b.low_micro as int, tsm) as i64,
                close_tick: spec_round_div(b.close_micro as int, tsm) as i64,
                volume_scaled: b.volume_micro,
                trade_count: b.trade_count,
            };
            if !c.spec_valid() {
                Err(ParseError::InvalidCandle)
            } else {
                Ok(c)
            }
        },
    }
}

/// Map one record to a quantized, validated candle, exactly as
/// `spec_record_to_candle` describes.
pub fn record_to_candle(hm: &HeaderMap, row: &Vec<Vec<char>>, tick_size_micro: i64) -> (r: Result<
    Candle,
    ParseError,
>)
    requires
        tick_size_micro >= 1,
    ensures
        r == spec_record_to_candle(*hm, row.deep_view(), tick_size_micro as int),
{
    let b = match parse_record(hm, row) {
        Ok(v) => v,
        Err(e) => {
            return Err(e);
        },
    };
    if !bar_valid(&b) {
        return Err(ParseError::InvalidCandle);
    }
    let c = Candle {
        ts_open: b.ts_open,
        ts_close: b.ts_close,
        open_tick: round_div(b.open_micro, tick_size_micro),
        high_tick: round_div(b.high_micro, tick_size_micro),
        low_tick: round_div(b.low_micro, tick_size_micro),
        close_tick: round_div(b.close_micro, tick_size_micro),
        volume_scaled: b.volume_micro,
        trade_count: b.trade_count,
    };
    if !c.is_valid() {
        return Err(ParseError::InvalidCandle);
    }
    Ok(c)
}

} // verus!
