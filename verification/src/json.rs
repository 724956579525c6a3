//! JSON-safe values, records, and their byte-level serialization.
//!
//! The serialized form is pinned down exactly by spec functions over byte
//! sequences, so that every caller knows the output byte for byte: strings
//! are quoted with `"`, `\` and control bytes escaped; integers are printed
//! in canonical decimal; a record is `{` comma-joined `name:value` pairs
//! `}`; a sequence of records is `[` comma-joined records `]`.

use vstd::prelude::*;

verus! {

pub const BYTE_QUOTE: u8 = 34;

pub const BYTE_PLUS: u8 = 43;

pub const BYTE_COMMA: u8 = 44;

pub const BYTE_MINUS: u8 = 45;

pub const BYTE_ZERO: u8 = 48;

pub const BYTE_NINE: u8 = 57;

pub const BYTE_COLON: u8 = 58;

pub const BYTE_LBRACKET: u8 = 91;

pub const BYTE_BACKSLASH: u8 = 92;

pub const BYTE_RBRACKET: u8 = 93;

pub const BYTE_LOWER_A: u8 = 97;

pub const BYTE_LOWER_F: u8 = 102;

pub const BYTE_LOWER_L: u8 = 108;

pub const BYTE_LOWER_N: u8 = 110;

pub const BYTE_LOWER_U: u8 = 117;

pub const BYTE_LBRACE: u8 = 123;

pub const BYTE_RBRACE: u8 = 125;

/// A JSON-safe value: null, a number, or a string of UTF-8 bytes.
#[derive(Debug)]
pub enum JsonValue {
    Null,
    Int(i64),
    Str(Vec<u8>),
}

/// Mathematical model of a `JsonValue`.
pub enum JsonValueModel {
    Null,
    Int(int),
    Str(Seq<u8>),
}

impl View for JsonValue {
    type V = JsonValueModel;

    open spec fn view(&self) -> JsonValueModel {
        match self {
            JsonValue::Null => JsonValueModel::Null,
            JsonValue::Int(i) => JsonValueModel::Int(*i as int),
            JsonValue::Str(s) => JsonValueModel::Str(s@),
        }
    }
}

/// The JSON-facing projection of one row: a mapping from column name to
/// JSON value, in insertion order.
#[derive(Debug)]
pub struct Record {
    pub fields: Vec<(Vec<u8>, JsonValue)>,
}

impl View for Record {
    type V = Seq<(Seq<u8>, JsonValueModel)>;

    open spec fn view(&self) -> Seq<(Seq<u8>, JsonValueModel)> {
        self.fields@.map_values(|f: (Vec<u8>, JsonValue)| (f.0@, f.1@))
    }
}

// ------------------------------------------------------------------
// Decimal digits: emission and parsing.
// ------------------------------------------------------------------

pub open spec fn is_digit(b: u8) -> bool {
    BYTE_ZERO <= b <= BYTE_NINE
}

pub open spec fn all_digits(s: Seq<u8>) -> bool {
    forall|i: int| 0 <= i < s.len() ==> is_digit(#[trigger] s[i])
}

/// The canonical decimal digits of a natural number (no leading zero,
/// except for zero itself).
pub open spec fn digits_of(n: nat) -> Seq<u8>
    decreases n,
{
    if n < 10 {
        seq![(BYTE_ZERO + n) as u8]
    } else {
        digits_of(n / 10).push((BYTE_ZERO + n % 10) as u8)
    }
}

/// The canonical decimal rendering of an integer: a minus sign for
/// negative values, then the digits of its magnitude.
pub open spec fn int_digits(i: int) -> Seq<u8> {
    if i < 0 {
        seq![BYTE_MINUS] + digits_of((-i) as nat)
    } else {
        digits_of(i as nat)
    }
}

/// Value of a sequence of decimal digit bytes, most significant first.
pub open spec fn digits_val(s: Seq<u8>) -> int
    decreases s.len(),
{
    if s.len() == 0 {
        0
    } else {
        digits_val(s.drop_last()) * 10 + (s.last() - BYTE_ZERO)
    }
}

/// What a decimal integer literal (optional sign, then digits) denotes,
/// or `None` where the bytes are not such a literal. The value is exact,
/// unbounded by any machine width.
pub open spec fn spec_parse_int(s: Seq<u8>) -> Option<int> {
    if s.len() == 0 {
        None
    } else {
        let neg = s[0] == BYTE_MINUS;
        let body = if s[0] == BYTE_MINUS || s[0] == BYTE_PLUS {
            s.skip(1)
        } else {
            s
        };
        if body.len() > 0 && all_digits(body) {
            if neg {
                Some(-digits_val(body))
            } else {
                Some(digits_val(body))
            }
        } else {
            None
        }
    }
}

pub proof fn lemma_digits_val_nonneg(s: Seq<u8>)
    requires
        all_digits(s),
    ensures
        digits_val(s) >= 0,
    decreases s.len(),
{
    if s.len() > 0 {
        assert(all_digits(s.drop_last()));
        lemma_digits_val_nonneg(s.drop_last());
    }
}

/// Extending a digit string to the right can only grow its value.
pub proof fn lemma_digits_val_take_le(s: Seq<u8>, i: int)
    requires
        all_digits(s),
        0 <= i <= s.len(),
    ensures
        digits_val(s.take(i)) <= digits_val(s),
    decreases s.len() - i,
{
    if i < s.len() {
        lemma_digits_val_take_le(s, i + 1);
        let t = s.take(i + 1);
        assert(t.drop_last() =~= s.take(i));
        assert(all_digits(s.take(i)));
        lemma_digits_val_nonneg(s.take(i));
        assert(digits_val(t) == digits_val(s.take(i)) * 10 + (t.last() - BYTE_ZERO));
        assert(digits_val(s.take(i)) * 10 >= digits_val(s.take(i)));
        assert(t.last() == s[i]);
    } else {
        assert(s.take(i) =~= s);
    }
}

/// The canonical digits of `n` are digits and denote `n`.
pub proof fn lemma_digits_of_val(n: nat)
    ensures
        all_digits(digits_of(n)),
        digits_val(digits_of(n)) == n,
        digits_of(n).len() >= 1,
    decreases n,
{
    if n < 10 {
        let s = digits_of(n);
        assert(s =~= seq![(BYTE_ZERO + n) as u8]);
        assert(s.drop_last() =~= Seq::<u8>::empty());
        assert(digits_val(s.drop_last()) == 0);
        assert(digits_val(s) == (s.last() - BYTE_ZERO));
    } else {
        lemma_digits_of_val(n / 10);
        let d = (BYTE_ZERO + n % 10) as u8;
        let w = digits_of(n / 10).push(d);
        assert(w.drop_last() =~= digits_of(n / 10));
        assert(digits_val(w) == digits_val(digits_of(n / 10)) * 10 + (d - BYTE_ZERO));
        assert((n / 10) * 10 + n % 10 == n) by (nonlinear_arith);
        assert(forall|i: int| 0 <= i < w.len() ==> is_digit(#[trigger] w[i]));
    }
}

/// Parsing the canonical decimal rendering of any integer recovers it:
/// numbers survive the trip through their JSON text unchanged.
pub proof fn lemma_int_digits_parse(i: int)
    ensures
        spec_parse_int(int_digits(i)) == Some(i),
{
    if i < 0 {
        let m = (-i) as nat;
        lemma_digits_of_val(m);
        let s = seq![BYTE_MINUS] + digits_of(m);
        assert(s[0] == BYTE_MINUS);
        assert(s.skip(1) =~= digits_of(m));
        assert(spec_parse_int(s) == Some(-digits_val(digits_of(m))));
    } else {
        let s = digits_of(i as nat);
        lemma_digits_of_val(i as nat);
        assert(is_digit(s[0]));
        assert(s[0] != BYTE_MINUS && s[0] != BYTE_PLUS);
        assert(spec_parse_int(s) == Some(digits_val(s)));
    }
}

/// Append the canonical decimal digits of `n`.
pub fn push_u64_digits(out: &mut Vec<u8>, n: u64)
    ensures
        final(out)@ == old(out)@ + digits_of(n as nat),
    decreases n,
{
    if n < 10 {
        out.push(BYTE_ZERO + (n as u8));
        assert(out@ =~= old(out)@ + digits_of(n as nat));
    } else {
        assert(n / 10 < n) by (nonlinear_arith)
            requires
                n >= 10,
        ;
        push_u64_digits(out, n / 10);
        out.push(BYTE_ZERO + ((n % 10) as u8));
        assert(out@ =~= old(out)@ + digits_of(n as nat));
    }
}

/// Append the canonical decimal rendering of `i`.
pub fn push_int_digits(out: &mut Vec<u8>, i: i64)
    ensures
        final(out)@ == old(out)@ + int_digits(i as int),
{
    if i < 0 {
        out.push(BYTE_MINUS);
        let m: u64 = if i == i64::MIN {
            9223372036854775808
        } else {
            (-i) as u64
        };
        assert(m as int == -(i as int));
        push_u64_digits(out, m);
        assert(out@ =~= old(out)@ + int_digits(i as int));
    } else {
        push_u64_digits(out, i as u64);
    }
}

/// Parse a decimal integer literal into an `i32`, exactly as the
/// mathematical parse: `Some` on a well-formed literal whose value fits,
/// `None` on malformed text or a value out of the `i32` range.
#[verifier::loop_isolation(false)]
pub fn parse_i32(s: &[u8]) -> (r: Option<i32>)
    ensures
        r is Some ==> spec_parse_int(s@) == Some(r.unwrap() as int),
        r is None ==> spec_parse_int(s@) is None || !(i32::MIN <= spec_parse_int(
            s@,
        ).unwrap() <= i32::MAX),
{
    if s.len() == 0 {
        return None;
    }
    let neg = s[0] == BYTE_MINUS;
    let idx: usize = if s[0] == BYTE_MINUS || s[0] == BYTE_PLUS {
        1
    } else {
        0
    };
    let ghost body = s@.skip(idx as int);
    proof {
        if idx == 0 {
            assert(body =~= s@);
        }
    }
    if s.len() == idx {
        assert(body.len() == 0);
        return None;
    }
    let mut acc: u64 = 0;
    let mut i: usize = idx;
    while i < s.len()
        invariant
            idx <= i <= s@.len(),
            idx <= 1,
            body == s@.skip(idx as int),
            all_digits(body.take(i - idx)),
            acc == digits_val(body.take(i - idx)),
            acc < 4294967296,
        decreases s@.len() - i,
    {
        let b = s[i];
        if b < BYTE_ZERO || b > BYTE_NINE {
            assert(body[i - idx] == b);
            assert(!all_digits(body));
            return None;
        }
        let next: u64 = acc * 10 + ((b - BYTE_ZERO) as u64);
        proof {
            let t = body.take(i + 1 - idx);
            assert(t.drop_last() =~= body.take(i - idx));
            assert(t.last() == body[i - idx] && body[i - idx] == b);
        }
        if next >= 4294967296 {
            proof {
                assert(all_digits(body.take(i + 1 - idx)));
                if all_digits(body) {
                    lemma_digits_val_take_le(body, i + 1 - idx);
                    assert(digits_val(body) >= next >= 4294967296);
                }
            }
            return None;
        }
        acc = next;
        i = i + 1;
    }
    assert(body.take(i - idx) =~= body);
    if neg {
        if acc <= 2147483648 {
            let v: i64 = -(acc as i64);
            assert(spec_parse_int(s@) == Some(-digits_val(body)));
            Some(v as i32)
        } else {
            None
        }
    } else {
        if acc <= 2147483647 {
            assert(spec_parse_int(s@) == Some(digits_val(body)));
            Some(acc as i32)
        } else {
            None
        }
    }
}

// ------------------------------------------------------------------
// String escaping.
// ------------------------------------------------------------------

/// Lowercase hex digit of a value below 16.
pub open spec fn hex_digit(v: u8) -> u8 {
    if v < 10 {
        (BYTE_ZERO + v) as u8
    } else {
        (BYTE_LOWER_A + v - 10) as u8
    }
}

pub open spec fn is_hex_lower(b: u8) -> bool {
    is_digit(b) || (BYTE_LOWER_A <= b && b <= BYTE_LOWER_F)
}

pub open spec fn hex_value(b: u8) -> int {
    if is_digit(b) {
        b - BYTE_ZERO
    } else {
        b - BYTE_LOWER_A + 10
    }
}

/// How one byte appears inside a JSON string literal: `"` and `\` get a
/// backslash escape, control bytes become `\u00xx`, all else stands as is.
pub open spec fn escaped_byte(b: u8) -> Seq<u8> {
    if b == BYTE_QUOTE {
        seq![BYTE_BACKSLASH, BYTE_QUOTE]
    } else if b == BYTE_BACKSLASH {
        seq![BYTE_BACKSLASH, BYTE_BACKSLASH]
    } else if b < 32 {
        seq![BYTE_BACKSLASH, BYTE_LOWER_U, BYTE_ZERO, BYTE_ZERO, hex_digit(b / 16), hex_digit(
            b % 16,
        )]
    } else {
        seq![b]
    }
}

/// The body of a JSON string literal holding the bytes of `s`.
pub open spec fn escape_bytes(s: Seq<u8>) -> Seq<u8>
    decreases s.len(),
{
    if s.len() == 0 {
        Seq::empty()
    } else {
        escaped_byte(s[0]) + escape_bytes(s.skip(1))
    }
}

pub proof fn lemma_escape_push(s: Seq<u8>, b: u8)
    ensures
        escape_bytes(s.push(b)) == escape_bytes(s) + escaped_byte(b),
    decreases s.len(),
{
    if s.len() == 0 {
        assert(s =~= Seq::<u8>::empty());
        assert(s.push(b)[0] == b);
        assert(s.push(b).skip(1) =~= s);
        assert(escape_bytes(s.push(b)) == escaped_byte(b) + escape_bytes(s));
        assert(escape_bytes(s) =~= Seq::<u8>::empty());
        assert(escape_bytes(s.push(b)) =~= escape_bytes(s) + escaped_byte(b));
    } else {
        let p = s.push(b);
        assert(p[0] == s[0]);
        assert(p.skip(1) =~= s.skip(1).push(b));
        lemma_escape_push(s.skip(1), b);
        assert(escape_bytes(p) == escaped_byte(s[0]) + escape_bytes(s.skip(1).push(b)));
        assert(escape_bytes(p) =~= escape_bytes(s) + escaped_byte(b));
    }
}

pub open spec fn prepend_byte(b: u8, rest: Option<Seq<u8>>) -> Option<Seq<u8>> {
    match rest {
        Some(t) => Some(seq![b] + t),
        None => None,
    }
}

/// Decode the body of a JSON string literal as this library emits it:
/// the inverse of `escape_bytes`, `None` on text that is not in the
/// emitted form.
pub open spec fn unescape_bytes(s: Seq<u8>) -> Option<Seq<u8>>
    decreases s.len(),
{
    if s.len() == 0 {
        Some(Seq::empty())
    } else if s[0] == BYTE_BACKSLASH {
        if s.len() >= 2 && s[1] == BYTE_QUOTE {
            prepend_byte(BYTE_QUOTE, unescape_bytes(s.skip(2)))
        } else if s.len() >= 2 && s[1] == BYTE_BACKSLASH {
            prepend_byte(BYTE_BACKSLASH, unescape_bytes(s.skip(2)))
        } else if s.len() >= 6 && s[1] == BYTE_LOWER_U && s[2] == BYTE_ZERO && s[3] == BYTE_ZERO
            && is_hex_lower(s[4]) && is_hex_lower(s[5]) && hex_value(s[4]) * 16 + hex_value(s[5])
            < 32 {
            prepend_byte((hex_value(s[4]) * 16 + hex_value(s[5])) as u8, unescape_bytes(s.skip(6)))
        } else {
            None
        }
    } else if s[0] == BYTE_QUOTE || s[0] < 32 {
        None
    } else {
        prepend_byte(s[0], unescape_bytes(s.skip(1)))
    }
}

/// Escaping loses nothing: decoding an escaped string recovers the
/// original bytes exactly.
pub proof fn lemma_unescape_escape(s: Seq<u8>)
    ensures
        unescape_bytes(escape_bytes(s)) == Some(s),
    decreases s.len(),
{
    if s.len() == 0 {
        assert(Seq::<u8>::empty() =~= s);
    } else {
        let b = s[0];
        let rest = s.skip(1);
        lemma_unescape_escape(rest);
        let e = escape_bytes(s);
        assert(e == escaped_byte(b) + escape_bytes(rest));
        if b == BYTE_QUOTE {
            assert(e.skip(2) =~= escape_bytes(rest));
            assert(seq![b] + rest =~= s);
        } else if b == BYTE_BACKSLASH {
            assert(e.skip(2) =~= escape_bytes(rest));
            assert(seq![b] + rest =~= s);
        } else if b < 32 {
            assert(e.skip(6) =~= escape_bytes(rest));
            assert(b / 16 < 16 && b % 16 < 16);
            assert(is_hex_lower(hex_digit(b / 16)) && hex_value(hex_digit(b / 16)) == b / 16);
            assert(is_hex_lower(hex_digit(b % 16)) && hex_value(hex_digit(b % 16)) == b % 16);
            assert((b / 16) * 16 + b % 16 == b) by (nonlinear_arith);
            assert(seq![b] + rest =~= s);
        } else {
            assert(e.skip(1) =~= escape_bytes(rest));
            assert(seq![b] + rest =~= s);
        }
    }
}

fn hex_digit_exec(v: u8) -> (r: u8)
    requires
        v < 16,
    ensures
        r == hex_digit(v),
{
    if v < 10 {
        BYTE_ZERO + v
    } else {
        BYTE_LOWER_A + v - 10
    }
}

/// Append the escaped form of `s`.
pub fn push_escaped(out: &mut Vec<u8>, s: &[u8])
    ensures
        final(out)@ == old(out)@ + escape_bytes(s@),
{
    let ghost orig = out@;
    let mut i: usize = 0;
    while i < s.len()
        invariant
            i <= s@.len(),
            out@ == orig + escape_bytes(s@.take(i as int)),
        decreases s@.len() - i,
    {
        let b = s[i];
        if b == BYTE_QUOTE {
            out.push(BYTE_BACKSLASH);
            out.push(BYTE_QUOTE);
        } else if b == BYTE_BACKSLASH {
            out.push(BYTE_BACKSLASH);
            out.push(BYTE_BACKSLASH);
        } else if b < 32 {
            out.push(BYTE_BACKSLASH);
            out.push(BYTE_LOWER_U);
            out.push(BYTE_ZERO);
            out.push(BYTE_ZERO);
            out.push(hex_digit_exec(b / 16));
            out.push(hex_digit_exec(b % 16));
        } else {
            out.push(b);
        }
        proof {
            lemma_escape_push(s@.take(i as int), b);
            assert(s@.take(i + 1 as int) =~= s@.take(i as int).push(b));
            assert(out@ =~= orig + escape_bytes(s@.take(i + 1 as int)));
        }
        i = i + 1;
    }
    proof {
        assert(s@.take(s@.len() as int) =~= s@);
    }
}

// ------------------------------------------------------------------
// Serialization of values, records, and arrays of records.
// ------------------------------------------------------------------

/// A JSON string literal holding the bytes of `s`.
pub open spec fn string_bytes(s: Seq<u8>) -> Seq<u8> {
    seq![BYTE_QUOTE] + escape_bytes(s) + seq![BYTE_QUOTE]
}

/// The byte rendering of one JSON value.
pub open spec fn value_bytes(v: JsonValueModel) -> Seq<u8> {
    match v {
        JsonValueModel::Null => seq![BYTE_LOWER_N, BYTE_LOWER_U, BYTE_LOWER_L, BYTE_LOWER_L],
        JsonValueModel::Int(i) => int_digits(i),
        JsonValueModel::Str(s) => string_bytes(s),
    }
}

/// The byte rendering of one `name:value` field.
pub open spec fn field_bytes(f: (Seq<u8>, JsonValueModel)) -> Seq<u8> {
    string_bytes(f.0) + seq![BYTE_COLON] + value_bytes(f.1)
}

/// Comma-joined fields of one record.
pub open spec fn fields_bytes(fs: Seq<(Seq<u8>, JsonValueModel)>) -> Seq<u8>
    decreases fs.len(),
{
    if fs.len() == 0 {
        Seq::empty()
    } else if fs.len() == 1 {
        field_bytes(fs[0])
    } else {
        fields_bytes(fs.drop_last()) + seq![BYTE_COMMA] + field_bytes(fs.last())
    }
}

/// The byte rendering of one record object.
pub open spec fn record_bytes(r: Seq<(Seq<u8>, JsonValueModel)>) -> Seq<u8> {
    seq![BYTE_LBRACE] + fields_bytes(r) + seq![BYTE_RBRACE]
}

/// Comma-joined renderings of a sequence of records.
pub open spec fn record_items_bytes(rs: Seq<Seq<(Seq<u8>, JsonValueModel)>>) -> Seq<u8>
    decreases rs.len(),
{
    if rs.len() == 0 {
        Seq::empty()
    } else if rs.len() == 1 {
        record_bytes(rs[0])
    } else {
        record_items_bytes(rs.drop_last()) + seq![BYTE_COMMA] + record_bytes(rs.last())
    }
}

/// The byte rendering of a JSON array of records. An empty sequence of
/// records renders as `[]`, never as `null`.
pub open spec fn records_array_bytes(rs: Seq<Seq<(Seq<u8>, JsonValueModel)>>) -> Seq<u8> {
    seq![BYTE_LBRACKET] + record_items_bytes(rs) + seq![BYTE_RBRACKET]
}

/// Append a quoted, escaped JSON string literal.
pub fn push_string(out: &mut Vec<u8>, s: &[u8])
    ensures
        final(out)@ == old(out)@ + string_bytes(s@),
{
    out.push(BYTE_QUOTE);
    push_escaped(out, s);
    out.push(BYTE_QUOTE);
    assert(out@ =~= old(out)@ + string_bytes(s@));
}

/// Append the byte rendering of one JSON value.
pub fn push_value(out: &mut Vec<u8>, v: &JsonValue)
    ensures
        final(out)@ == old(out)@ + value_bytes(v@),
{
    match v {
        JsonValue::Null => {
            out.push(BYTE_LOWER_N);
            out.push(BYTE_LOWER_U);
            out.push(BYTE_LOWER_L);
            out.push(BYTE_LOWER_L);
            assert(out@ =~= old(out)@ + value_bytes(v@));
        },
        JsonValue::Int(i) => {
            push_int_digits(out, *i);
        },
        JsonValue::Str(s) => {
            push_string(out, s.as_slice());
        },
    }
}

/// Append the byte rendering of one record object.
pub fn push_record(out: &mut Vec<u8>, r: &Record)
    ensures
        final(out)@ == old(out)@ + record_bytes(r@),
{
    let ghost orig = out@;
    out.push(BYTE_LBRACE);
    let mut i: usize = 0;
    while i < r.fields.len()
        invariant
            i <= r@.len(),
            r@.len() == r.fields@.len(),
            out@ == orig + seq![BYTE_LBRACE] + fields_bytes(r@.take(i as int)),
        decreases r@.len() - i,
    {
        if i > 0 {
            out.push(BYTE_COMMA);
        }
        let f = &r.fields[i];
        push_string(out, f.0.as_slice());
        out.push(BYTE_COLON);
        push_value(out, &f.1);
        proof {
            let fs = r@.take(i + 1 as int);
            assert(fs.last() == r@[i as int]);
            assert(r@[i as int] == (r.fields@[i as int].0@, r.fields@[i as int].1@));
            if i > 0 {
                assert(fs.drop_last() =~= r@.take(i as int));
            }
            assert(out@ =~= orig + seq![BYTE_LBRACE] + fields_bytes(r@.take(i + 1 as int)));
        }
        i = i + 1;
    }
    out.push(BYTE_RBRACE);
    proof {
        assert(r@.take(r@.len() as int) =~= r@);
        assert(out@ =~= orig + record_bytes(r@));
    }
}

/// Model of a vector of records as a sequence of record models.
pub open spec fn records_model(rs: Seq<Record>) -> Seq<Seq<(Seq<u8>, JsonValueModel)>> {
    rs.map_values(|r: Record| r@)
}

/// Serialize a sequence of records as one JSON array. The output is a
/// function of the records alone, so equal record sequences always give
/// identical bytes.
pub fn records_to_json(records: &Vec<Record>) -> (out: Vec<u8>)
    ensures
        out@ == records_array_bytes(records_model(records@)),
{
    let mut out: Vec<u8> = Vec::new();
    out.push(BYTE_LBRACKET);
    let ghost model = records_model(records@);
    let mut i: usize = 0;
    while i < records.len()
        invariant
            i <= records@.len(),
            model == records_model(records@),
            model.len() == records@.len(),
            out@ == seq![BYTE_LBRACKET] + record_items_bytes(model.take(i as int)),
        decreases records@.len() - i,
    {
        if i > 0 {
            out.push(BYTE_COMMA);
        }
        push_record(&mut out, &records[i]);
        proof {
            let items = model.take(i + 1 as int);
            assert(items.last() == model[i as int]);
            assert(model[i as int] == records@[i as int]@);
            if i > 0 {
                assert(items.drop_last() =~= model.take(i as int));
            }
            assert(out@ =~= seq![BYTE_LBRACKET] + record_items_bytes(model.take(i + 1 as int)));
        }
        i = i + 1;
    }
    out.push(BYTE_RBRACKET);
    proof {
        assert(model.take(model.len() as int) =~= model);
        assert(out@ =~= records_array_bytes(model));
    }
    out
}

} // verus!
