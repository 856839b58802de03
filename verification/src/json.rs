//! A small JSON document model with a verified text codec.
//!
//! The codec emits the compact form: no whitespace between tokens,
//! object fields in the order they are held, strings with the escapes
//! `\"`, `\\`, `\n`, `\r`, `\t`. Numbers in machine range are held as
//! integers; every other number — fractions, exponents, integers out of
//! range — is held as its literal text and rendered back unchanged. The
//! parser also accepts whitespace between tokens, and parsing what was
//! emitted gives the value back ([`lemma_jparse_jtext`]).

use vstd::prelude::*;
use vstd::string::StrSliceExecFns;
use vstd::string::StringExecFns;
use crate::text::{is_ws, push_char, skip_ws};

verus! {

broadcast use crate::text::lemma_skip_ws_len;

/// An in-memory JSON document.
pub enum JsonValue {
    Null,
    Bool(bool),
    Int(i64),
    Num(String),
    Text(String),
    Arr(Vec<JsonValue>),
    Obj(Vec<(String, JsonValue)>),
}

/// The mathematical shape of a JSON document.
pub enum JsonModel {
    Null,
    Bool(bool),
    Int(int),
    Num(Seq<char>),
    Text(Seq<char>),
    Arr(Seq<JsonModel>),
    Obj(Seq<(Seq<char>, JsonModel)>),
}

pub open spec fn jview(v: JsonValue) -> JsonModel
    decreases v,
{
    match v {
        JsonValue::Null => JsonModel::Null,
        JsonValue::Bool(b) => JsonModel::Bool(b),
        JsonValue::Int(n) => JsonModel::Int(n as int),
        JsonValue::Num(s) => JsonModel::Num(s@),
        JsonValue::Text(s) => JsonModel::Text(s@),
        JsonValue::Arr(elems) => JsonModel::Arr(jview_list(elems@)),
        JsonValue::Obj(fields) => JsonModel::Obj(jview_fields(fields@)),
    }
}

pub open spec fn jview_list(elems: Seq<JsonValue>) -> Seq<JsonModel>
    decreases elems,
{
    if elems.len() == 0 {
        Seq::empty()
    } else {
        seq![jview(elems[0])] + jview_list(elems.drop_first())
    }
}

pub open spec fn jview_fields(fields: Seq<(String, JsonValue)>) -> Seq<(Seq<char>, JsonModel)>
    decreases fields,
{
    if fields.len() == 0 {
        Seq::empty()
    } else {
        seq![(fields[0].0@, jview(fields[0].1))] + jview_fields(fields.drop_first())
    }
}

impl View for JsonValue {
    type V = JsonModel;

    open spec fn view(&self) -> JsonModel {
        jview(*self)
    }
}

/// Integers the in-memory document can hold.
pub open spec fn jm_wf(m: JsonModel) -> bool
    decreases m,
{
    match m {
        JsonModel::Null => true,
        JsonModel::Bool(_) => true,
        JsonModel::Int(n) => -0x8000_0000_0000_0000 <= n <= 0x7fff_ffff_ffff_ffff,
        JsonModel::Num(s) => num_canonical(s),
        JsonModel::Text(_) => true,
        JsonModel::Arr(ms) => jm_list_wf(ms),
        JsonModel::Obj(fs) => jm_fields_wf(fs),
    }
}

pub open spec fn jm_list_wf(ms: Seq<JsonModel>) -> bool
    decreases ms,
{
    if ms.len() == 0 {
        true
    } else {
        jm_wf(ms[0]) && jm_list_wf(ms.drop_first())
    }
}

pub open spec fn jm_fields_wf(fs: Seq<(Seq<char>, JsonModel)>) -> bool
    decreases fs,
{
    if fs.len() == 0 {
        true
    } else {
        jm_wf(fs[0].1) && jm_fields_wf(fs.drop_first())
    }
}

/// Every literal-number text in the document is well formed. Parsed
/// documents always are; a hand-built document must be checked with
/// [`check_number_texts`] before its text is round-tripped.
pub open spec fn jm_nums_wf(m: JsonModel) -> bool
    decreases m,
{
    match m {
        JsonModel::Num(s) => num_canonical(s),
        JsonModel::Arr(ms) => jm_list_nums_wf(ms),
        JsonModel::Obj(fs) => jm_fields_nums_wf(fs),
        _ => true,
    }
}

pub open spec fn jm_list_nums_wf(ms: Seq<JsonModel>) -> bool
    decreases ms,
{
    if ms.len() == 0 {
        true
    } else {
        jm_nums_wf(ms[0]) && jm_list_nums_wf(ms.drop_first())
    }
}

pub open spec fn jm_fields_nums_wf(fs: Seq<(Seq<char>, JsonModel)>) -> bool
    decreases fs,
{
    if fs.len() == 0 {
        true
    } else {
        jm_nums_wf(fs[0].1) && jm_fields_nums_wf(fs.drop_first())
    }
}

/// A well-formed document has well-formed number texts.
pub proof fn lemma_jm_wf_nums(m: JsonModel)
    requires
        jm_wf(m),
    ensures
        jm_nums_wf(m),
    decreases m,
{
    match m {
        JsonModel::Arr(ms) => {
            lemma_jm_list_wf_nums(ms);
        },
        JsonModel::Obj(fs) => {
            lemma_jm_fields_wf_nums(fs);
        },
        _ => {},
    }
}

proof fn lemma_jm_list_wf_nums(ms: Seq<JsonModel>)
    requires
        jm_list_wf(ms),
    ensures
        jm_list_nums_wf(ms),
    decreases ms,
{
    if ms.len() > 0 {
        lemma_jm_wf_nums(ms[0]);
        lemma_jm_list_wf_nums(ms.drop_first());
    }
}

proof fn lemma_jm_fields_wf_nums(fs: Seq<(Seq<char>, JsonModel)>)
    requires
        jm_fields_wf(fs),
    ensures
        jm_fields_nums_wf(fs),
    decreases fs,
{
    if fs.len() > 0 {
        lemma_jm_wf_nums(fs[0].1);
        lemma_jm_fields_wf_nums(fs.drop_first());
    }
}

// ------------------------------------------------------------------
// Canonical text of a document
// ------------------------------------------------------------------

/// How one character appears inside a quoted string.
pub open spec fn esc_char(c: char) -> Seq<char> {
    if c == '"' {
        seq!['\\', '"']
    } else if c == '\\' {
        seq!['\\', '\\']
    } else if c == '\n' {
        seq!['\\', 'n']
    } else if c == '\r' {
        seq!['\\', 'r']
    } else if c == '\t' {
        seq!['\\', 't']
    } else {
        seq![c]
    }
}

pub open spec fn esc_text(s: Seq<char>) -> Seq<char>
    decreases s.len(),
{
    if s.len() == 0 {
        Seq::empty()
    } else {
        esc_char(s[0]) + esc_text(s.drop_first())
    }
}

pub open spec fn dec_digit(d: nat) -> char {
    if d == 0 { '0' }
    else if d == 1 { '1' }
    else if d == 2 { '2' }
    else if d == 3 { '3' }
    else if d == 4 { '4' }
    else if d == 5 { '5' }
    else if d == 6 { '6' }
    else if d == 7 { '7' }
    else if d == 8 { '8' }
    else { '9' }
}

pub open spec fn dec_text(n: nat) -> Seq<char>
    decreases n,
{
    if n < 10 {
        seq![dec_digit(n)]
    } else {
        dec_text(n / 10).push(dec_digit(n % 10))
    }
}

pub open spec fn int_text(n: int) -> Seq<char> {
    if n < 0 {
        seq!['-'] + dec_text((-n) as nat)
    } else {
        dec_text(n as nat)
    }
}

pub open spec fn jtext(m: JsonModel) -> Seq<char>
    decreases m,
{
    match m {
        JsonModel::Null => seq!['n', 'u', 'l', 'l'],
        JsonModel::Bool(b) => if b {
            seq!['t', 'r', 'u', 'e']
        } else {
            seq!['f', 'a', 'l', 's', 'e']
        },
        JsonModel::Int(n) => int_text(n),
        JsonModel::Num(s) => s,
        JsonModel::Text(s) => seq!['"'] + esc_text(s) + seq!['"'],
        JsonModel::Arr(ms) => seq!['['] + jtext_items(ms) + seq![']'],
        JsonModel::Obj(fs) => seq!['{'] + jtext_fields(fs) + seq!['}'],
    }
}

pub open spec fn jtext_items(ms: Seq<JsonModel>) -> Seq<char>
    decreases ms,
{
    if ms.len() == 0 {
        Seq::empty()
    } else if ms.len() == 1 {
        jtext(ms[0])
    } else {
        jtext(ms[0]) + seq![','] + jtext_items(ms.drop_first())
    }
}

pub open spec fn jtext_fields(fs: Seq<(Seq<char>, JsonModel)>) -> Seq<char>
    decreases fs,
{
    if fs.len() == 0 {
        Seq::empty()
    } else {
        let head = seq!['"'] + esc_text(fs[0].0) + seq!['"', ':'] + jtext(fs[0].1);
        if fs.len() == 1 {
            head
        } else {
            head + seq![','] + jtext_fields(fs.drop_first())
        }
    }
}

// ------------------------------------------------------------------
// The parser, at the specification level
// ------------------------------------------------------------------

pub open spec fn is_digit(c: char) -> bool {
    48 <= c as u32 <= 57
}

pub open spec fn digit_val(c: char) -> nat {
    (c as u32 - 48) as nat
}

/// What one escape code stands for.
pub open spec fn unesc_char(c: char) -> Option<char> {
    if c == '"' { Some('"') }
    else if c == '\\' { Some('\\') }
    else if c == 'n' { Some('\n') }
    else if c == 'r' { Some('\r') }
    else if c == 't' { Some('\t') }
    else { None }
}

/// Read the remainder of a quoted string (the opening quote already
/// consumed), up to and including the closing quote.
pub open spec fn parse_text_body(s: Seq<char>) -> Option<(Seq<char>, Seq<char>)>
    decreases s.len(),
{
    if s.len() == 0 {
        None
    } else if s[0] == '"' {
        Some((Seq::empty(), s.skip(1)))
    } else if s[0] == '\\' {
        if s.len() >= 2 {
            match unesc_char(s[1]) {
                Some(c) => match parse_text_body(s.skip(2)) {
                    Some((t, r)) => Some((seq![c] + t, r)),
                    None => None,
                },
                None => None,
            }
        } else {
            None
        }
    } else {
        match parse_text_body(s.skip(1)) {
            Some((t, r)) => Some((seq![s[0]] + t, r)),
            None => None,
        }
    }
}

/// A text of decimal digits only.
pub open spec fn all_digits(s: Seq<char>) -> bool {
    forall|i: int| 0 <= i < s.len() ==> is_digit(#[trigger] s[i])
}

/// Split off the longest leading run of decimal digits.
pub open spec fn split_digits(s: Seq<char>) -> (Seq<char>, Seq<char>)
    decreases s.len(),
{
    if s.len() > 0 && is_digit(s[0]) {
        let (run, rest) = split_digits(s.skip(1));
        (seq![s[0]] + run, rest)
    } else {
        (Seq::empty(), s)
    }
}

/// The number a digit run denotes.
pub open spec fn digits_val(s: Seq<char>) -> nat
    decreases s.len(),
{
    if s.len() == 0 {
        0
    } else {
        digits_val(s.drop_last()) * 10 + digit_val(s.last())
    }
}

/// A character that can continue a number lexeme.
pub open spec fn is_num_cont(c: char) -> bool {
    is_digit(c) || c == '.' || c == 'e' || c == 'E'
}

/// Split off a fraction part: a point followed by at least one digit.
pub open spec fn split_frac(s: Seq<char>) -> (Seq<char>, Seq<char>) {
    if s.len() >= 2 && s[0] == '.' && is_digit(s[1]) {
        let (run, r) = split_digits(s.skip(1));
        (seq!['.'] + run, r)
    } else {
        (Seq::empty(), s)
    }
}

/// Split off an exponent part: `e` or `E`, an optional sign, and at
/// least one digit.
pub open spec fn split_exp(s: Seq<char>) -> (Seq<char>, Seq<char>) {
    if s.len() >= 2 && (s[0] == 'e' || s[0] == 'E') && is_digit(s[1]) {
        let (run, r) = split_digits(s.skip(1));
        (seq![s[0]] + run, r)
    } else if s.len() >= 3 && (s[0] == 'e' || s[0] == 'E') && (s[1] == '+' || s[1] == '-')
        && is_digit(s[2]) {
        let (run, r) = split_digits(s.skip(2));
        (seq![s[0], s[1]] + run, r)
    } else {
        (Seq::empty(), s)
    }
}

/// The texts the literal-number variant may hold: a whole number lexeme
/// that is not a plain integer in machine range (those are held as
/// integers instead).
pub open spec fn num_canonical(s: Seq<char>) -> bool {
    let neg = s.len() > 0 && s[0] == '-';
    let body = if neg {
        s.skip(1)
    } else {
        s
    };
    let (run, r1) = split_digits(body);
    let (frac, r2) = split_frac(r1);
    let (expo, r3) = split_exp(r2);
    &&& run.len() > 0
    &&& r3.len() == 0
    &&& (frac.len() > 0 || expo.len() > 0 || (if neg {
        digits_val(run) > 0x8000_0000_0000_0000
    } else {
        digits_val(run) > 0x7fff_ffff_ffff_ffff
    }))
}

pub open spec fn jparse(s: Seq<char>) -> Option<(JsonModel, Seq<char>)>
    decreases s.len(), 0int,
{
    let t = skip_ws(s);
    if t.len() == 0 {
        None
    } else if t[0] == 'n' {
        if t.len() >= 4 && t[1] == 'u' && t[2] == 'l' && t[3] == 'l' {
            Some((JsonModel::Null, t.skip(4)))
        } else {
            None
        }
    } else if t[0] == 't' {
        if t.len() >= 4 && t[1] == 'r' && t[2] == 'u' && t[3] == 'e' {
            Some((JsonModel::Bool(true), t.skip(4)))
        } else {
            None
        }
    } else if t[0] == 'f' {
        if t.len() >= 5 && t[1] == 'a' && t[2] == 'l' && t[3] == 's' && t[4] == 'e' {
            Some((JsonModel::Bool(false), t.skip(5)))
        } else {
            None
        }
    } else if t[0] == '"' {
        match parse_text_body(t.skip(1)) {
            Some((body, r)) => Some((JsonModel::Text(body), r)),
            None => None,
        }
    } else if t[0] == '[' {
        let r1 = skip_ws(t.skip(1));
        if r1.len() > 0 && r1[0] == ']' {
            Some((JsonModel::Arr(Seq::empty()), r1.skip(1)))
        } else {
            match jparse_items(t.skip(1)) {
                Some((ms, r2)) => {
                    let r2s = skip_ws(r2);
                    if r2s.len() > 0 && r2s[0] == ']' {
                        Some((JsonModel::Arr(ms), r2s.skip(1)))
                    } else {
                        None
                    }
                },
                None => None,
            }
        }
    } else if t[0] == '{' {
        let r1 = skip_ws(t.skip(1));
        if r1.len() > 0 && r1[0] == '}' {
            Some((JsonModel::Obj(Seq::empty()), r1.skip(1)))
        } else {
            match jparse_fields(t.skip(1)) {
                Some((fs, r2)) => {
                    let r2s = skip_ws(r2);
                    if r2s.len() > 0 && r2s[0] == '}' {
                        Some((JsonModel::Obj(fs), r2s.skip(1)))
                    } else {
                        None
                    }
                },
                None => None,
            }
        }
    } else if t[0] == '-' || is_digit(t[0]) {
        let neg = t[0] == '-';
        let body = if neg {
            t.skip(1)
        } else {
            t
        };
        let (run, r1) = split_digits(body);
        if run.len() == 0 {
            None
        } else {
            let (frac, r2) = split_frac(r1);
            let (expo, r3) = split_exp(r2);
            if frac.len() == 0 && expo.len() == 0 {
                if neg {
                    if digits_val(run) <= 0x8000_0000_0000_0000 {
                        Some((JsonModel::Int(-(digits_val(run) as int)), r1))
                    } else {
                        Some((JsonModel::Num(seq!['-'] + run), r1))
                    }
                } else {
                    if digits_val(run) <= 0x7fff_ffff_ffff_ffff {
                        Some((JsonModel::Int(digits_val(run) as int), r1))
                    } else {
                        Some((JsonModel::Num(run), r1))
                    }
                }
            } else {
                let lex = (if neg {
                    seq!['-']
                } else {
                    Seq::<char>::empty()
                }) + run + frac + expo;
                Some((JsonModel::Num(lex), r3))
            }
        }
    } else {
        None
    }
}

pub open spec fn jparse_items(s: Seq<char>) -> Option<(Seq<JsonModel>, Seq<char>)>
    decreases s.len(), 1int,
{
    match jparse(s) {
        Some((m, r)) => {
            let rs = skip_ws(r);
            if rs.len() > 0 && rs[0] == ',' && rs.len() < s.len() {
                match jparse_items(rs.skip(1)) {
                    Some((ms, r2)) => Some((seq![m] + ms, r2)),
                    None => None,
                }
            } else {
                Some((seq![m], r))
            }
        },
        None => None,
    }
}

pub open spec fn jparse_fields(s: Seq<char>) -> Option<(Seq<(Seq<char>, JsonModel)>, Seq<char>)>
    decreases s.len(), 1int,
{
    let t = skip_ws(s);
    if t.len() > 0 && t[0] == '"' {
        match parse_text_body(t.skip(1)) {
            Some((k, r)) => {
                let rs = skip_ws(r);
                if rs.len() > 0 && rs[0] == ':' && rs.len() <= s.len() {
                    match jparse(rs.skip(1)) {
                        Some((m, r2)) => {
                            let r2s = skip_ws(r2);
                            if r2s.len() > 0 && r2s[0] == ',' && r2s.len() < s.len() {
                                match jparse_fields(r2s.skip(1)) {
                                    Some((fs, r3)) => Some((seq![(k, m)] + fs, r3)),
                                    None => None,
                                }
                            } else {
                                Some((seq![(k, m)], r2))
                            }
                        },
                        None => None,
                    }
                } else {
                    None
                }
            },
            None => None,
        }
    } else {
        None
    }
}

/// A whole document: one value and nothing after it.
pub open spec fn jparse_doc(s: Seq<char>) -> Option<JsonModel> {
    match jparse(s) {
        Some((m, rest)) => if skip_ws(rest).len() == 0 {
            Some(m)
        } else {
            None
        },
        None => None,
    }
}

// ------------------------------------------------------------------
// Parsing recovers what was emitted
// ------------------------------------------------------------------

pub proof fn lemma_text_roundtrip(t: Seq<char>, rest: Seq<char>)
    ensures
        parse_text_body(esc_text(t) + seq!['"'] + rest) == Some((t, rest)),
    decreases t.len(),
{
    let s = esc_text(t) + seq!['"'] + rest;
    if t.len() == 0 {
        assert(s =~= seq!['"'] + rest);
        assert(s.skip(1) =~= rest);
    } else {
        let c = t[0];
        let t1 = t.drop_first();
        assert(esc_text(t) == esc_char(c) + esc_text(t1));
        if c == '"' || c == '\\' || c == '\n' || c == '\r' || c == '\t' {
            let code = esc_char(c)[1];
            assert(s[0] == '\\');
            assert(s[1] == code);
            assert(unesc_char(code) == Some(c));
            assert(s.skip(2) =~= esc_text(t1) + seq!['"'] + rest);
            lemma_text_roundtrip(t1, rest);
            assert(seq![c] + t1 =~= t);
        } else {
            assert(esc_char(c) =~= seq![c]);
            assert(s[0] == c);
            assert(s.skip(1) =~= esc_text(t1) + seq!['"'] + rest);
            lemma_text_roundtrip(t1, rest);
            assert(seq![c] + t1 =~= t);
        }
    }
}

pub proof fn lemma_dec_text_digits(n: nat)
    ensures
        dec_text(n).len() > 0,
        all_digits(dec_text(n)),
        digits_val(dec_text(n)) == n,
    decreases n,
{
    if n < 10 {
        let d = dec_digit(n);
        assert(is_digit(d));
        assert(digit_val(d) == n);
        assert(dec_text(n) == seq![d]);
        assert(seq![d].drop_last() =~= Seq::<char>::empty());
        assert(seq![d].last() == d);
        assert(digits_val(seq![d]) == digits_val(Seq::<char>::empty()) * 10 + digit_val(d));
        assert(digits_val(Seq::<char>::empty()) == 0);
    } else {
        lemma_dec_text_digits(n / 10);
        let prefix = dec_text(n / 10);
        let d = n % 10;
        assert(dec_text(n) == prefix.push(dec_digit(d)));
        assert(prefix.push(dec_digit(d)).drop_last() =~= prefix);
        assert(prefix.push(dec_digit(d)).last() == dec_digit(d));
        assert(digit_val(dec_digit(d)) == d);
        assert(digits_val(dec_text(n)) == digits_val(prefix) * 10 + d);
        assert(digits_val(prefix) * 10 + d == n) by {
            assert(digits_val(prefix) == n / 10);
        }
        assert(all_digits(dec_text(n))) by {
            assert forall|i: int| 0 <= i < dec_text(n).len() implies is_digit(
                #[trigger] dec_text(n)[i],
            ) by {
                if i < prefix.len() {
                    assert(dec_text(n)[i] == prefix[i]);
                } else {
                    assert(dec_text(n)[i] == dec_digit(d));
                    assert(is_digit(dec_digit(d)));
                }
            }
        }
    }
}

pub proof fn lemma_split_digits(a: Seq<char>, b: Seq<char>)
    requires
        all_digits(a),
        b.len() == 0 || !is_digit(b[0]),
    ensures
        split_digits(a + b) == (a, b),
    decreases a.len(),
{
    if a.len() == 0 {
        assert(a + b =~= b);
        assert(split_digits(b) == (Seq::<char>::empty(), b));
        assert(a =~= Seq::<char>::empty());
    } else {
        assert((a + b)[0] == a[0]);
        assert((a + b).skip(1) =~= a.drop_first() + b);
        assert(all_digits(a.drop_first())) by {
            assert forall|i: int| 0 <= i < a.drop_first().len() implies is_digit(
                #[trigger] a.drop_first()[i],
            ) by {
                assert(a.drop_first()[i] == a[i + 1]);
            }
        }
        lemma_split_digits(a.drop_first(), b);
        assert(seq![a[0]] + a.drop_first() =~= a);
    }
}

/// `split_digits` decomposes its input: the run and the rest
/// concatenate back, the run is all digits, and the rest does not start
/// with one.
pub proof fn lemma_split_digits_decompose(s: Seq<char>)
    ensures
        ({
            let (run, rest) = split_digits(s);
            &&& s == run + rest
            &&& all_digits(run)
            &&& (rest.len() == 0 || !is_digit(rest[0]))
        }),
    decreases s.len(),
{
    if s.len() > 0 && is_digit(s[0]) {
        lemma_split_digits_decompose(s.skip(1));
        let (run1, rest1) = split_digits(s.skip(1));
        assert(s.skip(1) == run1 + rest1);
        assert(s =~= seq![s[0]] + s.skip(1));
        assert(s =~= (seq![s[0]] + run1) + rest1);
        assert(all_digits(seq![s[0]] + run1)) by {
            assert forall|i: int| 0 <= i < (seq![s[0]] + run1).len() implies is_digit(
                #[trigger] (seq![s[0]] + run1)[i],
            ) by {
                if i > 0 {
                    assert((seq![s[0]] + run1)[i] == run1[i - 1]);
                }
            }
        }
    } else {
        let (run, rest) = split_digits(s);
        assert(run =~= Seq::<char>::empty());
        assert(s =~= run + s);
    }
}

/// The pieces a well-formed number literal decomposes into.
proof fn lemma_num_decompose(lex: Seq<char>)
    requires
        num_canonical(lex),
    ensures
        ({
            let neg = lex.len() > 0 && lex[0] == '-';
            let body = if neg {
                lex.skip(1)
            } else {
                lex
            };
            let (run, r1) = split_digits(body);
            let (frac, r2) = split_frac(r1);
            let (expo, r3) = split_exp(r2);
            &&& body == run + r1
            &&& r1 == frac + r2
            &&& r2 == expo + r3
            &&& r3.len() == 0
            &&& run.len() > 0
            &&& all_digits(run)
            &&& (r1.len() == 0 || !is_digit(r1[0]))
            &&& lex.len() > 0
        }),
{
    let neg = lex.len() > 0 && lex[0] == '-';
    let body = if neg {
        lex.skip(1)
    } else {
        lex
    };
    let (run, r1) = split_digits(body);
    lemma_split_digits_decompose(body);
    let (frac, r2) = split_frac(r1);
    if frac.len() > 0 {
        lemma_split_digits_decompose(r1.skip(1));
        let (fr, fr_rest) = split_digits(r1.skip(1));
        assert(r1.skip(1) == fr + fr_rest);
        assert(r1 =~= seq![r1[0]] + r1.skip(1));
        assert(r1[0] == '.');
        assert(r1 =~= (seq!['.'] + fr) + fr_rest);
    }
    let (expo, r3) = split_exp(r2);
    if expo.len() > 0 {
        if r2.len() >= 2 && (r2[0] == 'e' || r2[0] == 'E') && is_digit(r2[1]) {
            lemma_split_digits_decompose(r2.skip(1));
            let (er, er_rest) = split_digits(r2.skip(1));
            assert(r2.skip(1) == er + er_rest);
            assert(r2 =~= seq![r2[0]] + r2.skip(1));
            assert(r2 =~= (seq![r2[0]] + er) + er_rest);
        } else {
            lemma_split_digits_decompose(r2.skip(2));
            let (er, er_rest) = split_digits(r2.skip(2));
            assert(r2.skip(2) == er + er_rest);
            assert(r2 =~= seq![r2[0], r2[1]] + r2.skip(2));
            assert(r2 =~= (seq![r2[0], r2[1]] + er) + er_rest);
        }
    }
}

/// Every well-formed document's text is non-empty.
pub proof fn lemma_jtext_nonempty(m: JsonModel)
    requires
        jm_wf(m),
    ensures
        jtext(m).len() > 0,
{
    match m {
        JsonModel::Int(n) => {
            if n < 0 {
            } else {
                lemma_dec_text_digits(n as nat);
            }
        },
        JsonModel::Num(s) => {
            lemma_num_decompose(s);
        },
        _ => {},
    }
}

/// A well-formed number literal parses back as itself.
#[verifier::rlimit(100)]
proof fn lemma_num_roundtrip(lex: Seq<char>, rest: Seq<char>)
    requires
        num_canonical(lex),
        rest.len() == 0 || !is_num_cont(rest[0]),
    ensures
        jparse(lex + rest) == Some((JsonModel::Num(lex), rest)),
{
    lemma_num_decompose(lex);
    let neg = lex.len() > 0 && lex[0] == '-';
    let body_l = if neg {
        lex.skip(1)
    } else {
        lex
    };
    let (run, r1l) = split_digits(body_l);
    let (frac, r2l) = split_frac(r1l);
    let (expo, r3l) = split_exp(r2l);
    let s = lex + rest;
    assert(s[0] == lex[0]);
    assert(!is_ws(s[0])) by {
        if !neg {
            assert(lex[0] == run[0]);
            assert(is_digit(lex[0]));
        }
    }
    assert(skip_ws(s) == s);
    assert(s[0] == '-' || is_digit(s[0])) by {
        if !neg {
            assert(lex[0] == run[0]);
        }
    }
    let body_i = if neg {
        s.skip(1)
    } else {
        s
    };
    let tail1 = frac + (expo + rest);
    assert(body_l == run + r1l);
    assert(r1l == frac + r2l);
    assert(r2l == expo + r3l);
    assert(r3l.len() == 0);
    assert(r2l =~= expo);
    assert(r1l =~= frac + expo);
    assert(body_l =~= run + (frac + expo));
    if neg {
        assert(lex =~= seq!['-'] + body_l);
    } else {
        assert(lex == body_l);
    }
    assert(body_i =~= body_l + rest);
    assert(body_i =~= run + tail1);
    assert(tail1.len() == 0 || !is_digit(tail1[0])) by {
        if frac.len() > 0 {
            assert(tail1[0] == frac[0]);
            assert(frac[0] == '.');
        } else if expo.len() > 0 {
            assert(tail1[0] == expo[0]);
            assert(expo[0] == 'e' || expo[0] == 'E');
        } else {
            assert(tail1 =~= rest);
        }
    }
    lemma_split_digits(run, tail1);
    assert(split_digits(body_i) == (run, tail1));
    // the fraction part of the input
    let tail2 = expo + rest;
    if frac.len() > 0 {
        lemma_split_digits_decompose(r1l.skip(1));
        let (fr, fr_rest) = split_digits(r1l.skip(1));
        assert(frac =~= seq!['.'] + fr);
        assert(tail1[0] == '.');
        assert(tail1[1] == fr[0]);
        assert(is_digit(tail1[1]));
        assert(tail1.skip(1) =~= fr + tail2);
        assert(tail2.len() == 0 || !is_digit(tail2[0])) by {
            if expo.len() > 0 {
                assert(tail2[0] == expo[0]);
            } else {
                assert(tail2 =~= rest);
            }
        }
        lemma_split_digits(fr, tail2);
        assert(split_frac(tail1) == (frac, tail2)) by {
            assert(seq!['.'] + fr =~= frac);
        }
    } else {
        assert(tail1 =~= tail2);
        assert(split_frac(tail1) == (Seq::<char>::empty(), tail1)) by {
            if tail1.len() >= 2 && tail1[0] == '.' {
                if expo.len() > 0 {
                    assert(tail1[0] == expo[0]);
                    assert(false);
                } else {
                    assert(tail1 =~= rest);
                    assert(!is_num_cont(rest[0]));
                    assert(false);
                }
            }
        }
    }
    // the exponent part of the input
    if expo.len() > 0 {
        if r2l.len() >= 2 && (r2l[0] == 'e' || r2l[0] == 'E') && is_digit(r2l[1]) {
            lemma_split_digits_decompose(r2l.skip(1));
            let (er, er_rest) = split_digits(r2l.skip(1));
            assert(expo =~= seq![r2l[0]] + er);
            assert(tail2[0] == r2l[0]);
            assert(tail2[1] == er[0]);
            assert(is_digit(tail2[1]));
            assert(tail2.skip(1) =~= er + rest);
            lemma_split_digits(er, rest);
            assert(split_exp(tail2) == (expo, rest)) by {
                assert(seq![tail2[0]] + er =~= expo);
            }
        } else {
            lemma_split_digits_decompose(r2l.skip(2));
            let (er, er_rest) = split_digits(r2l.skip(2));
            assert(expo =~= seq![r2l[0], r2l[1]] + er);
            assert(tail2[0] == r2l[0]);
            assert(tail2[1] == r2l[1]);
            assert(tail2[2] == er[0]);
            assert(is_digit(tail2[2]));
            assert(!is_digit(tail2[1]));
            assert(tail2.skip(2) =~= er + rest);
            lemma_split_digits(er, rest);
            assert(split_exp(tail2) == (expo, rest)) by {
                assert(seq![tail2[0], tail2[1]] + er =~= expo);
            }
        }
    } else {
        assert(tail2 =~= rest);
        assert(split_exp(tail2) == (Seq::<char>::empty(), tail2)) by {
            if tail2.len() >= 2 && (tail2[0] == 'e' || tail2[0] == 'E') {
                assert(!is_num_cont(rest[0]));
                assert(false);
            }
        }
    }
    // assemble
    if frac.len() == 0 && expo.len() == 0 {
        assert((s[0] == '-') == neg) by {
            if !neg {
                assert(s[0] == run[0]);
                assert(is_digit(s[0]));
            }
        }
        assert(jparse(s) == Some((JsonModel::Num(lex), rest))) by {
            if neg {
                assert(seq!['-'] + run =~= lex);
                assert(digits_val(run) > 0x8000_0000_0000_0000);
            } else {
                assert(run =~= lex);
                assert(digits_val(run) > 0x7fff_ffff_ffff_ffff);
            }
            assert(tail1 =~= rest);
        }
    } else {
        let sign = if neg {
            seq!['-']
        } else {
            Seq::<char>::empty()
        };
        assert((s[0] == '-') == neg) by {
            if !neg {
                assert(s[0] == run[0]);
                assert(is_digit(s[0]));
            }
        }
        assert(sign + run + frac + expo =~= lex);
        assert(jparse(s) == Some((JsonModel::Num(sign + run + frac + expo), rest)));
        assert(JsonModel::Num(sign + run + frac + expo) == JsonModel::Num(lex));
    }
}

#[verifier::rlimit(100)]
pub proof fn lemma_jparse_jtext(m: JsonModel, rest: Seq<char>)
    requires
        jm_wf(m),
        rest.len() == 0 || !is_num_cont(rest[0]),
    ensures
        jparse(jtext(m) + rest) == Some((m, rest)),
    decreases m,
{
    let s = jtext(m) + rest;
    lemma_jtext_first_char(m);
    assert(s[0] == jtext(m)[0]);
    assert(skip_ws(s) == s);
    match m {
        JsonModel::Null => {
            assert(s[0] == 'n' && s[1] == 'u' && s[2] == 'l' && s[3] == 'l');
            assert(s.skip(4) =~= rest);
            assert(jparse(s) == Some((m, rest)));
        },
        JsonModel::Bool(b) => {
            if b {
                assert(s[0] == 't' && s[1] == 'r' && s[2] == 'u' && s[3] == 'e');
                assert(s.skip(4) =~= rest);
            } else {
                assert(s[0] == 'f' && s[1] == 'a' && s[2] == 'l' && s[3] == 's' && s[4] == 'e');
                assert(s.skip(5) =~= rest);
            }
            assert(jparse(s) == Some((m, rest)));
        },
        JsonModel::Int(n) => {
            let run = if n < 0 {
                dec_text((-n) as nat)
            } else {
                dec_text(n as nat)
            };
            if n < 0 {
                lemma_dec_text_digits((-n) as nat);
                assert(s[0] == '-');
                assert(s.skip(1) =~= run + rest);
                assert(digits_val(run) == (-n) as nat);
            } else {
                lemma_dec_text_digits(n as nat);
                assert(s =~= run + rest);
                assert(s[0] == run[0]);
                assert(is_digit(s[0]));
                assert(s[0] != 'n' && s[0] != 't' && s[0] != 'f' && s[0] != '"' && s[0] != '['
                    && s[0] != '{' && s[0] != '-');
                assert(digits_val(run) == n as nat);
            }
            lemma_split_digits(run, rest);
            assert(split_frac(rest) == (Seq::<char>::empty(), rest)) by {
                if rest.len() >= 2 && rest[0] == '.' {
                    assert(is_num_cont(rest[0]));
                }
            }
            assert(split_exp(rest) == (Seq::<char>::empty(), rest)) by {
                if rest.len() >= 2 && (rest[0] == 'e' || rest[0] == 'E') {
                    assert(is_num_cont(rest[0]));
                }
            }
            assert(jparse(s) == Some((m, rest)));
        },
        JsonModel::Num(lex) => {
            lemma_num_roundtrip(lex, rest);
        },
        JsonModel::Text(t) => {
            assert(s[0] == '"');
            assert(s.skip(1) =~= esc_text(t) + seq!['"'] + rest);
            lemma_text_roundtrip(t, rest);
            assert(jparse(s) == Some((m, rest)));
        },
        JsonModel::Arr(ms) => {
            assert(s[0] == '[');
            let r1 = s.skip(1);
            let r2 = seq![']'] + rest;
            assert(r1 =~= jtext_items(ms) + r2);
            if ms.len() == 0 {
                assert(ms =~= Seq::<JsonModel>::empty());
                assert(r1 =~= r2);
                assert(r1[0] == ']');
                assert(skip_ws(r1) == r1);
                assert(r1.skip(1) =~= rest);
            } else {
                lemma_items_roundtrip(ms, r2);
                assert(jparse_items(r1) == Some((ms, r2)));
                assert(r1[0] != ']' && !is_ws(r1[0])) by {
                    lemma_jtext_first_char(ms[0]);
                    if ms.len() == 1 {
                        assert(jtext_items(ms) == jtext(ms[0]));
                    }
                    assert(r1[0] == jtext(ms[0])[0]);
                }
                assert(skip_ws(r1) == r1);
                assert(r2[0] == ']');
                assert(skip_ws(r2) == r2);
                assert(r2.skip(1) =~= rest);
            }
            assert(jparse(s) == Some((m, rest)));
        },
        JsonModel::Obj(fs) => {
            assert(s[0] == '{');
            let r1 = s.skip(1);
            let r2 = seq!['}'] + rest;
            assert(r1 =~= jtext_fields(fs) + r2);
            if fs.len() == 0 {
                assert(fs =~= Seq::<(Seq<char>, JsonModel)>::empty());
                assert(r1 =~= r2);
                assert(r1[0] == '}');
                assert(skip_ws(r1) == r1);
                assert(r1.skip(1) =~= rest);
            } else {
                lemma_fields_roundtrip(fs, r2);
                assert(jparse_fields(r1) == Some((fs, r2)));
                assert(r1[0] == '"') by {
                    assert(jtext_fields(fs)[0] == '"');
                }
                assert(skip_ws(r1) == r1);
                assert(r2[0] == '}');
                assert(skip_ws(r2) == r2);
                assert(r2.skip(1) =~= rest);
            }
            assert(jparse(s) == Some((m, rest)));
        },
    }
}

/// The first character of a well-formed value's text is never a
/// closing bracket, a comma, a closing brace, or whitespace.
proof fn lemma_jtext_first_char(m: JsonModel)
    requires
        jm_wf(m),
    ensures
        jtext(m).len() > 0,
        jtext(m)[0] != ']' && jtext(m)[0] != '}' && jtext(m)[0] != ',',
        !is_ws(jtext(m)[0]),
{
    match m {
        JsonModel::Int(n) => {
            if n < 0 {
            } else {
                lemma_dec_text_digits(n as nat);
                assert(is_digit(jtext(m)[0]));
            }
        },
        JsonModel::Num(s) => {
            lemma_num_decompose(s);
            let neg = s.len() > 0 && s[0] == '-';
            if !neg {
                let (run, r1) = split_digits(s);
                assert(s[0] == run[0]);
                assert(is_digit(s[0]));
            }
        },
        _ => {},
    }
}

proof fn lemma_items_roundtrip(ms: Seq<JsonModel>, rest: Seq<char>)
    requires
        ms.len() > 0,
        jm_list_wf(ms),
        rest.len() > 0,
        rest[0] == ']',
    ensures
        jparse_items(jtext_items(ms) + rest) == Some((ms, rest)),
    decreases ms,
{
    let s = jtext_items(ms) + rest;
    let m0 = ms[0];
    if ms.len() == 1 {
        assert(jtext_items(ms) == jtext(m0));
        lemma_jparse_jtext(m0, rest);
        assert(jparse(s) == Some((m0, rest)));
        assert(skip_ws(rest) == rest);
        assert(rest[0] != ',');
        assert(seq![m0] =~= ms);
    } else {
        let tail = seq![','] + jtext_items(ms.drop_first()) + rest;
        assert(s =~= jtext(m0) + tail);
        assert(tail[0] == ',');
        lemma_jparse_jtext(m0, tail);
        assert(jparse(s) == Some((m0, tail)));
        assert(skip_ws(tail) == tail);
        lemma_jtext_nonempty(m0);
        assert(tail.len() < s.len());
        assert(tail.skip(1) =~= jtext_items(ms.drop_first()) + rest);
        lemma_items_roundtrip(ms.drop_first(), rest);
        assert(seq![m0] + ms.drop_first() =~= ms);
    }
}

proof fn lemma_fields_roundtrip(fs: Seq<(Seq<char>, JsonModel)>, rest: Seq<char>)
    requires
        fs.len() > 0,
        jm_fields_wf(fs),
        rest.len() > 0,
        rest[0] == '}',
    ensures
        jparse_fields(jtext_fields(fs) + rest) == Some((fs, rest)),
    decreases fs,
{
    let s = jtext_fields(fs) + rest;
    let k = fs[0].0;
    let v = fs[0].1;
    let vtail = if fs.len() == 1 {
        rest
    } else {
        seq![','] + jtext_fields(fs.drop_first()) + rest
    };
    assert(s =~= seq!['"'] + esc_text(k) + seq!['"', ':'] + jtext(v) + vtail);
    assert(s[0] == '"');
    assert(skip_ws(s) == s);
    let body = s.skip(1);
    assert(body =~= esc_text(k) + seq!['"'] + (seq![':'] + jtext(v) + vtail));
    lemma_text_roundtrip(k, seq![':'] + jtext(v) + vtail);
    let r = seq![':'] + jtext(v) + vtail;
    assert(parse_text_body(body) == Some((k, r)));
    assert(r[0] == ':');
    assert(skip_ws(r) == r);
    assert(r.len() <= s.len());
    assert(r.skip(1) =~= jtext(v) + vtail);
    if fs.len() == 1 {
        lemma_jparse_jtext(v, vtail);
        assert(jparse(r.skip(1)) == Some((v, vtail)));
        assert(vtail[0] == '}');
        assert(skip_ws(vtail) == vtail);
        assert(seq![(k, v)] =~= fs);
    } else {
        assert(vtail[0] == ',');
        lemma_jparse_jtext(v, vtail);
        assert(jparse(r.skip(1)) == Some((v, vtail)));
        assert(skip_ws(vtail) == vtail);
        lemma_jtext_nonempty(v);
        assert(vtail.len() < s.len());
        assert(vtail.skip(1) =~= jtext_fields(fs.drop_first()) + rest);
        lemma_fields_roundtrip(fs.drop_first(), rest);
        assert(seq![(k, v)] + fs.drop_first() =~= fs);
    }
}

/// The round trip for whole documents: parsing the canonical text of a
/// well-formed document gives the document back.
pub proof fn lemma_jparse_doc_jtext(m: JsonModel)
    requires
        jm_wf(m),
    ensures
        jparse_doc(jtext(m)) == Some(m),
{
    lemma_jparse_jtext(m, Seq::empty());
    assert(jtext(m) + Seq::<char>::empty() =~= jtext(m));
    assert(skip_ws(Seq::<char>::empty()) == Seq::<char>::empty());
}


// ------------------------------------------------------------------
// Supporting lemmas for the executable codec
// ------------------------------------------------------------------

pub proof fn lemma_jview_list_index(elems: Seq<JsonValue>)
    ensures
        jview_list(elems).len() == elems.len(),
        forall|i: int| 0 <= i < elems.len() ==> jview_list(elems)[i] == jview(elems[i]),
    decreases elems,
{
    if elems.len() > 0 {
        lemma_jview_list_index(elems.drop_first());
        assert forall|i: int| 0 <= i < elems.len() implies jview_list(elems)[i] == jview(elems[i]) by {
            if i > 0 {
                assert(jview_list(elems)[i] == jview_list(elems.drop_first())[i - 1]);
                assert(elems.drop_first()[i - 1] == elems[i]);
            }
        }
    }
}

pub proof fn lemma_jview_fields_index(fields: Seq<(String, JsonValue)>)
    ensures
        jview_fields(fields).len() == fields.len(),
        forall|i: int| 0 <= i < fields.len() ==> jview_fields(fields)[i] == (fields[i].0@, jview(
            fields[i].1,
        )),
    decreases fields,
{
    if fields.len() > 0 {
        lemma_jview_fields_index(fields.drop_first());
        assert forall|i: int| 0 <= i < fields.len() implies jview_fields(fields)[i] == (
            fields[i].0@,
            jview(fields[i].1),
        ) by {
            if i > 0 {
                assert(jview_fields(fields)[i] == jview_fields(fields.drop_first())[i - 1]);
                assert(fields.drop_first()[i - 1] == fields[i]);
            }
        }
    }
}

pub proof fn lemma_jview_wf(v: JsonValue)
    requires
        jm_nums_wf(jview(v)),
    ensures
        jm_wf(jview(v)),
    decreases v,
{
    match v {
        JsonValue::Arr(elems) => {
            lemma_jview_list_wf(elems@);
        },
        JsonValue::Obj(fields) => {
            lemma_jview_fields_wf(fields@);
        },
        _ => {},
    }
}

pub proof fn lemma_jview_list_wf(elems: Seq<JsonValue>)
    requires
        jm_list_nums_wf(jview_list(elems)),
    ensures
        jm_list_wf(jview_list(elems)),
    decreases elems,
{
    if elems.len() > 0 {
        let out = jview_list(elems);
        assert(out[0] == jview(elems[0]));
        assert(out.drop_first() =~= jview_list(elems.drop_first()));
        lemma_jview_wf(elems[0]);
        lemma_jview_list_wf(elems.drop_first());
    }
}

pub proof fn lemma_jview_fields_wf(fields: Seq<(String, JsonValue)>)
    requires
        jm_fields_nums_wf(jview_fields(fields)),
    ensures
        jm_fields_wf(jview_fields(fields)),
    decreases fields,
{
    if fields.len() > 0 {
        let out = jview_fields(fields);
        assert(out[0].1 == jview(fields[0].1));
        assert(out.drop_first() =~= jview_fields(fields.drop_first()));
        lemma_jview_wf(fields[0].1);
        lemma_jview_fields_wf(fields.drop_first());
    }
}

proof fn lemma_esc_text_snoc(s: Seq<char>, c: char)
    ensures
        esc_text(s.push(c)) == esc_text(s) + esc_char(c),
    decreases s.len(),
{
    if s.len() == 0 {
        assert(s.push(c)[0] == c);
        assert(s.push(c).drop_first() =~= Seq::<char>::empty());
        assert(esc_text(s.push(c)) == esc_char(c) + esc_text(Seq::<char>::empty()));
        assert(esc_char(c) + esc_text(Seq::<char>::empty()) =~= esc_char(c));
        assert(esc_text(s) + esc_char(c) =~= esc_char(c));
    } else {
        assert(s.push(c)[0] == s[0]);
        assert(s.push(c).drop_first() =~= s.drop_first().push(c));
        lemma_esc_text_snoc(s.drop_first(), c);
        assert(esc_char(s[0]) + (esc_text(s.drop_first()) + esc_char(c)) =~= (esc_char(s[0])
            + esc_text(s.drop_first())) + esc_char(c));
    }
}

proof fn lemma_jtext_items_snoc(ms: Seq<JsonModel>, m: JsonModel)
    ensures
        jtext_items(ms.push(m)) == if ms.len() == 0 {
            jtext(m)
        } else {
            jtext_items(ms) + seq![','] + jtext(m)
        },
    decreases ms,
{
    let w = ms.push(m);
    if ms.len() == 0 {
        assert(w.len() == 1);
        assert(w[0] == m);
    } else if ms.len() == 1 {
        assert(w.len() == 2);
        assert(w[0] == ms[0]);
        assert(w.drop_first() =~= seq![m]);
        assert(jtext_items(seq![m]) == jtext(m));
        assert(jtext_items(ms) == jtext(ms[0]));
    } else {
        assert(w[0] == ms[0]);
        assert(w.drop_first() =~= ms.drop_first().push(m));
        lemma_jtext_items_snoc(ms.drop_first(), m);
        assert(jtext(ms[0]) + seq![','] + (jtext_items(ms.drop_first()) + seq![','] + jtext(m))
            =~= (jtext(ms[0]) + seq![','] + jtext_items(ms.drop_first())) + seq![','] + jtext(m));
    }
}

proof fn lemma_jtext_fields_snoc(fs: Seq<(Seq<char>, JsonModel)>, f: (Seq<char>, JsonModel))
    ensures
        jtext_fields(fs.push(f)) == if fs.len() == 0 {
            seq!['"'] + esc_text(f.0) + seq!['"', ':'] + jtext(f.1)
        } else {
            jtext_fields(fs) + seq![','] + (seq!['"'] + esc_text(f.0) + seq!['"', ':'] + jtext(f.1))
        },
    decreases fs,
{
    let w = fs.push(f);
    let head_f = seq!['"'] + esc_text(f.0) + seq!['"', ':'] + jtext(f.1);
    if fs.len() == 0 {
        assert(w.len() == 1);
        assert(w[0] == f);
    } else if fs.len() == 1 {
        assert(w.len() == 2);
        assert(w[0] == fs[0]);
        assert(w.drop_first() =~= seq![f]);
        assert(jtext_fields(seq![f]) == head_f);
    } else {
        assert(w[0] == fs[0]);
        assert(w.drop_first() =~= fs.drop_first().push(f));
        lemma_jtext_fields_snoc(fs.drop_first(), f);
        let head0 = seq!['"'] + esc_text(fs[0].0) + seq!['"', ':'] + jtext(fs[0].1);
        assert(head0 + seq![','] + (jtext_fields(fs.drop_first()) + seq![','] + head_f) =~= (head0
            + seq![','] + jtext_fields(fs.drop_first())) + seq![','] + head_f);
    }
}

// ------------------------------------------------------------------
// The executable serializer
// ------------------------------------------------------------------

fn digit_char(d: u64) -> (r: char)
    requires
        d < 10,
    ensures
        r == dec_digit(d as nat),
{
    if d == 0 { '0' }
    else if d == 1 { '1' }
    else if d == 2 { '2' }
    else if d == 3 { '3' }
    else if d == 4 { '4' }
    else if d == 5 { '5' }
    else if d == 6 { '6' }
    else if d == 7 { '7' }
    else if d == 8 { '8' }
    else { '9' }
}

fn append_u64(out: &mut String, n: u64)
    ensures
        final(out)@ == old(out)@ + dec_text(n as nat),
    decreases n,
{
    if n < 10 {
        push_char(out, digit_char(n));
        proof {
            assert(old(out)@.push(dec_digit(n as nat)) =~= old(out)@ + seq![dec_digit(n as nat)]);
        }
    } else {
        append_u64(out, n / 10);
        let ghost mid = out@;
        push_char(out, digit_char(n % 10));
        proof {
            assert(mid.push(dec_digit((n % 10) as nat)) =~= old(out)@ + dec_text((n / 10) as nat).push(
                dec_digit((n % 10) as nat),
            ));
            assert(dec_text(n as nat) == dec_text((n / 10) as nat).push(dec_digit((n % 10) as nat)));
        }
    }
}

fn append_i64(out: &mut String, n: i64)
    ensures
        final(out)@ == old(out)@ + int_text(n as int),
{
    if n < 0 {
        push_char(out, '-');
        let mag_wide: i128 = -(n as i128);
        assert(0 < mag_wide <= 0x8000_0000_0000_0000);
        let mag: u64 = mag_wide as u64;
        let ghost mid = out@;
        append_u64(out, mag);
        proof {
            assert(mid + dec_text(mag as nat) =~= old(out)@ + (seq!['-'] + dec_text(mag as nat)));
            assert(mag as nat == (-(n as int)) as nat);
        }
    } else {
        append_u64(out, n as u64);
    }
}

fn append_escaped(out: &mut String, s: &str)
    ensures
        final(out)@ == old(out)@ + esc_text(s@),
{
    let n: usize = s.unicode_len();
    let mut i: usize = 0;
    while i < n
        invariant
            n == s@.len(),
            i <= n,
            out@ == old(out)@ + esc_text(s@.take(i as int)),
        decreases n - i,
    {
        let c = s.get_char(i);
        let ghost pre = out@;
        if c == '"' {
            push_char(out, '\\');
            push_char(out, '"');
        } else if c == '\\' {
            push_char(out, '\\');
            push_char(out, '\\');
        } else if c == '\n' {
            push_char(out, '\\');
            push_char(out, 'n');
        } else if c == '\r' {
            push_char(out, '\\');
            push_char(out, 'r');
        } else if c == '\t' {
            push_char(out, '\\');
            push_char(out, 't');
        } else {
            push_char(out, c);
        }
        proof {
            assert(out@ =~= pre + esc_char(c));
            lemma_esc_text_snoc(s@.take(i as int), c);
            assert(s@.take(i as int).push(c) =~= s@.take(i + 1));
            assert(pre + esc_char(c) =~= old(out)@ + (esc_text(s@.take(i as int)) + esc_char(c)));
        }
        i += 1;
    }
    proof {
        assert(s@.take(n as int) =~= s@);
    }
}

/// Append the canonical text of `v`.
#[verifier::loop_isolation(false)]
#[verifier::rlimit(100)]
fn json_append(out: &mut String, v: &JsonValue)
    ensures
        final(out)@ == old(out)@ + jtext(v@),
    decreases v,
{
    match v {
        JsonValue::Null => {
            proof {
                reveal_strlit("null");
            }
            out.append("null");
            assert(old(out)@ + "null"@ =~= old(out)@ + jtext(v@));
        },
        JsonValue::Bool(b) => {
            if *b {
                proof {
                    reveal_strlit("true");
                }
                out.append("true");
                assert(old(out)@ + "true"@ =~= old(out)@ + jtext(v@));
            } else {
                proof {
                    reveal_strlit("false");
                }
                out.append("false");
                assert(old(out)@ + "false"@ =~= old(out)@ + jtext(v@));
            }
        },
        JsonValue::Int(n) => {
            append_i64(out, *n);
        },
        JsonValue::Num(s) => {
            out.append(s.as_str());
        },
        JsonValue::Text(s) => {
            push_char(out, '"');
            let ghost mid1 = out@;
            append_escaped(out, s.as_str());
            let ghost mid2 = out@;
            push_char(out, '"');
            proof {
                assert(out@ =~= old(out)@ + (seq!['"'] + esc_text(s@) + seq!['"']));
            }
        },
        JsonValue::Arr(elems) => {
            push_char(out, '[');
            let n = elems.len();
            let mut i: usize = 0;
            while i < n
                invariant
                    n == elems@.len(),
                    i <= n,
                    out@ == old(out)@ + seq!['['] + jtext_items(jview_list(elems@.take(i as int))),
                decreases n - i,
            {
                let ghost pre = out@;
                let ghost done = jview_list(elems@.take(i as int));
                if i > 0 {
                    push_char(out, ',');
                }
                proof {
                    assert(decreases_to!(*v => (*v)->Arr_0));
                    assert((*v)->Arr_0 == *elems);
                    assert(decreases_to!(*elems => elems@));
                    assert(decreases_to!(elems@ => elems@[i as int]));
                    assert(decreases_to!(*v => elems@[i as int]));
                }
                json_append(out, &elems[i]);
                proof {
                    lemma_jview_list_index(elems@.take(i as int));
                    lemma_jview_list_index(elems@.take(i + 1));
                    assert(jview_list(elems@.take(i + 1)) =~= done.push(jview(elems@[i as int])));
                    lemma_jtext_items_snoc(done, jview(elems@[i as int]));
                    if i > 0 {
                        assert(out@ =~= pre + seq![','] + jtext(jview(elems@[i as int])));
                        assert(out@ =~= old(out)@ + seq!['['] + jtext_items(
                            jview_list(elems@.take(i + 1)),
                        ));
                    } else {
                        assert(done.len() == 0);
                        assert(out@ =~= pre + jtext(jview(elems@[i as int])));
                        assert(jtext_items(done) =~= Seq::<char>::empty());
                        assert(out@ =~= old(out)@ + seq!['['] + jtext_items(
                            jview_list(elems@.take(i + 1)),
                        ));
                    }
                }
                i += 1;
            }
            let ghost mid = out@;
            push_char(out, ']');
            proof {
                assert(elems@.take(n as int) =~= elems@);
                assert(out@ =~= old(out)@ + (seq!['['] + jtext_items(jview_list(elems@))
                    + seq![']']));
            }
        },
        JsonValue::Obj(fields) => {
            push_char(out, '{');
            let n = fields.len();
            let mut i: usize = 0;
            while i < n
                invariant
                    n == fields@.len(),
                    i <= n,
                    out@ == old(out)@ + seq!['{'] + jtext_fields(
                        jview_fields(fields@.take(i as int)),
                    ),
                decreases n - i,
            {
                let ghost pre = out@;
                let ghost done = jview_fields(fields@.take(i as int));
                if i > 0 {
                    push_char(out, ',');
                }
                push_char(out, '"');
                append_escaped(out, fields[i].0.as_str());
                push_char(out, '"');
                push_char(out, ':');
                proof {
                    assert(decreases_to!(*v => (*v)->Obj_0));
                    assert((*v)->Obj_0 == *fields);
                    assert(decreases_to!(*fields => fields@));
                    assert(decreases_to!(fields@ => fields@[i as int]));
                    assert(decreases_to!(fields@[i as int] => fields@[i as int].1));
                    assert(decreases_to!(*v => fields@[i as int].1));
                }
                json_append(out, &fields[i].1);
                proof {
                    let f = (fields@[i as int].0@, jview(fields@[i as int].1));
                    let head_f = seq!['"'] + esc_text(f.0) + seq!['"', ':'] + jtext(f.1);
                    lemma_jview_fields_index(fields@.take(i as int));
                    lemma_jview_fields_index(fields@.take(i + 1));
                    assert(jview_fields(fields@.take(i + 1)) =~= done.push(f));
                    lemma_jtext_fields_snoc(done, f);
                    if i > 0 {
                        assert(out@ =~= pre + seq![','] + head_f);
                        assert(out@ =~= old(out)@ + seq!['{'] + jtext_fields(
                            jview_fields(fields@.take(i + 1)),
                        ));
                    } else {
                        assert(done.len() == 0);
                        assert(out@ =~= pre + head_f);
                        assert(jtext_fields(done) =~= Seq::<char>::empty());
                        assert(out@ =~= old(out)@ + seq!['{'] + jtext_fields(
                            jview_fields(fields@.take(i + 1)),
                        ));
                    }
                }
                i += 1;
            }
            push_char(out, '}');
            proof {
                assert(fields@.take(n as int) =~= fields@);
                assert(out@ =~= old(out)@ + (seq!['{'] + jtext_fields(jview_fields(fields@))
                    + seq!['}']));
            }
        },
    }
}

/// The canonical text of a document.
pub fn json_to_string(v: &JsonValue) -> (r: String)
    ensures
        r@ == jtext(v@),
{
    let mut out = String::new();
    json_append(&mut out, v);
    proof {
        assert(Seq::<char>::empty() + jtext(v@) =~= jtext(v@));
    }
    out
}


// ------------------------------------------------------------------
// The executable parser
// ------------------------------------------------------------------

fn is_digit_char(c: char) -> (r: bool)
    ensures
        r == is_digit(c),
{
    let cv = c as u32;
    48 <= cv && cv <= 57
}

fn unescape_code(c: char) -> (r: Option<char>)
    ensures
        r == unesc_char(c),
{
    if c == '"' { Some('"') }
    else if c == '\\' { Some('\\') }
    else if c == 'n' { Some('\n') }
    else if c == 'r' { Some('\r') }
    else if c == 't' { Some('\t') }
    else { None }
}

/// Read a quoted string's remainder, starting after the opening quote.
fn parse_text_exec(cs: &Vec<char>, pos: usize) -> (r: Option<(String, usize)>)
    requires
        pos <= cs@.len(),
    ensures
        match r {
            Some((t, p2)) => pos < p2 <= cs@.len() && parse_text_body(cs@.skip(pos as int))
                == Some((t@, cs@.skip(p2 as int))),
            None => parse_text_body(cs@.skip(pos as int)) is None,
        },
    decreases cs@.len() - pos,
{
    let ghost s = cs@.skip(pos as int);
    if pos >= cs.len() {
        assert(s.len() == 0);
        return None;
    }
    let c = cs[pos];
    assert(c == s[0]);
    if c == '"' {
        assert(s.skip(1) =~= cs@.skip(pos + 1));
        Some((String::new(), pos + 1))
    } else if c == '\\' {
        if pos + 1 >= cs.len() {
            assert(s.len() < 2);
            return None;
        }
        let code = cs[pos + 1];
        assert(code == s[1]);
        match unescape_code(code) {
            None => None,
            Some(c0) => {
                assert(s.skip(2) =~= cs@.skip(pos + 2));
                match parse_text_exec(cs, pos + 2) {
                    None => None,
                    Some((t, p2)) => {
                        let mut out = String::new();
                        push_char(&mut out, c0);
                        out.append(t.as_str());
                        proof {
                            assert(out@ =~= seq![c0] + t@);
                        }
                        Some((out, p2))
                    },
                }
            },
        }
    } else {
        assert(s.skip(1) =~= cs@.skip(pos + 1));
        match parse_text_exec(cs, pos + 1) {
            None => None,
            Some((t, p2)) => {
                let mut out = String::new();
                push_char(&mut out, c);
                out.append(t.as_str());
                proof {
                    assert(out@ =~= seq![c] + t@);
                }
                Some((out, p2))
            },
        }
    }
}

/// The end of the digit run that starts at `pos`.
fn scan_digits(cs: &Vec<char>, pos: usize) -> (r: usize)
    requires
        pos <= cs@.len(),
    ensures
        pos <= r <= cs@.len(),
        split_digits(cs@.skip(pos as int)) == (
            cs@.subrange(pos as int, r as int),
            cs@.skip(r as int),
        ),
        forall|i: int| pos <= i < r ==> is_digit(#[trigger] cs@[i]),
    decreases cs@.len() - pos,
{
    let ghost s = cs@.skip(pos as int);
    if pos < cs.len() && is_digit_char(cs[pos]) {
        assert(cs@[pos as int] == s[0]);
        assert(s.skip(1) =~= cs@.skip(pos + 1));
        let r = scan_digits(cs, pos + 1);
        proof {
            assert(seq![s[0]] + cs@.subrange(pos + 1, r as int) =~= cs@.subrange(
                pos as int,
                r as int,
            ));
        }
        r
    } else {
        proof {
            if pos < cs.len() {
                assert(cs@[pos as int] == s[0]);
            }
            assert(cs@.subrange(pos as int, pos as int) =~= Seq::<char>::empty());
        }
        pos
    }
}

/// The value of the digit run `cs[start..end]`, unless it exceeds 2^63.
fn digits_value(cs: &Vec<char>, start: usize, end: usize) -> (r: Option<u64>)
    requires
        start <= end <= cs@.len(),
        forall|i: int| start <= i < end ==> is_digit(#[trigger] cs@[i]),
    ensures
        match r {
            Some(v) => digits_val(cs@.subrange(start as int, end as int)) == v && v
                <= 0x8000_0000_0000_0000,
            None => digits_val(cs@.subrange(start as int, end as int)) > 0x8000_0000_0000_0000,
        },
{
    let mut acc: u64 = 0;
    let mut over: bool = false;
    let mut i: usize = start;
    proof {
        assert(cs@.subrange(start as int, start as int) =~= Seq::<char>::empty());
    }
    while i < end
        invariant
            start <= i <= end <= cs@.len(),
            forall|k: int| start <= k < end ==> is_digit(#[trigger] cs@[k]),
            !over ==> acc == digits_val(cs@.subrange(start as int, i as int)) && acc
                <= 0x8000_0000_0000_0000,
            over ==> digits_val(cs@.subrange(start as int, i as int)) > 0x8000_0000_0000_0000,
        decreases end - i,
    {
        let c = cs[i];
        let d: u64 = (c as u32 - 48) as u64;
        let ghost run_i = cs@.subrange(start as int, i as int);
        let ghost run_n = cs@.subrange(start as int, i + 1);
        proof {
            assert(is_digit(c));
            assert(run_n.drop_last() =~= run_i);
            assert(run_n.last() == c);
            assert(digits_val(run_n) == digits_val(run_i) * 10 + digit_val(c));
            assert(d == digit_val(c));
        }
        if !over {
            if acc > 0x0CCC_CCCC_CCCC_CCCC {
                // acc * 10 alone already exceeds 2^63
                over = true;
                proof {
                    assert(digits_val(run_i) * 10 + digit_val(c) > 0x8000_0000_0000_0000);
                }
            } else {
                let na: u64 = acc * 10 + d;
                if na > 0x8000_0000_0000_0000 {
                    over = true;
                } else {
                    acc = na;
                }
            }
        } else {
            proof {
                assert(digits_val(run_i) * 10 + digit_val(c) > 0x8000_0000_0000_0000);
            }
        }
        i += 1;
    }
    if over {
        None
    } else {
        Some(acc)
    }
}

/// The position after the leading whitespace.
fn skip_ws_pos(cs: &Vec<char>, pos: usize) -> (r: usize)
    requires
        pos <= cs@.len(),
    ensures
        pos <= r <= cs@.len(),
        cs@.skip(r as int) == skip_ws(cs@.skip(pos as int)),
{
    let mut i = pos;
    while i < cs.len()
        invariant
            pos <= i <= cs@.len(),
            skip_ws(cs@.skip(pos as int)) == skip_ws(cs@.skip(i as int)),
        decreases cs@.len() - i,
    {
        let c = cs[i];
        if c == ' ' || c == '\n' || c == '\t' || c == '\r' {
            proof {
                assert(cs@.skip(i as int)[0] == cs@[i as int]);
                assert(cs@.skip(i as int).drop_first() =~= cs@.skip(i + 1));
            }
            i += 1;
        } else {
            proof {
                assert(cs@.skip(i as int)[0] == cs@[i as int]);
                assert(skip_ws(cs@.skip(i as int)) == cs@.skip(i as int));
            }
            return i;
        }
    }
    proof {
        assert(cs@.skip(i as int).len() == 0);
        assert(skip_ws(cs@.skip(i as int)) == cs@.skip(i as int));
    }
    i
}

/// The end positions of the number lexeme parts starting at `pos`:
/// after the integer digits, after the fraction, after the exponent.
#[verifier::rlimit(60)]
fn scan_number(cs: &Vec<char>, pos: usize) -> (r: (usize, usize, usize))
    requires
        pos <= cs@.len(),
    ensures
        ({
            let s = cs@.skip(pos as int);
            let (run, r1) = split_digits(s);
            let (frac, r2) = split_frac(r1);
            let (expo, r3) = split_exp(r2);
            &&& pos <= r.0 <= r.1 <= r.2 <= cs@.len()
            &&& cs@.subrange(pos as int, r.0 as int) == run
            &&& cs@.subrange(r.0 as int, r.1 as int) == frac
            &&& cs@.subrange(r.1 as int, r.2 as int) == expo
            &&& cs@.skip(r.0 as int) == r1
            &&& cs@.skip(r.1 as int) == r2
            &&& cs@.skip(r.2 as int) == r3
        }),
{
    let ghost s = cs@.skip(pos as int);
    let e1 = scan_digits(cs, pos);
    proof {
        assert(cs@.skip(e1 as int) == split_digits(s).1);
    }
    let e2 = if e1 < cs.len() && cs[e1] == '.' && cs.len() - e1 > 1 && is_digit_char(
        cs[e1 + 1],
    ) {
        proof {
            assert(cs@.skip(e1 as int)[0] == cs@[e1 as int]);
            assert(cs@.skip(e1 as int)[1] == cs@[e1 + 1]);
            assert(cs@.skip(e1 as int).skip(1) =~= cs@.skip(e1 + 1));
        }
        let e = scan_digits(cs, e1 + 1);
        proof {
            let r1 = cs@.skip(e1 as int);
            assert(split_frac(r1) == (
                seq!['.'] + cs@.subrange(e1 + 1, e as int),
                cs@.skip(e as int),
            ));
            assert(seq!['.'] + cs@.subrange(e1 + 1, e as int) =~= cs@.subrange(
                e1 as int,
                e as int,
            ));
        }
        e
    } else {
        proof {
            let r1 = cs@.skip(e1 as int);
            if r1.len() >= 2 && r1[0] == '.' && is_digit(r1[1]) {
                assert(r1[0] == cs@[e1 as int]);
                assert(r1[1] == cs@[e1 + 1]);
            }
            assert(split_frac(r1) == (Seq::<char>::empty(), r1));
            assert(cs@.subrange(e1 as int, e1 as int) =~= Seq::<char>::empty());
        }
        e1
    };
    let e3 = if e2 < cs.len() && (cs[e2] == 'e' || cs[e2] == 'E') && cs.len() - e2 > 1
        && is_digit_char(cs[e2 + 1]) {
        proof {
            assert(cs@.skip(e2 as int)[0] == cs@[e2 as int]);
            assert(cs@.skip(e2 as int)[1] == cs@[e2 + 1]);
            assert(cs@.skip(e2 as int).skip(1) =~= cs@.skip(e2 + 1));
        }
        let e = scan_digits(cs, e2 + 1);
        proof {
            let r2 = cs@.skip(e2 as int);
            assert(split_exp(r2) == (
                seq![r2[0]] + cs@.subrange(e2 + 1, e as int),
                cs@.skip(e as int),
            ));
            assert(seq![r2[0]] + cs@.subrange(e2 + 1, e as int) =~= cs@.subrange(
                e2 as int,
                e as int,
            ));
        }
        e
    } else if e2 < cs.len() && (cs[e2] == 'e' || cs[e2] == 'E') && cs.len() - e2 > 2 && (cs[e2
        + 1] == '+' || cs[e2 + 1] == '-') && is_digit_char(cs[e2 + 2]) {
        proof {
            assert(cs@.skip(e2 as int)[0] == cs@[e2 as int]);
            assert(cs@.skip(e2 as int)[1] == cs@[e2 + 1]);
            assert(cs@.skip(e2 as int)[2] == cs@[e2 + 2]);
            assert(cs@.skip(e2 as int).skip(2) =~= cs@.skip(e2 + 2));
        }
        let e = scan_digits(cs, e2 + 2);
        proof {
            let r2 = cs@.skip(e2 as int);
            assert(split_exp(r2) == (
                seq![r2[0], r2[1]] + cs@.subrange(e2 + 2, e as int),
                cs@.skip(e as int),
            ));
            assert(seq![r2[0], r2[1]] + cs@.subrange(e2 + 2, e as int) =~= cs@.subrange(
                e2 as int,
                e as int,
            ));
        }
        e
    } else {
        proof {
            let r2 = cs@.skip(e2 as int);
            if r2.len() >= 1 {
                assert(r2[0] == cs@[e2 as int]);
            }
            if r2.len() >= 2 {
                assert(r2[1] == cs@[e2 + 1]);
            }
            if r2.len() >= 3 {
                assert(r2[2] == cs@[e2 + 2]);
            }
            assert(split_exp(r2) == (Seq::<char>::empty(), r2));
            assert(cs@.subrange(e2 as int, e2 as int) =~= Seq::<char>::empty());
        }
        e2
    };
    (e1, e2, e3)
}

/// The characters `cs[a..b]` as a string.
fn chars_sub(cs: &Vec<char>, a: usize, b: usize) -> (r: String)
    requires
        a <= b <= cs@.len(),
    ensures
        r@ == cs@.subrange(a as int, b as int),
{
    let mut out = String::new();
    let mut i = a;
    while i < b
        invariant
            a <= i <= b <= cs@.len(),
            out@ == cs@.subrange(a as int, i as int),
        decreases b - i,
    {
        push_char(&mut out, cs[i]);
        proof {
            assert(cs@.subrange(a as int, i as int).push(cs@[i as int]) =~= cs@.subrange(
                a as int,
                i + 1,
            ));
        }
        i += 1;
    }
    out
}

/// Whether a string is a literal-number text the document model may
/// hold.
pub fn num_text_ok(s: &str) -> (r: bool)
    ensures
        r == num_canonical(s@),
{
    let cs = str_to_chars(s);
    let n = cs.len();
    if n == 0 {
        assert(split_digits(cs@.skip(0)).0 =~= Seq::<char>::empty());
        return false;
    }
    let neg = cs[0] == '-';
    let dstart: usize = if neg {
        1
    } else {
        0
    };
    proof {
        if neg {
            assert(cs@.skip(1) =~= s@.skip(1));
        } else {
            assert(cs@.skip(0) =~= s@);
        }
    }
    let (e1, e2, e3) = scan_number(&cs, dstart);
    if e1 == dstart {
        proof {
            assert(cs@.subrange(dstart as int, dstart as int) =~= Seq::<char>::empty());
        }
        return false;
    }
    if e3 != n {
        proof {
            assert(cs@.skip(e3 as int).len() > 0);
        }
        return false;
    }
    if e2 != e1 || e3 != e2 {
        return true;
    }
    proof {
        lemma_split_digits_decompose(cs@.skip(dstart as int));
        let run = split_digits(cs@.skip(dstart as int)).0;
        assert forall|i: int| dstart <= i < e1 implies is_digit(#[trigger] cs@[i]) by {
            assert(cs@[i] == cs@.subrange(dstart as int, e1 as int)[i - dstart]);
            assert(run[i - dstart] == cs@.subrange(dstart as int, e1 as int)[i - dstart]);
            assert(is_digit(run[i - dstart]));
        }
    }
    match digits_value(&cs, dstart, e1) {
        None => true,
        Some(v) => if neg {
            v > 0x8000_0000_0000_0000
        } else {
            v > 0x7fff_ffff_ffff_ffff
        },
    }
}

/// Check every literal-number text in the document.
#[verifier::loop_isolation(false)]
pub fn check_number_texts(v: &JsonValue) -> (r: bool)
    ensures
        r == jm_nums_wf(v@),
    decreases v,
{
    match v {
        JsonValue::Num(s) => num_text_ok(s.as_str()),
        JsonValue::Arr(elems) => {
            proof {
                lemma_jview_list_index(elems@);
            }
            let n = elems.len();
            let mut i: usize = 0;
            while i < n
                invariant
                    i <= n,
                    forall|j: int| 0 <= j < i ==> jm_nums_wf(#[trigger] jview_list(elems@)[j]),
                decreases n - i,
            {
                proof {
                    assert(decreases_to!(*v => (*v)->Arr_0));
                    assert((*v)->Arr_0 == *elems);
                    assert(decreases_to!(*elems => elems@));
                    assert(decreases_to!(elems@ => elems@[i as int]));
                }
                if !check_number_texts(&elems[i]) {
                    proof {
                        assert(!jm_nums_wf(jview_list(elems@)[i as int]));
                        lemma_list_nums_wf_pointwise(jview_list(elems@));
                    }
                    return false;
                }
                i += 1;
            }
            proof {
                lemma_list_nums_wf_pointwise(jview_list(elems@));
            }
            true
        },
        JsonValue::Obj(fields) => {
            proof {
                lemma_jview_fields_index(fields@);
            }
            let n = fields.len();
            let mut i: usize = 0;
            while i < n
                invariant
                    i <= n,
                    forall|j: int| 0 <= j < i ==> jm_nums_wf(
                        (#[trigger] jview_fields(fields@)[j]).1,
                    ),
                decreases n - i,
            {
                proof {
                    assert(decreases_to!(*v => (*v)->Obj_0));
                    assert((*v)->Obj_0 == *fields);
                    assert(decreases_to!(*fields => fields@));
                    assert(decreases_to!(fields@ => fields@[i as int]));
                    assert(decreases_to!(fields@[i as int] => fields@[i as int].1));
                }
                if !check_number_texts(&fields[i].1) {
                    proof {
                        assert(!jm_nums_wf(jview_fields(fields@)[i as int].1));
                        lemma_fields_nums_wf_pointwise(jview_fields(fields@));
                    }
                    return false;
                }
                i += 1;
            }
            proof {
                lemma_fields_nums_wf_pointwise(jview_fields(fields@));
            }
            true
        },
        _ => true,
    }
}

/// A list's number texts are well formed exactly when each element's
/// are.
proof fn lemma_list_nums_wf_pointwise(ms: Seq<JsonModel>)
    ensures
        jm_list_nums_wf(ms) <==> (forall|i: int|
            0 <= i < ms.len() ==> jm_nums_wf(#[trigger] ms[i])),
    decreases ms,
{
    if ms.len() > 0 {
        lemma_list_nums_wf_pointwise(ms.drop_first());
        if jm_list_nums_wf(ms) {
            assert forall|i: int| 0 <= i < ms.len() implies jm_nums_wf(#[trigger] ms[i]) by {
                if i > 0 {
                    assert(ms.drop_first()[i - 1] == ms[i]);
                }
            }
        } else {
            if jm_nums_wf(ms[0]) {
                let j = choose|j: int|
                    0 <= j < ms.drop_first().len() && !jm_nums_wf(#[trigger] ms.drop_first()[j]);
                assert(ms[j + 1] == ms.drop_first()[j]);
            }
        }
    }
}

proof fn lemma_fields_nums_wf_pointwise(fs: Seq<(Seq<char>, JsonModel)>)
    ensures
        jm_fields_nums_wf(fs) <==> (forall|i: int|
            0 <= i < fs.len() ==> jm_nums_wf((#[trigger] fs[i]).1)),
    decreases fs,
{
    if fs.len() > 0 {
        lemma_fields_nums_wf_pointwise(fs.drop_first());
        if jm_fields_nums_wf(fs) {
            assert forall|i: int| 0 <= i < fs.len() implies jm_nums_wf((#[trigger] fs[i]).1) by {
                if i > 0 {
                    assert(fs.drop_first()[i - 1] == fs[i]);
                }
            }
        } else {
            if jm_nums_wf(fs[0].1) {
                let j = choose|j: int|
                    0 <= j < fs.drop_first().len() && !jm_nums_wf(
                        (#[trigger] fs.drop_first()[j]).1,
                    );
                assert(fs[j + 1] == fs.drop_first()[j]);
            }
        }
    }
}

/// Read one document value beginning at `pos`.
#[verifier::rlimit(100)]
fn parse_value(cs: &Vec<char>, pos: usize) -> (r: Option<(JsonValue, usize)>)
    requires
        pos <= cs@.len(),
    ensures
        match r {
            Some((v, p2)) => pos < p2 <= cs@.len() && jparse(cs@.skip(pos as int)) == Some(
                (v@, cs@.skip(p2 as int)),
            ),
            None => jparse(cs@.skip(pos as int)) is None,
        },
    decreases cs@.len() - pos, 0int,
{
    let ghost s_orig = cs@.skip(pos as int);
    let pos = skip_ws_pos(cs, pos);
    let ghost s = cs@.skip(pos as int);
    proof {
        assert(s == skip_ws(s_orig));
        crate::text::lemma_skip_ws_idempotent(s_orig);
        assert(skip_ws(s) == s);
    }
    if pos >= cs.len() {
        assert(s.len() == 0);
        return None;
    }
    let c = cs[pos];
    assert(c == s[0]);
    if c == 'n' {
        if cs.len() - pos >= 4 && cs[pos + 1] == 'u' && cs[pos + 2] == 'l' && cs[pos + 3] == 'l' {
            proof {
                assert(s[1] == 'u' && s[2] == 'l' && s[3] == 'l');
                assert(s.skip(4) =~= cs@.skip(pos + 4));
            }
            Some((JsonValue::Null, pos + 4))
        } else {
            proof {
                if cs@.len() - pos >= 4 {
                    assert(s[1] == cs@[pos + 1] && s[2] == cs@[pos + 2] && s[3] == cs@[pos + 3]);
                }
            }
            None
        }
    } else if c == 't' {
        if cs.len() - pos >= 4 && cs[pos + 1] == 'r' && cs[pos + 2] == 'u' && cs[pos + 3] == 'e' {
            proof {
                assert(s[1] == 'r' && s[2] == 'u' && s[3] == 'e');
                assert(s.skip(4) =~= cs@.skip(pos + 4));
            }
            Some((JsonValue::Bool(true), pos + 4))
        } else {
            proof {
                if cs@.len() - pos >= 4 {
                    assert(s[1] == cs@[pos + 1] && s[2] == cs@[pos + 2] && s[3] == cs@[pos + 3]);
                }
            }
            None
        }
    } else if c == 'f' {
        if cs.len() - pos >= 5 && cs[pos + 1] == 'a' && cs[pos + 2] == 'l' && cs[pos + 3] == 's'
            && cs[pos + 4] == 'e' {
            proof {
                assert(s[1] == 'a' && s[2] == 'l' && s[3] == 's' && s[4] == 'e');
                assert(s.skip(5) =~= cs@.skip(pos + 5));
            }
            Some((JsonValue::Bool(false), pos + 5))
        } else {
            proof {
                if cs@.len() - pos >= 5 {
                    assert(s[1] == cs@[pos + 1] && s[2] == cs@[pos + 2] && s[3] == cs@[pos + 3]
                        && s[4] == cs@[pos + 4]);
                }
            }
            None
        }
    } else if c == '"' {
        proof {
            assert(s.skip(1) =~= cs@.skip(pos + 1));
        }
        match parse_text_exec(cs, pos + 1) {
            None => None,
            Some((t, p2)) => Some((JsonValue::Text(t), p2)),
        }
    } else if c == '[' {
        proof {
            assert(s.skip(1) =~= cs@.skip(pos + 1));
        }
        let q = skip_ws_pos(cs, pos + 1);
        if q < cs.len() && cs[q] == ']' {
            proof {
                assert(cs@.skip(q as int)[0] == cs@[q as int]);
                assert(cs@.skip(q as int).skip(1) =~= cs@.skip(q + 1));
                assert(jview_list(Seq::<JsonValue>::empty()) =~= Seq::<JsonModel>::empty());
            }
            let vs: Vec<JsonValue> = Vec::new();
            proof {
                assert(vs@ =~= Seq::<JsonValue>::empty());
            }
            Some((JsonValue::Arr(vs), q + 1))
        } else {
            proof {
                if q < cs.len() {
                    assert(cs@.skip(q as int)[0] == cs@[q as int]);
                } else {
                    assert(cs@.skip(q as int).len() == 0);
                }
            }
            match parse_items(cs, pos + 1) {
                None => None,
                Some((vs, p)) => {
                    let ps = skip_ws_pos(cs, p);
                    if ps < cs.len() {
                        let cb = cs[ps];
                        proof {
                            assert(cs@.skip(ps as int)[0] == cs@[ps as int]);
                        }
                        if cb == ']' {
                            proof {
                                assert(cs@.skip(ps as int).skip(1) =~= cs@.skip(ps + 1));
                            }
                            Some((JsonValue::Arr(vs), ps + 1))
                        } else {
                            None
                        }
                    } else {
                        assert(cs@.skip(ps as int).len() == 0);
                        None
                    }
                },
            }
        }
    } else if c == '{' {
        proof {
            assert(s.skip(1) =~= cs@.skip(pos + 1));
        }
        let q = skip_ws_pos(cs, pos + 1);
        if q < cs.len() && cs[q] == '}' {
            proof {
                assert(cs@.skip(q as int)[0] == cs@[q as int]);
                assert(cs@.skip(q as int).skip(1) =~= cs@.skip(q + 1));
                assert(jview_fields(Seq::<(String, JsonValue)>::empty())
                    =~= Seq::<(Seq<char>, JsonModel)>::empty());
            }
            let fs: Vec<(String, JsonValue)> = Vec::new();
            proof {
                assert(fs@ =~= Seq::<(String, JsonValue)>::empty());
            }
            Some((JsonValue::Obj(fs), q + 1))
        } else {
            proof {
                if q < cs.len() {
                    assert(cs@.skip(q as int)[0] == cs@[q as int]);
                } else {
                    assert(cs@.skip(q as int).len() == 0);
                }
            }
            match parse_fields(cs, pos + 1) {
                None => None,
                Some((fs, p)) => {
                    let ps = skip_ws_pos(cs, p);
                    if ps < cs.len() {
                        let cb = cs[ps];
                        proof {
                            assert(cs@.skip(ps as int)[0] == cs@[ps as int]);
                        }
                        if cb == '}' {
                            proof {
                                assert(cs@.skip(ps as int).skip(1) =~= cs@.skip(ps + 1));
                            }
                            Some((JsonValue::Obj(fs), ps + 1))
                        } else {
                            None
                        }
                    } else {
                        assert(cs@.skip(ps as int).len() == 0);
                        None
                    }
                },
            }
        }
    } else if c == '-' || is_digit_char(c) {
        let neg = c == '-';
        let dstart: usize = if neg {
            pos + 1
        } else {
            pos
        };
        proof {
            if neg {
                assert(s.skip(1) =~= cs@.skip(pos + 1));
            }
        }
        let (e1, e2, e3) = scan_number(cs, dstart);
        if e1 == dstart {
            proof {
                assert(cs@.subrange(dstart as int, dstart as int) =~= Seq::<char>::empty());
            }
            None
        } else if e2 == e1 && e3 == e2 {
            proof {
                lemma_split_digits_decompose(cs@.skip(dstart as int));
                let run = split_digits(cs@.skip(dstart as int)).0;
                assert forall|i: int| dstart <= i < e1 implies is_digit(#[trigger] cs@[i]) by {
                    assert(cs@[i] == cs@.subrange(dstart as int, e1 as int)[i - dstart]);
                    assert(run[i - dstart] == cs@.subrange(dstart as int, e1 as int)[i - dstart]);
                    assert(is_digit(run[i - dstart]));
                }
            }
            match digits_value(cs, dstart, e1) {
                None => {
                    let lex = chars_sub(cs, pos, e1);
                    proof {
                        if neg {
                            assert(cs@.subrange(pos as int, e1 as int) =~= seq!['-']
                                + cs@.subrange(dstart as int, e1 as int));
                        }
                    }
                    Some((JsonValue::Num(lex), e1))
                },
                Some(v) => {
                    if neg {
                        let n: i64 = (-(v as i128)) as i64;
                        proof {
                            assert(n as int == -(v as int));
                        }
                        Some((JsonValue::Int(n), e1))
                    } else {
                        if v <= 0x7fff_ffff_ffff_ffff {
                            let n: i64 = v as i64;
                            Some((JsonValue::Int(n), e1))
                        } else {
                            let lex = chars_sub(cs, pos, e1);
                            proof {
                                assert(cs@.subrange(pos as int, e1 as int) =~= cs@.subrange(
                                    dstart as int,
                                    e1 as int,
                                ));
                            }
                            Some((JsonValue::Num(lex), e1))
                        }
                    }
                },
            }
        } else {
            let lex = chars_sub(cs, pos, e3);
            proof {
                let body = cs@.skip(dstart as int);
                let (run, r1) = split_digits(body);
                let (frac, r2) = split_frac(r1);
                let (expo, r3) = split_exp(r2);
                if neg {
                    assert(cs@.subrange(pos as int, e3 as int) =~= seq!['-'] + cs@.subrange(
                        dstart as int,
                        e1 as int,
                    ) + cs@.subrange(e1 as int, e2 as int) + cs@.subrange(e2 as int, e3 as int));
                    assert(lex@ == seq!['-'] + run + frac + expo);
                } else {
                    assert(cs@.subrange(pos as int, e3 as int) =~= cs@.subrange(
                        dstart as int,
                        e1 as int,
                    ) + cs@.subrange(e1 as int, e2 as int) + cs@.subrange(e2 as int, e3 as int));
                    assert(lex@ == run + frac + expo);
                }
            }
            Some((JsonValue::Num(lex), e3))
        }
    } else {
        None
    }
}

fn parse_items(cs: &Vec<char>, pos: usize) -> (r: Option<(Vec<JsonValue>, usize)>)
    requires
        pos <= cs@.len(),
    ensures
        match r {
            Some((vs, p2)) => pos < p2 <= cs@.len() && jparse_items(cs@.skip(pos as int)) == Some(
                (jview_list(vs@), cs@.skip(p2 as int)),
            ),
            None => jparse_items(cs@.skip(pos as int)) is None,
        },
    decreases cs@.len() - pos, 1int,
{
    let ghost s = cs@.skip(pos as int);
    match parse_value(cs, pos) {
        None => None,
        Some((v, p)) => {
            let ps = skip_ws_pos(cs, p);
            let ghost rr = cs@.skip(ps as int);
            if ps < cs.len() && cs[ps] == ',' {
                proof {
                    assert(rr[0] == cs@[ps as int]);
                    assert(rr.len() < s.len());
                    assert(rr.skip(1) =~= cs@.skip(ps + 1));
                }
                match parse_items(cs, ps + 1) {
                    None => None,
                    Some((vs, p2)) => {
                        let mut vs = vs;
                        let ghost tailv = vs@;
                        vs.insert(0, v);
                        proof {
                            assert(vs@ =~= seq![v] + tailv);
                            lemma_jview_list_index(vs@);
                            lemma_jview_list_index(tailv);
                            assert(jview_list(vs@) =~= seq![jview(v)] + jview_list(tailv));
                        }
                        Some((vs, p2))
                    },
                }
            } else {
                proof {
                    if ps < cs.len() {
                        assert(rr[0] == cs@[ps as int]);
                    } else {
                        assert(rr.len() == 0);
                    }
                    assert(seq![v].drop_first() =~= Seq::<JsonValue>::empty());
                    assert(seq![v][0] == v);
                    assert(jview_list(seq![v]) == seq![jview(v)] + jview_list(
                        Seq::<JsonValue>::empty(),
                    ));
                    assert(seq![jview(v)] + Seq::<JsonModel>::empty() =~= seq![jview(v)]);
                }
                let mut vs: Vec<JsonValue> = Vec::new();
                vs.push(v);
                proof {
                    assert(vs@ =~= seq![v]);
                }
                Some((vs, p))
            }
        },
    }
}

fn parse_fields(cs: &Vec<char>, pos: usize) -> (r: Option<(Vec<(String, JsonValue)>, usize)>)
    requires
        pos <= cs@.len(),
    ensures
        match r {
            Some((fs, p2)) => pos < p2 <= cs@.len() && jparse_fields(cs@.skip(pos as int)) == Some(
                (jview_fields(fs@), cs@.skip(p2 as int)),
            ),
            None => jparse_fields(cs@.skip(pos as int)) is None,
        },
    decreases cs@.len() - pos, 1int,
{
    let ghost s_orig = cs@.skip(pos as int);
    let pos = skip_ws_pos(cs, pos);
    let ghost s = cs@.skip(pos as int);
    proof {
        assert(s == skip_ws(s_orig));
        crate::text::lemma_skip_ws_idempotent(s_orig);
        assert(skip_ws(s) == s);
    }
    if pos >= cs.len() {
        assert(s.len() == 0);
        return None;
    }
    let c = cs[pos];
    assert(c == s[0]);
    if c != '"' {
        return None;
    }
    proof {
        assert(s.skip(1) =~= cs@.skip(pos + 1));
    }
    match parse_text_exec(cs, pos + 1) {
        None => None,
        Some((k, pk)) => {
            let ks = skip_ws_pos(cs, pk);
            let ghost rr = cs@.skip(ks as int);
            if ks < cs.len() && cs[ks] == ':' {
                proof {
                    assert(rr[0] == cs@[ks as int]);
                    assert(rr.len() <= s_orig.len());
                    assert(rr.skip(1) =~= cs@.skip(ks + 1));
                }
                match parse_value(cs, ks + 1) {
                    None => None,
                    Some((v, pv)) => {
                        let vs = skip_ws_pos(cs, pv);
                        let ghost r2 = cs@.skip(vs as int);
                        if vs < cs.len() && cs[vs] == ',' {
                            proof {
                                assert(r2[0] == cs@[vs as int]);
                                assert(r2.len() < s_orig.len());
                                assert(r2.skip(1) =~= cs@.skip(vs + 1));
                            }
                            match parse_fields(cs, vs + 1) {
                                None => None,
                                Some((fs, p2)) => {
                                    let mut fs = fs;
                                    let ghost tailf = fs@;
                                    fs.insert(0, (k, v));
                                    proof {
                                        assert(fs@ =~= seq![(k, v)] + tailf);
                                        lemma_jview_fields_index(fs@);
                                        lemma_jview_fields_index(tailf);
                                        assert(jview_fields(fs@) =~= seq![(k@, jview(v))]
                                            + jview_fields(tailf));
                                    }
                                    Some((fs, p2))
                                },
                            }
                        } else {
                            proof {
                                if vs < cs.len() {
                                    assert(r2[0] == cs@[vs as int]);
                                } else {
                                    assert(r2.len() == 0);
                                }
                                assert(seq![(k, v)].drop_first() =~= Seq::<
                                    (String, JsonValue),
                                >::empty());
                                assert(seq![(k, v)][0] == (k, v));
                                assert(jview_fields(seq![(k, v)]) == seq![(k@, jview(v))]
                                    + jview_fields(Seq::<(String, JsonValue)>::empty()));
                                assert(seq![(k@, jview(v))] + Seq::<(Seq<char>, JsonModel)>::empty()
                                    =~= seq![(k@, jview(v))]);
                            }
                            let mut fs: Vec<(String, JsonValue)> = Vec::new();
                            fs.push((k, v));
                            proof {
                                assert(fs@ =~= seq![(k, v)]);
                            }
                            Some((fs, pv))
                        }
                    },
                }
            } else {
                proof {
                    if ks < cs.len() {
                        assert(rr[0] == cs@[ks as int]);
                    } else {
                        assert(rr.len() == 0);
                    }
                    assert(rr.len() <= s_orig.len());
                }
                None
            }
        },
    }
}

/// The characters of a string slice.
pub fn str_to_chars(s: &str) -> (r: Vec<char>)
    ensures
        r@ == s@,
{
    let n: usize = s.unicode_len();
    let mut out: Vec<char> = Vec::new();
    let mut i: usize = 0;
    while i < n
        invariant
            n == s@.len(),
            i <= n,
            out@ == s@.take(i as int),
        decreases n - i,
    {
        out.push(s.get_char(i));
        proof {
            assert(s@.take(i as int).push(s@[i as int]) =~= s@.take(i + 1));
        }
        i += 1;
    }
    proof {
        assert(s@.take(n as int) =~= s@);
    }
    out
}

/// Parse one whole document.
pub fn json_from_str(s: &str) -> (r: Option<JsonValue>)
    ensures
        match r {
            Some(v) => jparse_doc(s@) == Some(v@),
            None => jparse_doc(s@) is None,
        },
{
    let cs = str_to_chars(s);
    proof {
        assert(cs@.skip(0) =~= s@);
    }
    match parse_value(&cs, 0) {
        None => None,
        Some((v, p)) => {
            let q = skip_ws_pos(&cs, p);
            if q == cs.len() {
                proof {
                    assert(cs@.skip(q as int).len() == 0);
                }
                Some(v)
            } else {
                proof {
                    assert(cs@.skip(q as int).len() > 0);
                }
                None
            }
        },
    }
}


impl Clone for JsonValue {
    /// The clone is the same document.
    #[verifier::loop_isolation(false)]
    fn clone(&self) -> (r: Self)
        ensures
            r@ == self@,
        decreases self,
    {
        match self {
            JsonValue::Null => JsonValue::Null,
            JsonValue::Bool(b) => JsonValue::Bool(*b),
            JsonValue::Int(n) => JsonValue::Int(*n),
            JsonValue::Num(s) => JsonValue::Num(s.clone()),
            JsonValue::Text(s) => JsonValue::Text(s.clone()),
            JsonValue::Arr(elems) => {
                let n = elems.len();
                let mut out: Vec<JsonValue> = Vec::new();
                let mut i: usize = 0;
                proof {
                    lemma_jview_list_index(elems@);
                }
                while i < n
                    invariant
                        i <= n,
                        out@.len() == i,
                        forall|j: int| 0 <= j < i ==> jview(#[trigger] out@[j]) == jview(
                            elems@[j],
                        ),
                    decreases n - i,
                {
                    proof {
                        assert(decreases_to!(*self => (*self)->Arr_0));
                        assert((*self)->Arr_0 == *elems);
                        assert(decreases_to!(*elems => elems@));
                        assert(decreases_to!(elems@ => elems@[i as int]));
                    }
                    out.push(elems[i].clone());
                    i += 1;
                }
                proof {
                    lemma_jview_list_index(out@);
                    assert(jview_list(out@) =~= jview_list(elems@));
                }
                JsonValue::Arr(out)
            },
            JsonValue::Obj(fields) => {
                let n = fields.len();
                let mut out: Vec<(String, JsonValue)> = Vec::new();
                let mut i: usize = 0;
                proof {
                    lemma_jview_fields_index(fields@);
                }
                while i < n
                    invariant
                        i <= n,
                        out@.len() == i,
                        forall|j: int| 0 <= j < i ==> #[trigger] out@[j].0@ == fields@[j].0@
                            && jview(out@[j].1) == jview(fields@[j].1),
                    decreases n - i,
                {
                    proof {
                        assert(decreases_to!(*self => (*self)->Obj_0));
                        assert((*self)->Obj_0 == *fields);
                        assert(decreases_to!(*fields => fields@));
                        assert(decreases_to!(fields@ => fields@[i as int]));
                        assert(decreases_to!(fields@[i as int] => fields@[i as int].1));
                    }
                    out.push((fields[i].0.clone(), fields[i].1.clone()));
                    i += 1;
                }
                proof {
                    lemma_jview_fields_index(out@);
                    assert(jview_fields(out@) =~= jview_fields(fields@));
                }
                JsonValue::Obj(out)
            },
        }
    }
}

} // verus!
