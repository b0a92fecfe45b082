//! A verified codec for the flat JSON objects this system exchanges: one
//! object per line, string keys, and string / unsigned-integer / boolean /
//! null values. Strings escape only `"` and `\`; control bytes are refused.
//! This covers the protocol lines the host process sends and the mapping
//! document the library persists; it is not a general JSON parser.

use crate::bytes::{
    all_digits, dec_digits, dec_value, is_digit, is_prefix_of, match_at, parse_dec, sub_vec,
};
use vstd::prelude::*;

verus! {

/// `"`.
pub const QUOTE: u8 = 34;

/// `\`.
pub const BSLASH: u8 = 92;

/// `{`.
pub const LBRACE: u8 = 123;

/// `}`.
pub const RBRACE: u8 = 125;

/// `:`.
pub const COLON: u8 = 58;

/// `,`.
pub const COMMA: u8 = 44;

/// `true`.
pub open spec fn spec_true_lit() -> Seq<u8> {
    seq![116u8, 114u8, 117u8, 101u8]
}

/// `false`.
pub open spec fn spec_false_lit() -> Seq<u8> {
    seq![102u8, 97u8, 108u8, 115u8, 101u8]
}

/// `null`.
pub open spec fn spec_null_lit() -> Seq<u8> {
    seq![110u8, 117u8, 108u8, 108u8]
}

/// A flat JSON value, at the specification level.
pub ghost enum SpecJson {
    Str(Seq<u8>),
    Num(u64),
    Bool(bool),
    Null,
}

/// A flat JSON value, as executable data.
pub enum JsonVal {
    Str(Vec<u8>),
    Num(u64),
    Bool(bool),
    Null,
}

impl JsonVal {
    /// The specification-level value this executable value stands for.
    pub open spec fn view_val(&self) -> SpecJson {
        match self {
            JsonVal::Str(s) => SpecJson::Str(s@),
            JsonVal::Num(n) => SpecJson::Num(*n),
            JsonVal::Bool(b) => SpecJson::Bool(*b),
            JsonVal::Null => SpecJson::Null,
        }
    }
}

/// The key-value pairs of a parsed object, at the specification level.
pub open spec fn obj_view(pairs: Seq<(Vec<u8>, JsonVal)>) -> Seq<(Seq<u8>, SpecJson)> {
    Seq::new(pairs.len(), |i: int| (pairs[i].0@, pairs[i].1.view_val()))
}

// ---------------------------------------------------------------------------
// Parsing, stated over the remaining input.
// ---------------------------------------------------------------------------

/// Parse a string body (the opening quote already consumed): the content up
/// to the closing quote, and the input after it. Only `\"` and `\\` escapes
/// are understood; control bytes end parsing with a failure.
pub open spec fn str_body_parse(s: Seq<u8>) -> Option<(Seq<u8>, Seq<u8>)>
    decreases s.len(),
{
    if s.len() == 0 {
        None
    } else if s[0] == QUOTE {
        Some((seq![], s.drop_first()))
    } else if s[0] == BSLASH {
        if s.len() >= 2 && (s[1] == QUOTE || s[1] == BSLASH) {
            match str_body_parse(s.skip(2)) {
                Some((t, r)) => Some((seq![s[1]] + t, r)),
                None => None,
            }
        } else {
            None
        }
    } else if s[0] < 32 {
        None
    } else {
        match str_body_parse(s.drop_first()) {
            Some((t, r)) => Some((seq![s[0]] + t, r)),
            None => None,
        }
    }
}

/// Split a leading run of digits off the input.
pub open spec fn split_digits(s: Seq<u8>) -> (Seq<u8>, Seq<u8>)
    decreases s.len(),
{
    if s.len() > 0 && is_digit(s[0]) {
        let (d, r) = split_digits(s.drop_first());
        (seq![s[0]] + d, r)
    } else {
        (seq![], s)
    }
}

/// Parse an unsigned decimal number that fits in a `u64`.
pub open spec fn num_parse(s: Seq<u8>) -> Option<(u64, Seq<u8>)> {
    let (d, r) = split_digits(s);
    if d.len() == 0 || dec_value(d) > u64::MAX {
        None
    } else {
        Some((dec_value(d) as u64, r))
    }
}

/// Parse one flat value: a string, a number, `true`, `false`, or `null`.
pub open spec fn value_parse(s: Seq<u8>) -> Option<(SpecJson, Seq<u8>)> {
    if s.len() == 0 {
        None
    } else if s[0] == QUOTE {
        match str_body_parse(s.drop_first()) {
            Some((t, r)) => Some((SpecJson::Str(t), r)),
            None => None,
        }
    } else if is_digit(s[0]) {
        match num_parse(s) {
            Some((n, r)) => Some((SpecJson::Num(n), r)),
            None => None,
        }
    } else if is_prefix_of(spec_true_lit(), s) {
        Some((SpecJson::Bool(true), s.skip(4)))
    } else if is_prefix_of(spec_false_lit(), s) {
        Some((SpecJson::Bool(false), s.skip(5)))
    } else if is_prefix_of(spec_null_lit(), s) {
        Some((SpecJson::Null, s.skip(4)))
    } else {
        None
    }
}

/// After a successful string parse, some input was consumed.
pub proof fn lemma_str_body_len(s: Seq<u8>)
    ensures
        str_body_parse(s) matches Some(p) ==> p.1.len() < s.len(),
    decreases s.len(),
{
    if s.len() > 0 && s[0] != QUOTE {
        if s[0] == BSLASH {
            if s.len() >= 2 && (s[1] == QUOTE || s[1] == BSLASH) {
                lemma_str_body_len(s.skip(2));
            }
        } else if s[0] >= 32 {
            lemma_str_body_len(s.drop_first());
        }
    }
}

/// Splitting digits never grows the remainder, and consumes input exactly
/// when a digit leads.
pub proof fn lemma_split_digits_len(s: Seq<u8>)
    ensures
        split_digits(s).1.len() + split_digits(s).0.len() == s.len(),
    decreases s.len(),
{
    if s.len() > 0 && is_digit(s[0]) {
        lemma_split_digits_len(s.drop_first());
    }
}

/// After a successful value parse, some input was consumed.
pub proof fn lemma_value_len(s: Seq<u8>)
    ensures
        value_parse(s) matches Some(p) ==> p.1.len() < s.len(),
{
    if s.len() > 0 {
        if s[0] == QUOTE {
            lemma_str_body_len(s.drop_first());
        } else if is_digit(s[0]) {
            lemma_split_digits_len(s);
        }
    }
}

/// Parse the pairs of an object after its opening brace, up to and including
/// the closing brace.
pub open spec fn pairs_parse(s: Seq<u8>) -> Option<(Seq<(Seq<u8>, SpecJson)>, Seq<u8>)>
    decreases s.len(),
    via pairs_parse_decreases
{
    if s.len() > 0 && s[0] == QUOTE {
        match str_body_parse(s.drop_first()) {
            Some((k, r1)) => if r1.len() > 0 && r1[0] == COLON {
                match value_parse(r1.drop_first()) {
                    Some((v, r2)) => if r2.len() > 0 && r2[0] == COMMA {
                        match pairs_parse(r2.drop_first()) {
                            Some((rest, r3)) => Some((seq![(k, v)] + rest, r3)),
                            None => None,
                        }
                    } else if r2.len() > 0 && r2[0] == RBRACE {
                        Some((seq![(k, v)], r2.drop_first()))
                    } else {
                        None
                    },
                    None => None,
                }
            } else {
                None
            },
            None => None,
        }
    } else {
        None
    }
}

#[via_fn]
proof fn pairs_parse_decreases(s: Seq<u8>) {
    if s.len() > 0 && s[0] == QUOTE {
        lemma_str_body_len(s.drop_first());
        match str_body_parse(s.drop_first()) {
            Some((k, r1)) => {
                if r1.len() > 0 && r1[0] == COLON {
                    lemma_value_len(r1.drop_first());
                }
            },
            None => {},
        }
    }
}

/// Parse a whole object: the entire input must be one flat object.
pub open spec fn object_parse(s: Seq<u8>) -> Option<Seq<(Seq<u8>, SpecJson)>> {
    if s.len() >= 1 && s[0] == LBRACE {
        let r = s.drop_first();
        if r.len() > 0 && r[0] == RBRACE {
            if r.len() == 1 {
                Some(seq![])
            } else {
                None
            }
        } else {
            match pairs_parse(r) {
                Some((ps, rem)) => if rem.len() == 0 {
                    Some(ps)
                } else {
                    None
                },
                None => None,
            }
        }
    } else {
        None
    }
}

// ---------------------------------------------------------------------------
// Encoding.
// ---------------------------------------------------------------------------

/// A byte of string content, escaped where the format requires it.
pub open spec fn esc_byte(b: u8) -> Seq<u8> {
    if b == QUOTE || b == BSLASH {
        seq![BSLASH, b]
    } else {
        seq![b]
    }
}

/// String content with `"` and `\` escaped.
pub open spec fn spec_escape(s: Seq<u8>) -> Seq<u8>
    decreases s.len(),
{
    if s.len() == 0 {
        seq![]
    } else {
        esc_byte(s[0]) + spec_escape(s.drop_first())
    }
}

/// A quoted, escaped JSON string.
pub open spec fn spec_quote(s: Seq<u8>) -> Seq<u8> {
    seq![QUOTE] + spec_escape(s) + seq![QUOTE]
}

/// The encoding of one flat value.
pub open spec fn spec_value(v: SpecJson) -> Seq<u8> {
    match v {
        SpecJson::Str(s) => spec_quote(s),
        SpecJson::Num(n) => dec_digits(n as nat),
        SpecJson::Bool(b) => if b {
            spec_true_lit()
        } else {
            spec_false_lit()
        },
        SpecJson::Null => spec_null_lit(),
    }
}

/// The body of a non-empty object: `"key":value` pairs joined by commas.
pub open spec fn spec_obj_body(pairs: Seq<(Seq<u8>, SpecJson)>) -> Seq<u8>
    decreases pairs.len(),
{
    if pairs.len() == 0 {
        seq![]
    } else if pairs.len() == 1 {
        spec_quote(pairs[0].0) + seq![COLON] + spec_value(pairs[0].1)
    } else {
        spec_quote(pairs[0].0) + seq![COLON] + spec_value(pairs[0].1) + seq![COMMA]
            + spec_obj_body(pairs.drop_first())
    }
}

/// A whole object, `{}` when there are no pairs.
pub open spec fn spec_encode_object(pairs: Seq<(Seq<u8>, SpecJson)>) -> Seq<u8> {
    seq![LBRACE] + spec_obj_body(pairs) + seq![RBRACE]
}

/// A byte string free of control bytes, as all content this system writes
/// into JSON strings is.
pub open spec fn json_clean(s: Seq<u8>) -> bool {
    forall|j: int| 0 <= j < s.len() ==> #[trigger] s[j] >= 32
}

/// Every value this system encodes is a clean string or a scalar.
pub open spec fn value_clean(v: SpecJson) -> bool {
    match v {
        SpecJson::Str(s) => json_clean(s),
        _ => true,
    }
}

pub open spec fn pairs_clean(pairs: Seq<(Seq<u8>, SpecJson)>) -> bool {
    forall|i: int|
        0 <= i < pairs.len() ==> json_clean(#[trigger] pairs[i].0) && value_clean(pairs[i].1)
}

// ---------------------------------------------------------------------------
// Round trip: parsing an encoded object gives the pairs back.
// ---------------------------------------------------------------------------

/// Parsing a quoted string consumes exactly the quoted run.
proof fn lemma_escape_round(s: Seq<u8>, rest: Seq<u8>)
    requires
        json_clean(s),
    ensures
        str_body_parse(spec_escape(s) + seq![QUOTE] + rest) == Some((s, rest)),
    decreases s.len(),
{
    let input = spec_escape(s) + seq![QUOTE] + rest;
    if s.len() == 0 {
        assert(input =~= seq![QUOTE] + rest);
        assert(input[0] == QUOTE);
        assert(input.drop_first() =~= rest);
    } else {
        assert(json_clean(s.drop_first()));
        lemma_escape_round(s.drop_first(), rest);
        let tail_input = spec_escape(s.drop_first()) + seq![QUOTE] + rest;
        if s[0] == QUOTE || s[0] == BSLASH {
            assert(input =~= seq![BSLASH, s[0]] + tail_input);
            assert(input[0] == BSLASH);
            assert(input[1] == s[0]);
            assert(input.skip(2) =~= tail_input);
            assert(seq![s[0]] + s.drop_first() =~= s);
        } else {
            assert(input =~= seq![s[0]] + tail_input);
            assert(input[0] != QUOTE && input[0] != BSLASH && input[0] >= 32);
            assert(input.drop_first() =~= tail_input);
            assert(seq![s[0]] + s.drop_first() =~= s);
        }
    }
}

/// Splitting digits off a digit run followed by a non-digit recovers the run.
proof fn lemma_digits_round(d: Seq<u8>, rest: Seq<u8>)
    requires
        crate::bytes::all_digits(d),
        rest.len() > 0 ==> !is_digit(rest[0]),
    ensures
        split_digits(d + rest) == (d, rest),
    decreases d.len(),
{
    let input = d + rest;
    if d.len() == 0 {
        assert(input =~= rest);
        assert(split_digits(input).0 =~= d);
    } else {
        assert(input[0] == d[0] && is_digit(d[0]));
        assert(input.drop_first() =~= d.drop_first() + rest);
        assert(crate::bytes::all_digits(d.drop_first()));
        lemma_digits_round(d.drop_first(), rest);
        assert(seq![d[0]] + d.drop_first() =~= d);
    }
}

/// Parsing an encoded value consumes exactly the value. For numbers the
/// following byte must not be a digit, which holds inside objects, where a
/// comma or closing brace follows.
proof fn lemma_value_round(v: SpecJson, rest: Seq<u8>)
    requires
        value_clean(v),
        rest.len() > 0,
        !is_digit(rest[0]),
        rest[0] != QUOTE,
    ensures
        value_parse(spec_value(v) + rest) == Some((v, rest)),
{
    let input = spec_value(v) + rest;
    match v {
        SpecJson::Str(s) => {
            assert(input =~= seq![QUOTE] + (spec_escape(s) + seq![QUOTE] + rest));
            assert(input[0] == QUOTE);
            assert(input.drop_first() =~= spec_escape(s) + seq![QUOTE] + rest);
            lemma_escape_round(s, rest);
        },
        SpecJson::Num(n) => {
            crate::bytes::lemma_dec_digits(n as nat);
            let d = dec_digits(n as nat);
            assert(input[0] == d[0] && is_digit(d[0]));
            assert(input[0] != QUOTE);
            lemma_digits_round(d, rest);
        },
        SpecJson::Bool(b) => {
            if b {
                assert(input[0] == 116u8);
                assert(!is_digit(input[0]) && input[0] != QUOTE);
                assert(input.subrange(0, 4) =~= spec_true_lit());
                assert(is_prefix_of(spec_true_lit(), input));
                assert(input.skip(4) =~= rest);
            } else {
                assert(input[0] == 102u8);
                assert(!is_digit(input[0]) && input[0] != QUOTE);
                assert(input.subrange(0, 5) =~= spec_false_lit());
                assert(is_prefix_of(spec_false_lit(), input));
                assert(!is_prefix_of(spec_true_lit(), input));
                assert(input.skip(5) =~= rest);
            }
        },
        SpecJson::Null => {
            assert(input[0] == 110u8);
            assert(!is_digit(input[0]) && input[0] != QUOTE);
            assert(input.subrange(0, 4) =~= spec_null_lit());
            assert(is_prefix_of(spec_null_lit(), input));
            assert(!is_prefix_of(spec_true_lit(), input));
            assert(!is_prefix_of(spec_false_lit(), input));
            assert(input.skip(4) =~= rest);
        },
    }
}

/// Parsing an encoded run of pairs consumes it, closing brace included.
proof fn lemma_pairs_round(pairs: Seq<(Seq<u8>, SpecJson)>, rest: Seq<u8>)
    requires
        pairs.len() > 0,
        pairs_clean(pairs),
    ensures
        pairs_parse(spec_obj_body(pairs) + seq![RBRACE] + rest) == Some((pairs, rest)),
    decreases pairs.len(),
{
    let input = spec_obj_body(pairs) + seq![RBRACE] + rest;
    let k = pairs[0].0;
    let v = pairs[0].1;
    assert(json_clean(k) && value_clean(v));
    if pairs.len() == 1 {
        let after_key = seq![COLON] + spec_value(v) + seq![RBRACE] + rest;
        assert(input =~= seq![QUOTE] + (spec_escape(k) + seq![QUOTE] + after_key));
        assert(input[0] == QUOTE);
        assert(input.drop_first() =~= spec_escape(k) + seq![QUOTE] + after_key);
        lemma_escape_round(k, after_key);
        assert(after_key[0] == COLON);
        assert(after_key.drop_first() =~= spec_value(v) + (seq![RBRACE] + rest));
        lemma_value_round(v, seq![RBRACE] + rest);
        let r2 = seq![RBRACE] + rest;
        assert(r2[0] == RBRACE && r2[0] != COMMA);
        assert(r2.drop_first() =~= rest);
        assert(seq![(k, v)] =~= pairs);
    } else {
        let tail = spec_obj_body(pairs.drop_first()) + seq![RBRACE] + rest;
        let after_key = seq![COLON] + spec_value(v) + seq![COMMA] + tail;
        assert(input =~= seq![QUOTE] + (spec_escape(k) + seq![QUOTE] + after_key));
        assert(input[0] == QUOTE);
        assert(input.drop_first() =~= spec_escape(k) + seq![QUOTE] + after_key);
        lemma_escape_round(k, after_key);
        assert(after_key[0] == COLON);
        assert(after_key.drop_first() =~= spec_value(v) + (seq![COMMA] + tail));
        lemma_value_round(v, seq![COMMA] + tail);
        let r2 = seq![COMMA] + tail;
        assert(r2[0] == COMMA);
        assert(r2.drop_first() =~= tail);
        assert(pairs_clean(pairs.drop_first()));
        lemma_pairs_round(pairs.drop_first(), rest);
        assert(seq![(k, v)] + pairs.drop_first() =~= pairs);
    }
}

/// Parsing an encoded object gives the pairs back: the codec's round trip.
pub proof fn lemma_object_round_trip(pairs: Seq<(Seq<u8>, SpecJson)>)
    requires
        pairs_clean(pairs),
    ensures
        object_parse(spec_encode_object(pairs)) == Some(pairs),
{
    let input = spec_encode_object(pairs);
    assert(input[0] == LBRACE);
    if pairs.len() == 0 {
        assert(input =~= seq![LBRACE, RBRACE]);
        assert(input.drop_first() =~= seq![RBRACE]);
        assert(Some(Seq::<(Seq<u8>, SpecJson)>::empty()) == object_parse(input));
        assert(pairs =~= Seq::<(Seq<u8>, SpecJson)>::empty());
    } else {
        let r = spec_obj_body(pairs) + seq![RBRACE] + Seq::<u8>::empty();
        assert(input.drop_first() =~= r);
        assert(r[0] == QUOTE && r[0] != RBRACE);
        lemma_pairs_round(pairs, Seq::<u8>::empty());
    }
}

// ---------------------------------------------------------------------------
// The executable parser.
// ---------------------------------------------------------------------------

/// A successful parse of the rest of the input, with `acc` already read.
spec fn str_cont(s: Seq<u8>, acc: Seq<u8>) -> Option<(Seq<u8>, Seq<u8>)> {
    match str_body_parse(s) {
        Some(p) => Some((acc + p.0, p.1)),
        None => None,
    }
}

/// Parse a string body starting at `i` (the opening quote already consumed).
fn parse_str_body(s: &Vec<u8>, i: usize) -> (r: Option<(Vec<u8>, usize)>)
    requires
        i <= s@.len(),
    ensures
        match r {
            Some(p) => p.1 <= s@.len() && str_body_parse(s@.skip(i as int)) == Some(
                (p.0@, s@.skip(p.1 as int)),
            ),
            None => str_body_parse(s@.skip(i as int)) is None,
        },
{
    let mut acc: Vec<u8> = Vec::new();
    let mut p: usize = i;
    proof {
        match str_body_parse(s@.skip(i as int)) {
            Some(q) => {
                assert(acc@ + q.0 =~= q.0);
            },
            None => {},
        }
    }
    while p < s.len()
        invariant
            i <= p <= s@.len(),
            str_body_parse(s@.skip(i as int)) == str_cont(s@.skip(p as int), acc@),
        decreases s@.len() - p,
    {
        let ghost rem = s@.skip(p as int);
        let ghost acc0 = acc@;
        proof {
            assert(rem[0] == s@[p as int]);
            assert(rem.drop_first() =~= s@.skip(p as int + 1));
        }
        let b = s[p];
        if b == QUOTE {
            proof {
                assert(str_body_parse(rem) == Some((Seq::<u8>::empty(), s@.skip(p as int + 1))));
                assert(acc0 + Seq::<u8>::empty() =~= acc0);
            }
            return Some((acc, p + 1));
        } else if b == BSLASH {
            if p + 1 < s.len() {
                let c = s[p + 1];
                if c == QUOTE || c == BSLASH {
                    proof {
                        assert(rem.len() >= 2 && rem[1] == c);
                        assert(rem.skip(2) =~= s@.skip(p as int + 2));
                    }
                    acc.push(c);
                    proof {
                        match str_body_parse(s@.skip(p as int + 2)) {
                            Some(q) => {
                                assert(acc0 + (seq![c] + q.0) =~= (acc0.push(c)) + q.0);
                            },
                            None => {},
                        }
                    }
                    p = p + 2;
                } else {
                    return None;
                }
            } else {
                proof {
                    assert(rem.len() == 1);
                }
                return None;
            }
        } else if b < 32 {
            return None;
        } else {
            acc.push(b);
            proof {
                match str_body_parse(s@.skip(p as int + 1)) {
                    Some(q) => {
                        assert(acc0 + (seq![b] + q.0) =~= (acc0.push(b)) + q.0);
                    },
                    None => {},
                }
            }
            p = p + 1;
        }
    }
    proof {
        assert(s@.skip(p as int) =~= Seq::<u8>::empty());
    }
    None
}

proof fn lemma_split_digits_range(s: Seq<u8>, i: int, j: int)
    requires
        0 <= i <= j <= s.len(),
        forall|k: int| i <= k < j ==> is_digit(#[trigger] s[k]),
        j < s.len() ==> !is_digit(s[j]),
    ensures
        split_digits(s.skip(i)) == (s.subrange(i, j), s.skip(j)),
    decreases j - i,
{
    if i == j {
        assert(s.subrange(i, j) =~= Seq::<u8>::empty());
        if i < s.len() {
            assert(s.skip(i)[0] == s[i]);
        }
        assert(split_digits(s.skip(i)).0 =~= s.subrange(i, j));
        assert(split_digits(s.skip(i)).1 =~= s.skip(i));
    } else {
        assert(s.skip(i)[0] == s[i] && is_digit(s[i]));
        assert(s.skip(i).drop_first() =~= s.skip(i + 1));
        lemma_split_digits_range(s, i + 1, j);
        assert(seq![s[i]] + s.subrange(i + 1, j) =~= s.subrange(i, j));
    }
}

/// Parse an unsigned decimal number starting at `i`.
fn parse_number(s: &Vec<u8>, i: usize) -> (r: Option<(u64, usize)>)
    requires
        i <= s@.len(),
    ensures
        match r {
            Some(p) => p.1 <= s@.len() && num_parse(s@.skip(i as int)) == Some(
                (p.0, s@.skip(p.1 as int)),
            ),
            None => num_parse(s@.skip(i as int)) is None,
        },
{
    let mut j: usize = i;
    while j < s.len() && 48 <= s[j] && s[j] <= 57
        invariant
            i <= j <= s@.len(),
            forall|k: int| i <= k < j ==> is_digit(#[trigger] s@[k]),
        decreases s@.len() - j,
    {
        j += 1;
    }
    proof {
        lemma_split_digits_range(s@, i as int, j as int);
    }
    let d = sub_vec(s, i, j);
    match parse_dec(&d) {
        Some(n) => Some((n, j)),
        None => None,
    }
}

/// `true` as bytes.
fn true_lit() -> (v: Vec<u8>)
    ensures
        v@ == spec_true_lit(),
{
    let v: Vec<u8> = vec![116u8, 114u8, 117u8, 101u8];
    proof {
        assert(v@ =~= spec_true_lit());
    }
    v
}

/// `false` as bytes.
fn false_lit() -> (v: Vec<u8>)
    ensures
        v@ == spec_false_lit(),
{
    let v: Vec<u8> = vec![102u8, 97u8, 108u8, 115u8, 101u8];
    proof {
        assert(v@ =~= spec_false_lit());
    }
    v
}

/// `null` as bytes.
fn null_lit() -> (v: Vec<u8>)
    ensures
        v@ == spec_null_lit(),
{
    let v: Vec<u8> = vec![110u8, 117u8, 108u8, 108u8];
    proof {
        assert(v@ =~= spec_null_lit());
    }
    v
}

/// Is `lit` present at position `i`? Stated over the remaining input.
fn prefix_at(s: &Vec<u8>, lit: &Vec<u8>, i: usize) -> (r: bool)
    requires
        i <= s@.len(),
    ensures
        r == is_prefix_of(lit@, s@.skip(i as int)),
{
    let ghost rem = s@.skip(i as int);
    if lit.len() > s.len() - i {
        assert(!is_prefix_of(lit@, rem));
        return false;
    }
    let m = match_at(s, lit, i);
    proof {
        assert(rem.subrange(0, lit@.len() as int) =~= s@.subrange(
            i as int,
            i as int + lit@.len() as int,
        ));
    }
    m
}

/// Parse one flat value starting at `i`.
fn parse_value(s: &Vec<u8>, i: usize) -> (r: Option<(JsonVal, usize)>)
    requires
        i <= s@.len(),
    ensures
        match r {
            Some(p) => p.1 <= s@.len() && value_parse(s@.skip(i as int)) == Some(
                (p.0.view_val(), s@.skip(p.1 as int)),
            ),
            None => value_parse(s@.skip(i as int)) is None,
        },
{
    let ghost rem = s@.skip(i as int);
    if i == s.len() {
        proof {
            assert(rem.len() == 0);
        }
        return None;
    }
    proof {
        assert(rem[0] == s@[i as int]);
        assert(rem.drop_first() =~= s@.skip(i as int + 1));
    }
    let b = s[i];
    if b == QUOTE {
        match parse_str_body(s, i + 1) {
            Some((t, j)) => Some((JsonVal::Str(t), j)),
            None => None,
        }
    } else if 48 <= b && b <= 57 {
        match parse_number(s, i) {
            Some((n, j)) => Some((JsonVal::Num(n), j)),
            None => None,
        }
    } else if prefix_at(s, &true_lit(), i) {
        proof {
            assert(rem.skip(4) =~= s@.skip(i as int + 4));
        }
        Some((JsonVal::Bool(true), i + 4))
    } else if prefix_at(s, &false_lit(), i) {
        proof {
            assert(rem.skip(5) =~= s@.skip(i as int + 5));
        }
        Some((JsonVal::Bool(false), i + 5))
    } else if prefix_at(s, &null_lit(), i) {
        proof {
            assert(rem.skip(4) =~= s@.skip(i as int + 4));
        }
        Some((JsonVal::Null, i + 4))
    } else {
        None
    }
}

/// A successful parse of the remaining pairs, with `acc` already read.
spec fn pairs_cont(s: Seq<u8>, acc: Seq<(Seq<u8>, SpecJson)>) -> Option<
    (Seq<(Seq<u8>, SpecJson)>, Seq<u8>),
> {
    match pairs_parse(s) {
        Some(p) => Some((acc + p.0, p.1)),
        None => None,
    }
}

/// Parse a whole input line as one flat JSON object.
pub fn parse_object(s: &Vec<u8>) -> (r: Option<Vec<(Vec<u8>, JsonVal)>>)
    ensures
        match r {
            Some(ps) => object_parse(s@) == Some(obj_view(ps@)),
            None => object_parse(s@) is None,
        },
{
    if s.len() == 0 {
        return None;
    }
    if s[0] != LBRACE {
        return None;
    }
    proof {
        assert(s@.drop_first() =~= s@.skip(1));
        if s@.len() >= 2 {
            assert(s@.skip(1)[0] == s@[1]);
        }
    }
    if s.len() >= 2 && s[1] == RBRACE {
        if s.len() == 2 {
            let empty: Vec<(Vec<u8>, JsonVal)> = Vec::new();
            proof {
                assert(obj_view(empty@) =~= Seq::<(Seq<u8>, SpecJson)>::empty());
            }
            return Some(empty);
        }
        return None;
    }
    let mut acc: Vec<(Vec<u8>, JsonVal)> = Vec::new();
    let mut p: usize = 1;
    proof {
        match pairs_parse(s@.skip(1)) {
            Some(q) => {
                assert(obj_view(acc@) + q.0 =~= q.0);
            },
            None => {},
        }
    }
    loop
        invariant
            1 <= p <= s@.len(),
            s@.len() >= 1 && s@[0] == LBRACE,
            !(s@.len() >= 2 && s@.skip(1)[0] == RBRACE),
            pairs_parse(s@.skip(1)) == pairs_cont(s@.skip(p as int), obj_view(acc@)),
        decreases s@.len() - p,
    {
        let ghost rem = s@.skip(p as int);
        let ghost acc0 = obj_view(acc@);
        proof {
            if p < s@.len() {
                assert(rem[0] == s@[p as int]);
                assert(rem.drop_first() =~= s@.skip(p as int + 1));
            }
        }
        if p == s.len() || s[p] != QUOTE {
            return None;
        }
        let key = match parse_str_body(s, p + 1) {
            Some(kj) => kj,
            None => {
                return None;
            },
        };
        let j = key.1;
        proof {
            lemma_str_body_len(s@.skip(p as int + 1));
            assert(j > p + 1);
        }
        let ghost r1 = s@.skip(j as int);
        proof {
            if j < s@.len() {
                assert(r1[0] == s@[j as int]);
                assert(r1.drop_first() =~= s@.skip(j as int + 1));
            }
        }
        if j == s.len() || s[j] != COLON {
            return None;
        }
        let val = match parse_value(s, j + 1) {
            Some(vm) => vm,
            None => {
                return None;
            },
        };
        let m = val.1;
        proof {
            lemma_value_len(s@.skip(j as int + 1));
            assert(m > j + 1);
        }
        let ghost r2 = s@.skip(m as int);
        proof {
            if m < s@.len() {
                assert(r2[0] == s@[m as int]);
                assert(r2.drop_first() =~= s@.skip(m as int + 1));
            }
        }
        if m == s.len() {
            return None;
        }
        let c = s[m];
        if c == COMMA {
            acc.push((key.0, val.0));
            proof {
                match pairs_parse(s@.skip(m as int + 1)) {
                    Some(q) => {
                        assert(obj_view(acc@) =~= acc0.push((key.0@, val.0.view_val())));
                        assert(acc0 + (seq![(key.0@, val.0.view_val())] + q.0) =~= obj_view(acc@)
                            + q.0);
                    },
                    None => {},
                }
            }
            p = m + 1;
            if p > s.len() {
                return None;
            }
        } else if c == RBRACE {
            acc.push((key.0, val.0));
            proof {
                assert(pairs_parse(rem) == Some(
                    (seq![(key.0@, val.0.view_val())], s@.skip(m as int + 1)),
                ));
                assert(obj_view(acc@) =~= acc0.push((key.0@, val.0.view_val())));
                assert(acc0 + seq![(key.0@, val.0.view_val())] =~= obj_view(acc@));
            }
            if m + 1 == s.len() {
                proof {
                    assert(s@.skip(m as int + 1) =~= Seq::<u8>::empty());
                }
                return Some(acc);
            }
            return None;
        } else {
            return None;
        }
    }
}

// ---------------------------------------------------------------------------
// The executable encoder.
// ---------------------------------------------------------------------------

/// Escaping one more byte appends its escape.
proof fn lemma_escape_push(t: Seq<u8>, b: u8)
    ensures
        spec_escape(t.push(b)) == spec_escape(t) + esc_byte(b),
    decreases t.len(),
{
    let whole = t.push(b);
    if t.len() == 0 {
        assert(whole[0] == b);
        assert(whole.drop_first() =~= Seq::<u8>::empty());
        assert(spec_escape(whole) =~= esc_byte(b) + spec_escape(Seq::<u8>::empty()));
        assert(esc_byte(b) + Seq::<u8>::empty() =~= esc_byte(b));
        assert(spec_escape(t) + esc_byte(b) =~= esc_byte(b));
    } else {
        assert(whole[0] == t[0]);
        assert(whole.drop_first() =~= t.drop_first().push(b));
        lemma_escape_push(t.drop_first(), b);
        assert(esc_byte(t[0]) + (spec_escape(t.drop_first()) + esc_byte(b)) =~= (esc_byte(t[0])
            + spec_escape(t.drop_first())) + esc_byte(b));
    }
}

/// Append a quoted, escaped string to `out`.
pub fn emit_string(out: &mut Vec<u8>, s: &Vec<u8>)
    ensures
        final(out)@ == old(out)@ + spec_quote(s@),
{
    let ghost start = out@;
    out.push(QUOTE);
    let mut i: usize = 0;
    proof {
        assert(s@.take(0) =~= Seq::<u8>::empty());
        assert(out@ =~= start + seq![QUOTE] + spec_escape(s@.take(0)));
    }
    while i < s.len()
        invariant
            i <= s@.len(),
            out@ == start + seq![QUOTE] + spec_escape(s@.take(i as int)),
        decreases s@.len() - i,
    {
        let b = s[i];
        proof {
            assert(s@.take(i + 1) =~= s@.take(i as int).push(s@[i as int]));
            lemma_escape_push(s@.take(i as int), s@[i as int]);
        }
        if b == QUOTE || b == BSLASH {
            out.push(BSLASH);
            out.push(b);
            proof {
                assert(out@ =~= start + seq![QUOTE] + spec_escape(s@.take(i + 1)));
            }
        } else {
            out.push(b);
            proof {
                assert(out@ =~= start + seq![QUOTE] + spec_escape(s@.take(i + 1)));
            }
        }
        i += 1;
    }
    out.push(QUOTE);
    proof {
        assert(s@.take(s@.len() as int) =~= s@);
        assert(out@ =~= start + spec_quote(s@));
    }
}

/// Append the encoding of one flat value to `out`.
pub fn emit_value(out: &mut Vec<u8>, v: &JsonVal)
    ensures
        final(out)@ == old(out)@ + spec_value(v.view_val()),
{
    match v {
        JsonVal::Str(s) => emit_string(out, s),
        JsonVal::Num(n) => {
            let d = crate::bytes::u64_to_dec(*n);
            out.extend_from_slice(d.as_slice());
        },
        JsonVal::Bool(b) => {
            if *b {
                out.extend_from_slice(true_lit().as_slice());
            } else {
                out.extend_from_slice(false_lit().as_slice());
            }
        },
        JsonVal::Null => {
            out.extend_from_slice(null_lit().as_slice());
        },
    }
}

/// Encode a flat object, as [`spec_encode_object`] describes.
pub fn encode_object(pairs: &Vec<(Vec<u8>, JsonVal)>) -> (r: Vec<u8>)
    ensures
        r@ == spec_encode_object(obj_view(pairs@)),
{
    let ghost pv = obj_view(pairs@);
    let mut out: Vec<u8> = Vec::new();
    out.push(LBRACE);
    let mut i: usize = 0;
    proof {
        assert(out@ =~= seq![LBRACE]);
        assert(out@.skip(1) =~= Seq::<u8>::empty());
        assert(pv.skip(0) =~= pv);
        assert(Seq::<u8>::empty() + spec_obj_body(pv) =~= spec_obj_body(pv));
    }
    while i < pairs.len()
        invariant
            i <= pairs@.len(),
            pv == obj_view(pairs@),
            spec_obj_body(pv) == out@.skip(1) + spec_obj_body(pv.skip(i as int)),
            out@.len() >= 1 && out@[0] == LBRACE,
        decreases pairs@.len() - i,
    {
        let ghost built = out@.skip(1);
        let ghost remp = pv.skip(i as int);
        proof {
            assert(remp[0] == pv[i as int]);
            assert(remp.drop_first() =~= pv.skip(i as int + 1));
            assert(pv[i as int] == (pairs@[i as int].0@, pairs@[i as int].1.view_val()));
        }
        emit_string(&mut out, &pairs[i].0);
        out.push(COLON);
        emit_value(&mut out, &pairs[i].1);
        if i + 1 < pairs.len() {
            out.push(COMMA);
            proof {
                assert(remp.len() >= 2);
                assert(spec_obj_body(remp) =~= spec_quote(pv[i as int].0) + seq![COLON]
                    + spec_value(pv[i as int].1) + seq![COMMA] + spec_obj_body(
                    pv.skip(i as int + 1),
                ));
                assert(out@.skip(1) =~= built + spec_quote(pv[i as int].0) + seq![COLON]
                    + spec_value(pv[i as int].1) + seq![COMMA]);
                assert(built + spec_obj_body(remp) =~= out@.skip(1) + spec_obj_body(
                    pv.skip(i as int + 1),
                ));
            }
        } else {
            proof {
                assert(remp.len() == 1);
                assert(spec_obj_body(remp) =~= spec_quote(pv[i as int].0) + seq![COLON]
                    + spec_value(pv[i as int].1));
                assert(out@.skip(1) =~= built + spec_obj_body(remp));
                assert(pv.skip(i as int + 1) =~= Seq::<(Seq<u8>, SpecJson)>::empty());
                assert(spec_obj_body(pv.skip(i as int + 1)) =~= Seq::<u8>::empty());
                assert(built + spec_obj_body(remp) =~= out@.skip(1) + spec_obj_body(
                    pv.skip(i as int + 1),
                ));
            }
        }
        i += 1;
    }
    proof {
        assert(pv.skip(i as int) =~= Seq::<(Seq<u8>, SpecJson)>::empty());
        assert(spec_obj_body(pv.skip(i as int)) =~= Seq::<u8>::empty());
        assert(spec_obj_body(pv) =~= out@.skip(1));
    }
    out.push(RBRACE);
    proof {
        assert(out@ =~= seq![LBRACE] + spec_obj_body(pv) + seq![RBRACE]);
    }
    out
}

} // verus!
