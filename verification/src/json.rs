//! A small JSON codec covering the shapes this service stores and reads:
//! scalars (strings with the common escapes, numbers, booleans, null),
//! flat arrays of scalars, and documents — objects whose values are
//! scalars, arrays of scalars, or one nested object of scalars.
//!
//! The tags column of a task row is written by `encode_tags` and read back
//! by `decode_tags`; `lemma_tags_round_trip` proves the round trip lossless
//! for every list of tags. Replies from the extraction endpoint are read
//! with `parse_docs_text`.
//!
//! Numbers are recognised but their value is not retained: no field of the
//! data model reads one. Unicode escapes (`\uXXXX`) are not accepted; a
//! reply using them is reported as unparsable. Strings written by the
//! encoder escape only `"` and `\`, and the parser accepts every other
//! character raw.
use vstd::prelude::*;

use crate::text::is_space;

verus! {

// ---------------------------------------------------------------------
// Spec-level values
// ---------------------------------------------------------------------

/// Spec-level scalar.
pub enum ScalarS {
    Null,
    Bool(bool),
    Num,
    Str(Seq<char>),
}

/// Executable scalar.
#[derive(Debug)]
pub enum Scalar {
    Null,
    Bool(bool),
    Num,
    Str(String),
}

impl View for Scalar {
    type V = ScalarS;

    open spec fn view(&self) -> ScalarS {
        match self {
            Scalar::Null => ScalarS::Null,
            Scalar::Bool(b) => ScalarS::Bool(*b),
            Scalar::Num => ScalarS::Num,
            Scalar::Str(s) => ScalarS::Str(s@),
        }
    }
}

impl DeepView for Scalar {
    type V = ScalarS;

    open spec fn deep_view(&self) -> ScalarS {
        self.view()
    }
}

/// The payload of a string scalar; the empty string for the other kinds.
pub open spec fn scalar_str(v: ScalarS) -> Seq<char> {
    match v {
        ScalarS::Str(t) => t,
        _ => Seq::empty(),
    }
}

/// The string payloads of a sequence of scalars.
pub open spec fn as_strings(items: Seq<ScalarS>) -> Seq<Seq<char>> {
    items.map_values(|v: ScalarS| scalar_str(v))
}

/// A sequence of strings as string scalars.
pub open spec fn as_scalars(ts: Seq<Seq<char>>) -> Seq<ScalarS> {
    ts.map_values(|t: Seq<char>| ScalarS::Str(t))
}

/// Every scalar of the sequence is a string.
pub open spec fn all_strings(items: Seq<ScalarS>) -> bool {
    forall|k: int| 0 <= k < items.len() ==> items[k] is Str
}

// ---------------------------------------------------------------------
// Character classes and low-level scans
// ---------------------------------------------------------------------

/// Decimal digit.
pub open spec fn is_digit(c: char) -> bool {
    0x30 <= (c as u32) <= 0x39
}

/// Characters that may continue a number lexeme.
pub open spec fn is_num_char(c: char) -> bool {
    is_digit(c) || c == '-' || c == '+' || c == '.' || c == 'e' || c == 'E'
}

/// The first index at or after `i` holding a non-whitespace character,
/// or the length of `s` when only whitespace remains.
pub open spec fn skip_ws(s: Seq<char>, i: int) -> int
    decreases s.len() - i,
    when 0 <= i <= s.len()
{
    if i < s.len() && is_space(s[i]) {
        skip_ws(s, i + 1)
    } else {
        i
    }
}

pub proof fn lemma_skip_ws_bounds(s: Seq<char>, i: int)
    requires
        0 <= i <= s.len(),
    ensures
        i <= skip_ws(s, i) <= s.len(),
        skip_ws(s, i) < s.len() ==> !is_space(s[skip_ws(s, i)]),
    decreases s.len() - i,
{
    if i < s.len() && is_space(s[i]) {
        lemma_skip_ws_bounds(s, i + 1);
    }
}

/// Runtime mirror of `skip_ws`.
pub fn skip_ws_x(s: &Vec<char>, i: usize) -> (r: usize)
    requires
        i <= s@.len(),
    ensures
        r == skip_ws(s@, i as int),
        i <= r <= s@.len(),
        r < s@.len() ==> !is_space(s@[r as int]),
    decreases s@.len() - i,
{
    proof {
        lemma_skip_ws_bounds(s@, i as int);
    }
    if i < s.len() {
        let c = s[i];
        if c == ' ' || c == '\t' || c == '\n' || c == '\r' {
            return skip_ws_x(s, i + 1);
        }
    }
    i
}

/// The end of the maximal run of number characters starting at `i`.
pub open spec fn scan_number(s: Seq<char>, i: int) -> int
    decreases s.len() - i,
    when 0 <= i <= s.len()
{
    if i < s.len() && is_num_char(s[i]) {
        scan_number(s, i + 1)
    } else {
        i
    }
}

pub proof fn lemma_scan_number_bounds(s: Seq<char>, i: int)
    requires
        0 <= i <= s.len(),
    ensures
        i <= scan_number(s, i) <= s.len(),
    decreases s.len() - i,
{
    if i < s.len() && is_num_char(s[i]) {
        lemma_scan_number_bounds(s, i + 1);
    }
}

/// Runtime test for `is_num_char`.
fn num_char_x(c: char) -> (r: bool)
    ensures
        r == is_num_char(c),
{
    let u = c as u32;
    (0x30 <= u && u <= 0x39) || c == '-' || c == '+' || c == '.' || c == 'e' || c == 'E'
}

/// Runtime mirror of `scan_number`.
pub fn scan_number_x(s: &Vec<char>, i: usize) -> (r: usize)
    requires
        i <= s@.len(),
    ensures
        r == scan_number(s@, i as int),
        i <= r <= s@.len(),
    decreases s@.len() - i,
{
    proof {
        lemma_scan_number_bounds(s@, i as int);
    }
    if i < s.len() && num_char_x(s[i]) {
        return scan_number_x(s, i + 1);
    }
    i
}

// ---------------------------------------------------------------------
// Strings
// ---------------------------------------------------------------------

/// The character denoted by a short escape `\c`, if `c` is one.
pub open spec fn esc_char(c: char) -> Option<char> {
    if c == '"' {
        Some('"')
    } else if c == '\\' {
        Some('\\')
    } else if c == '/' {
        Some('/')
    } else if c == 'b' {
        Some('\u{0008}')
    } else if c == 'f' {
        Some('\u{000C}')
    } else if c == 'n' {
        Some('\n')
    } else if c == 'r' {
        Some('\r')
    } else if c == 't' {
        Some('\t')
    } else {
        None
    }
}

/// Runtime mirror of `esc_char`.
fn esc_char_x(c: char) -> (r: Option<char>)
    ensures
        r == esc_char(c),
{
    if c == '"' {
        Some('"')
    } else if c == '\\' {
        Some('\\')
    } else if c == '/' {
        Some('/')
    } else if c == 'b' {
        Some('\u{0008}')
    } else if c == 'f' {
        Some('\u{000C}')
    } else if c == 'n' {
        Some('\n')
    } else if c == 'r' {
        Some('\r')
    } else if c == 't' {
        Some('\t')
    } else {
        None
    }
}

/// Parses a string body with `i` just after the opening quote; yields the
/// decoded content and the index just after the closing quote.
pub open spec fn parse_string_body(s: Seq<char>, i: int) -> Option<(Seq<char>, int)>
    decreases s.len() - i,
    when 0 <= i <= s.len()
{
    if i >= s.len() {
        None
    } else if s[i] == '"' {
        Some((Seq::empty(), i + 1))
    } else if s[i] == '\\' {
        if i + 1 < s.len() {
            match esc_char(s[i + 1]) {
                Some(c) => match parse_string_body(s, i + 2) {
                    Some((t, j)) => Some((seq![c] + t, j)),
                    None => None,
                },
                None => None,
            }
        } else {
            None
        }
    } else {
        match parse_string_body(s, i + 1) {
            Some((t, j)) => Some((seq![s[i]] + t, j)),
            None => None,
        }
    }
}

pub proof fn lemma_parse_string_body_bounds(s: Seq<char>, i: int)
    requires
        0 <= i <= s.len(),
    ensures
        match parse_string_body(s, i) {
            Some((t, j)) => i < j <= s.len(),
            None => true,
        },
    decreases s.len() - i,
{
    if i >= s.len() {
    } else if s[i] == '"' {
    } else if s[i] == '\\' {
        if i + 1 < s.len() {
            lemma_parse_string_body_bounds(s, i + 2);
        }
    } else {
        lemma_parse_string_body_bounds(s, i + 1);
    }
}

/// Runtime mirror of `parse_string_body`.
pub fn parse_string_body_x(s: &Vec<char>, i: usize) -> (r: Option<(Vec<char>, usize)>)
    requires
        i <= s@.len(),
    ensures
        match r {
            Some((v, j)) => {
                &&& parse_string_body(s@, i as int) == Some((v@, j as int))
                &&& i < j <= s@.len()
            },
            None => parse_string_body(s@, i as int) is None,
        },
    decreases s@.len() - i,
{
    proof {
        lemma_parse_string_body_bounds(s@, i as int);
    }
    if i >= s.len() {
        return None;
    }
    let c = s[i];
    if c == '"' {
        return Some((Vec::new(), i + 1));
    }
    if c == '\\' {
        if i + 1 < s.len() {
            match esc_char_x(s[i + 1]) {
                Some(d) => match parse_string_body_x(s, i + 2) {
                    Some((mut v, j)) => {
                        v.insert(0, d);
                        proof {
                            assert(v@ =~= seq![d] + v@.drop_first());
                        }
                        Some((v, j))
                    },
                    None => None,
                },
                None => None,
            }
        } else {
            None
        }
    } else {
        match parse_string_body_x(s, i + 1) {
            Some((mut v, j)) => {
                v.insert(0, c);
                proof {
                    assert(v@ =~= seq![c] + v@.drop_first());
                }
                Some((v, j))
            },
            None => None,
        }
    }
}

// ---------------------------------------------------------------------
// Scalars
// ---------------------------------------------------------------------

/// The word `true` as characters.
pub open spec fn lit_true() -> Seq<char> {
    seq!['t', 'r', 'u', 'e']
}

/// The word `false` as characters.
pub open spec fn lit_false() -> Seq<char> {
    seq!['f', 'a', 'l', 's', 'e']
}

/// The word `null` as characters.
pub open spec fn lit_null() -> Seq<char> {
    seq!['n', 'u', 'l', 'l']
}

/// `s` holds `t` starting at index `i`.
pub open spec fn matches_at(s: Seq<char>, i: int, t: Seq<char>) -> bool {
    0 <= i && i + t.len() <= s.len() && s.subrange(i, i + t.len()) == t
}

/// Parses one scalar starting exactly at `i` (no leading whitespace).
pub open spec fn parse_scalar(s: Seq<char>, i: int) -> Option<(ScalarS, int)> {
    if i < 0 || i >= s.len() {
        None
    } else if s[i] == '"' {
        match parse_string_body(s, i + 1) {
            Some((t, j)) => Some((ScalarS::Str(t), j)),
            None => None,
        }
    } else if matches_at(s, i, lit_true()) {
        Some((ScalarS::Bool(true), i + 4))
    } else if matches_at(s, i, lit_false()) {
        Some((ScalarS::Bool(false), i + 5))
    } else if matches_at(s, i, lit_null()) {
        Some((ScalarS::Null, i + 4))
    } else if s[i] == '-' || is_digit(s[i]) {
        Some((ScalarS::Num, scan_number(s, i)))
    } else {
        None
    }
}

pub proof fn lemma_parse_scalar_bounds(s: Seq<char>, i: int)
    requires
        0 <= i <= s.len(),
    ensures
        match parse_scalar(s, i) {
            Some((v, j)) => i < j <= s.len(),
            None => true,
        },
{
    if i < s.len() {
        if s[i] == '"' {
            lemma_parse_string_body_bounds(s, i + 1);
        } else if matches_at(s, i, lit_true()) || matches_at(s, i, lit_false()) || matches_at(
            s,
            i,
            lit_null(),
        ) {
        } else if s[i] == '-' || is_digit(s[i]) {
            lemma_scan_number_bounds(s, i + 1);
        }
    }
}

/// Runtime test of `matches_at`.
pub(crate) fn matches_at_x(s: &Vec<char>, i: usize, t: &Vec<char>) -> (r: bool)
    requires
        i <= s@.len(),
    ensures
        r == matches_at(s@, i as int, t@),
{
    let n = s.len();
    let tl = t.len();
    if tl > n - i {
        return false;
    }
    let mut k: usize = 0;
    while k < tl
        invariant
            n == s@.len(),
            tl == t@.len(),
            i + tl <= n,
            0 <= k <= tl,
            forall|m: int| 0 <= m < k ==> s@[i + m] == t@[m],
        decreases tl - k,
    {
        if s[i + k] != t[k] {
            assert(s@.subrange(i as int, i + t@.len()) != t@) by {
                assert(s@.subrange(i as int, i + t@.len())[k as int] != t@[k as int]);
            }
            return false;
        }
        k += 1;
    }
    proof {
        assert(s@.subrange(i as int, i + t@.len()) =~= t@);
    }
    true
}

/// Runtime mirror of `parse_scalar`.
pub fn parse_scalar_x(s: &Vec<char>, i: usize) -> (r: Option<(Scalar, usize)>)
    requires
        i <= s@.len(),
    ensures
        match r {
            Some((v, j)) => {
                &&& parse_scalar(s@, i as int) == Some((v@, j as int))
                &&& i < j <= s@.len()
            },
            None => parse_scalar(s@, i as int) is None,
        },
{
    proof {
        lemma_parse_scalar_bounds(s@, i as int);
    }
    if i >= s.len() {
        return None;
    }
    let c = s[i];
    if c == '"' {
        return match parse_string_body_x(s, i + 1) {
            Some((v, j)) => Some((Scalar::Str(crate::text::chars_to_string(&v)), j)),
            None => None,
        };
    }
    let word_true: Vec<char> = vec!['t', 'r', 'u', 'e'];
    let word_false: Vec<char> = vec!['f', 'a', 'l', 's', 'e'];
    let word_null: Vec<char> = vec!['n', 'u', 'l', 'l'];
    proof {
        assert(word_true@ =~= lit_true());
        assert(word_false@ =~= lit_false());
        assert(word_null@ =~= lit_null());
    }
    if matches_at_x(s, i, &word_true) {
        return Some((Scalar::Bool(true), i + 4));
    }
    if matches_at_x(s, i, &word_false) {
        return Some((Scalar::Bool(false), i + 5));
    }
    if matches_at_x(s, i, &word_null) {
        return Some((Scalar::Null, i + 4));
    }
    let u = c as u32;
    if c == '-' || (0x30 <= u && u <= 0x39) {
        let j = scan_number_x(s, i);
        proof {
            lemma_scan_number_bounds(s@, i + 1);
        }
        return Some((Scalar::Num, j));
    }
    None
}

// ---------------------------------------------------------------------
// Arrays of scalars
// ---------------------------------------------------------------------

/// Parses the elements of a non-empty array of scalars, with `i` just
/// after the `[` or a `,`; yields the elements and the index just after
/// the closing `]`.
pub open spec fn parse_scalar_items(s: Seq<char>, i: int) -> Option<(Seq<ScalarS>, int)>
    decreases s.len() - i,
    when 0 <= i <= s.len()
    via parse_scalar_items_decreases
{
    let j = skip_ws(s, i);
    match parse_scalar(s, j) {
        None => None,
        Some((v, k)) => {
            let m = skip_ws(s, k);
            if m < s.len() && s[m] == ',' {
                match parse_scalar_items(s, m + 1) {
                    Some((rest, e)) => Some((seq![v] + rest, e)),
                    None => None,
                }
            } else if m < s.len() && s[m] == ']' {
                Some((seq![v], m + 1))
            } else {
                None
            }
        },
    }
}

#[via_fn]
proof fn parse_scalar_items_decreases(s: Seq<char>, i: int) {
    lemma_skip_ws_bounds(s, i);
    let j = skip_ws(s, i);
    lemma_parse_scalar_bounds(s, j);
    match parse_scalar(s, j) {
        None => {},
        Some((v, k)) => {
            lemma_skip_ws_bounds(s, k);
        },
    }
}

pub proof fn lemma_parse_scalar_items_bounds(s: Seq<char>, i: int)
    requires
        0 <= i <= s.len(),
    ensures
        match parse_scalar_items(s, i) {
            Some((vs, j)) => i < j <= s.len(),
            None => true,
        },
    decreases s.len() - i,
{
    lemma_skip_ws_bounds(s, i);
    let j = skip_ws(s, i);
    lemma_parse_scalar_bounds(s, j);
    match parse_scalar(s, j) {
        None => {},
        Some((v, k)) => {
            lemma_skip_ws_bounds(s, k);
            let m = skip_ws(s, k);
            if m < s.len() && s[m] == ',' {
                lemma_parse_scalar_items_bounds(s, m + 1);
            }
        },
    }
}

/// Parses an array of scalars with `i` at the `[`; yields the elements
/// and the index just after the closing `]`.
pub open spec fn parse_list(s: Seq<char>, i: int) -> Option<(Seq<ScalarS>, int)> {
    if 0 <= i < s.len() && s[i] == '[' {
        let j = skip_ws(s, i + 1);
        if j < s.len() && s[j] == ']' {
            Some((Seq::empty(), j + 1))
        } else {
            parse_scalar_items(s, i + 1)
        }
    } else {
        None
    }
}

pub proof fn lemma_parse_list_bounds(s: Seq<char>, i: int)
    requires
        0 <= i <= s.len(),
    ensures
        match parse_list(s, i) {
            Some((vs, j)) => i < j <= s.len(),
            None => true,
        },
{
    if 0 <= i < s.len() && s[i] == '[' {
        lemma_skip_ws_bounds(s, i + 1);
        lemma_parse_scalar_items_bounds(s, i + 1);
    }
}

/// Runtime mirror of `parse_scalar_items`.
pub fn parse_scalar_items_x(s: &Vec<char>, i: usize) -> (r: Option<(Vec<Scalar>, usize)>)
    requires
        i <= s@.len(),
    ensures
        match r {
            Some((vs, j)) => {
                &&& parse_scalar_items(s@, i as int) == Some((vs.deep_view(), j as int))
                &&& i < j <= s@.len()
            },
            None => parse_scalar_items(s@, i as int) is None,
        },
    decreases s@.len() - i,
{
    let j = skip_ws_x(s, i);
    match parse_scalar_x(s, j) {
        None => None,
        Some((v, k)) => {
            let m = skip_ws_x(s, k);
            if m < s.len() && s[m] == ',' {
                match parse_scalar_items_x(s, m + 1) {
                    Some((mut rest, e)) => {
                        let ghost old_deep = rest.deep_view();
                        rest.insert(0, v);
                        proof {
                            assert(rest.deep_view() =~= seq![v@] + old_deep);
                        }
                        Some((rest, e))
                    },
                    None => None,
                }
            } else if m < s.len() && s[m] == ']' {
                let mut vs: Vec<Scalar> = Vec::new();
                vs.push(v);
                proof {
                    assert(vs.deep_view() =~= seq![v@]);
                }
                Some((vs, m + 1))
            } else {
                None
            }
        },
    }
}

/// Runtime mirror of `parse_list`.
pub fn parse_list_x(s: &Vec<char>, i: usize) -> (r: Option<(Vec<Scalar>, usize)>)
    requires
        i <= s@.len(),
    ensures
        match r {
            Some((vs, j)) => {
                &&& parse_list(s@, i as int) == Some((vs.deep_view(), j as int))
                &&& i < j <= s@.len()
            },
            None => parse_list(s@, i as int) is None,
        },
{
    if i < s.len() && s[i] == '[' {
        let j = skip_ws_x(s, i + 1);
        if j < s.len() && s[j] == ']' {
            let vs: Vec<Scalar> = Vec::new();
            proof {
                assert(vs.deep_view() =~= Seq::<ScalarS>::empty());
            }
            Some((vs, j + 1))
        } else {
            parse_scalar_items_x(s, i + 1)
        }
    } else {
        None
    }
}

// ---------------------------------------------------------------------
// Encoding a list of strings
// ---------------------------------------------------------------------

/// How one character is written inside an encoded string: `"` and `\`
/// get a backslash, everything else is written as it is.
pub open spec fn enc_escape(c: char) -> Seq<char> {
    if c == '"' {
        seq!['\\', '"']
    } else if c == '\\' {
        seq!['\\', '\\']
    } else {
        seq![c]
    }
}

/// The body of an encoded string.
pub open spec fn enc_str_body(t: Seq<char>) -> Seq<char>
    decreases t.len(),
{
    if t.len() == 0 {
        Seq::empty()
    } else {
        enc_escape(t[0]) + enc_str_body(t.drop_first())
    }
}

/// An encoded string: quoted, with `"` and `\` escaped.
pub open spec fn enc_string(t: Seq<char>) -> Seq<char> {
    seq!['"'] + enc_str_body(t) + seq!['"']
}

/// The encoded elements of a non-empty array, joined by commas.
pub open spec fn enc_tags_items(ts: Seq<Seq<char>>) -> Seq<char>
    decreases ts.len(),
{
    if ts.len() == 0 {
        Seq::empty()
    } else if ts.len() == 1 {
        enc_string(ts[0])
    } else {
        enc_string(ts[0]) + seq![','] + enc_tags_items(ts.drop_first())
    }
}

/// A list of strings as a JSON array, with no whitespace.
pub open spec fn enc_tags(ts: Seq<Seq<char>>) -> Seq<char> {
    seq!['['] + enc_tags_items(ts) + seq![']']
}

proof fn lemma_enc_str_body_push(p: Seq<char>, c: char)
    ensures
        enc_str_body(p.push(c)) == enc_str_body(p) + enc_escape(c),
    decreases p.len(),
{
    if p.len() == 0 {
        assert(p.push(c) =~= seq![c]);
        assert(p.push(c)[0] == c);
        assert(p.push(c).drop_first() =~= Seq::<char>::empty());
        assert(enc_str_body(p.push(c)) == enc_escape(c) + enc_str_body(Seq::<char>::empty()));
        assert(enc_str_body(Seq::<char>::empty()) == Seq::<char>::empty());
        assert(enc_str_body(p) == Seq::<char>::empty());
        assert(enc_escape(c) + Seq::<char>::empty() =~= enc_escape(c));
        assert(Seq::<char>::empty() + enc_escape(c) =~= enc_escape(c));
    } else {
        assert(p.push(c).drop_first() =~= p.drop_first().push(c));
        lemma_enc_str_body_push(p.drop_first(), c);
        assert(enc_str_body(p.push(c)) =~= enc_str_body(p) + enc_escape(c));
    }
}

proof fn lemma_enc_items_push(ts: Seq<Seq<char>>, t: Seq<char>)
    ensures
        enc_tags_items(ts.push(t)) == if ts.len() == 0 {
            enc_string(t)
        } else {
            enc_tags_items(ts) + seq![','] + enc_tags_items(seq![t])
        },
    decreases ts.len(),
{
    if ts.len() == 0 {
        assert(ts.push(t) =~= seq![t]);
    } else {
        assert(ts.push(t).drop_first() =~= ts.drop_first().push(t));
        lemma_enc_items_push(ts.drop_first(), t);
        if ts.len() == 1 {
            assert(enc_tags_items(ts.push(t)) =~= enc_tags_items(ts) + seq![','] + enc_tags_items(
                seq![t],
            ));
        } else {
            assert(enc_tags_items(ts.push(t)) =~= enc_tags_items(ts) + seq![','] + enc_tags_items(
                seq![t],
            ));
        }
    }
}

/// Appends `enc_string(t@)` to `out`.
fn push_enc_string(out: &mut Vec<char>, t: &String)
    ensures
        final(out)@ == old(out)@ + enc_string(t@),
{
    let tc = crate::text::str_to_chars(t.as_str());
    out.push('"');
    let mut j: usize = 0;
    while j < tc.len()
        invariant
            tc@ == t@,
            0 <= j <= tc@.len(),
            out@ == old(out)@ + seq!['"'] + enc_str_body(t@.subrange(0, j as int)),
        decreases tc@.len() - j,
    {
        let c = tc[j];
        if c == '"' || c == '\\' {
            out.push('\\');
        }
        out.push(c);
        proof {
            lemma_enc_str_body_push(t@.subrange(0, j as int), t@[j as int]);
            assert(t@.subrange(0, j as int).push(t@[j as int]) =~= t@.subrange(0, j + 1 as int));
            assert(out@ =~= old(out)@ + seq!['"'] + enc_str_body(t@.subrange(0, j + 1 as int)));
        }
        j += 1;
    }
    out.push('"');
    proof {
        assert(t@.subrange(0, t@.len() as int) =~= t@);
        assert(out@ =~= old(out)@ + enc_string(t@));
    }
}

/// Writes a list of tags as a JSON array of strings, with `"` and `\`
/// escaped and no added whitespace.
pub fn encode_tags(tags: &Vec<String>) -> (r: String)
    ensures
        r@ == enc_tags(tags.deep_view()),
{
    let ghost ts = tags.deep_view();
    let mut out: Vec<char> = Vec::new();
    out.push('[');
    let mut k: usize = 0;
    while k < tags.len()
        invariant
            ts == tags.deep_view(),
            0 <= k <= tags@.len(),
            ts.len() == tags@.len(),
            out@ == seq!['['] + enc_tags_items(ts.subrange(0, k as int)),
        decreases tags@.len() - k,
    {
        if k > 0 {
            out.push(',');
        }
        push_enc_string(&mut out, &tags[k]);
        proof {
            let p = ts.subrange(0, k as int);
            lemma_enc_items_push(p, ts[k as int]);
            assert(p.push(ts[k as int]) =~= ts.subrange(0, k + 1 as int));
            assert(tags[k as int]@ == ts[k as int]);
            assert(out@ =~= seq!['['] + enc_tags_items(ts.subrange(0, k + 1 as int)));
        }
        k += 1;
    }
    out.push(']');
    proof {
        assert(ts.subrange(0, ts.len() as int) =~= ts);
        assert(out@ =~= enc_tags(ts));
    }
    crate::text::chars_to_string(&out)
}

// ---------------------------------------------------------------------
// Documents: objects of scalars, arrays of scalars, and one nested
// object level — the shapes the extraction schema and upstream error
// bodies use
// ---------------------------------------------------------------------

/// Spec-level field value inside a nested object: a scalar or an array
/// of scalars.
pub enum SimpleS {
    One(ScalarS),
    Many(Seq<ScalarS>),
}

/// Executable counterpart of `SimpleS`.
#[derive(Debug)]
pub enum Simple {
    One(Scalar),
    Many(Vec<Scalar>),
}

impl View for Simple {
    type V = SimpleS;

    open spec fn view(&self) -> SimpleS {
        match self {
            Simple::One(v) => SimpleS::One(v@),
            Simple::Many(vs) => SimpleS::Many(vs.deep_view()),
        }
    }
}

impl DeepView for Simple {
    type V = SimpleS;

    open spec fn deep_view(&self) -> SimpleS {
        self.view()
    }
}

/// Spec-level entry of a nested object.
pub struct EntryS {
    pub key: Seq<char>,
    pub value: SimpleS,
}

/// Executable counterpart of `EntryS`.
#[derive(Debug)]
pub struct Entry {
    pub key: String,
    pub value: Simple,
}

impl View for Entry {
    type V = EntryS;

    open spec fn view(&self) -> EntryS {
        EntryS { key: self.key@, value: self.value@ }
    }
}

impl DeepView for Entry {
    type V = EntryS;

    open spec fn deep_view(&self) -> EntryS {
        self.view()
    }
}

/// Spec-level value of a document field: a simple value or one nested
/// object of simple values.
pub enum ValueS {
    Plain(SimpleS),
    Object(Seq<EntryS>),
}

/// Executable counterpart of `ValueS`.
#[derive(Debug)]
pub enum FieldValue {
    Plain(Simple),
    Object(Vec<Entry>),
}

impl View for FieldValue {
    type V = ValueS;

    open spec fn view(&self) -> ValueS {
        match self {
            FieldValue::Plain(v) => ValueS::Plain(v@),
            FieldValue::Object(es) => ValueS::Object(es.deep_view()),
        }
    }
}

impl DeepView for FieldValue {
    type V = ValueS;

    open spec fn deep_view(&self) -> ValueS {
        self.view()
    }
}

/// Spec-level field of a document.
pub struct FieldS {
    pub key: Seq<char>,
    pub value: ValueS,
}

/// Executable counterpart of `FieldS`.
#[derive(Debug)]
pub struct Field {
    pub key: String,
    pub value: FieldValue,
}

impl View for Field {
    type V = FieldS;

    open spec fn view(&self) -> FieldS {
        FieldS { key: self.key@, value: self.value@ }
    }
}

impl DeepView for Field {
    type V = FieldS;

    open spec fn deep_view(&self) -> FieldS {
        self.view()
    }
}

/// Parses a simple value (scalar, or array of scalars) starting exactly
/// at `i`.
pub open spec fn parse_simple(s: Seq<char>, i: int) -> Option<(SimpleS, int)> {
    if 0 <= i < s.len() && s[i] == '[' {
        match parse_list(s, i) {
            Some((vs, j)) => Some((SimpleS::Many(vs), j)),
            None => None,
        }
    } else {
        match parse_scalar(s, i) {
            Some((v, j)) => Some((SimpleS::One(v), j)),
            None => None,
        }
    }
}

pub proof fn lemma_parse_simple_bounds(s: Seq<char>, i: int)
    requires
        0 <= i <= s.len(),
    ensures
        match parse_simple(s, i) {
            Some((v, j)) => i < j <= s.len(),
            None => true,
        },
{
    lemma_parse_list_bounds(s, i);
    lemma_parse_scalar_bounds(s, i);
}

/// Parses the entries of a non-empty nested object, with `i` just after
/// the `{` or a `,`; yields the entries and the index just after the
/// closing `}`.
pub open spec fn parse_entry_items(s: Seq<char>, i: int) -> Option<(Seq<EntryS>, int)>
    decreases s.len() - i,
    when 0 <= i <= s.len()
    via parse_entry_items_decreases
{
    let j = skip_ws(s, i);
    if j < s.len() && s[j] == '"' {
        match parse_string_body(s, j + 1) {
            Some((k, a)) => {
                let b = skip_ws(s, a);
                if b < s.len() && s[b] == ':' {
                    let c = skip_ws(s, b + 1);
                    match parse_simple(s, c) {
                        Some((v, d)) => {
                            let e = skip_ws(s, d);
                            if e < s.len() && s[e] == ',' {
                                match parse_entry_items(s, e + 1) {
                                    Some((rest, f)) => Some(
                                        (seq![EntryS { key: k, value: v }] + rest, f),
                                    ),
                                    None => None,
                                }
                            } else if e < s.len() && s[e] == '}' {
                                Some((seq![EntryS { key: k, value: v }], e + 1))
                            } else {
                                None
                            }
                        },
                        None => None,
                    }
                } else {
                    None
                }
            },
            None => None,
        }
    } else {
        None
    }
}

#[via_fn]
proof fn parse_entry_items_decreases(s: Seq<char>, i: int) {
    lemma_skip_ws_bounds(s, i);
    let j = skip_ws(s, i);
    if j < s.len() && s[j] == '"' {
        lemma_parse_string_body_bounds(s, j + 1);
        match parse_string_body(s, j + 1) {
            Some((k, a)) => {
                lemma_skip_ws_bounds(s, a);
                let b = skip_ws(s, a);
                if b < s.len() && s[b] == ':' {
                    lemma_skip_ws_bounds(s, b + 1);
                    let c = skip_ws(s, b + 1);
                    lemma_parse_simple_bounds(s, c);
                    match parse_simple(s, c) {
                        Some((v, d)) => {
                            lemma_skip_ws_bounds(s, d);
                        },
                        None => {},
                    }
                }
            },
            None => {},
        }
    }
}

pub proof fn lemma_parse_entry_items_bounds(s: Seq<char>, i: int)
    requires
        0 <= i <= s.len(),
    ensures
        match parse_entry_items(s, i) {
            Some((es, j)) => i < j <= s.len(),
            None => true,
        },
    decreases s.len() - i,
{
    lemma_skip_ws_bounds(s, i);
    let j = skip_ws(s, i);
    if j < s.len() && s[j] == '"' {
        lemma_parse_string_body_bounds(s, j + 1);
        match parse_string_body(s, j + 1) {
            Some((k, a)) => {
                lemma_skip_ws_bounds(s, a);
                let b = skip_ws(s, a);
                if b < s.len() && s[b] == ':' {
                    lemma_skip_ws_bounds(s, b + 1);
                    let c = skip_ws(s, b + 1);
                    lemma_parse_simple_bounds(s, c);
                    match parse_simple(s, c) {
                        Some((v, d)) => {
                            lemma_skip_ws_bounds(s, d);
                            let e = skip_ws(s, d);
                            if e < s.len() && s[e] == ',' {
                                lemma_parse_entry_items_bounds(s, e + 1);
                            }
                        },
                        None => {},
                    }
                }
            },
            None => {},
        }
    }
}

/// Parses a nested object with `i` at the `{`.
pub open spec fn parse_inner_object(s: Seq<char>, i: int) -> Option<(Seq<EntryS>, int)> {
    if 0 <= i < s.len() && s[i] == '{' {
        let j = skip_ws(s, i + 1);
        if j < s.len() && s[j] == '}' {
            Some((Seq::empty(), j + 1))
        } else {
            parse_entry_items(s, i + 1)
        }
    } else {
        None
    }
}

pub proof fn lemma_parse_inner_object_bounds(s: Seq<char>, i: int)
    requires
        0 <= i <= s.len(),
    ensures
        match parse_inner_object(s, i) {
            Some((es, j)) => i < j <= s.len(),
            None => true,
        },
{
    if 0 <= i < s.len() && s[i] == '{' {
        lemma_skip_ws_bounds(s, i + 1);
        lemma_parse_entry_items_bounds(s, i + 1);
    }
}

/// Parses a document field's value: simple, or one nested object.
pub open spec fn parse_value(s: Seq<char>, i: int) -> Option<(ValueS, int)> {
    if 0 <= i < s.len() && s[i] == '{' {
        match parse_inner_object(s, i) {
            Some((es, j)) => Some((ValueS::Object(es), j)),
            None => None,
        }
    } else {
        match parse_simple(s, i) {
            Some((v, j)) => Some((ValueS::Plain(v), j)),
            None => None,
        }
    }
}

pub proof fn lemma_parse_value_bounds(s: Seq<char>, i: int)
    requires
        0 <= i <= s.len(),
    ensures
        match parse_value(s, i) {
            Some((v, j)) => i < j <= s.len(),
            None => true,
        },
{
    lemma_parse_inner_object_bounds(s, i);
    lemma_parse_simple_bounds(s, i);
}

/// Parses the fields of a non-empty document, with `i` just after the
/// `{` or a `,`.
pub open spec fn parse_field_items(s: Seq<char>, i: int) -> Option<(Seq<FieldS>, int)>
    decreases s.len() - i,
    when 0 <= i <= s.len()
    via parse_field_items_decreases
{
    let j = skip_ws(s, i);
    if j < s.len() && s[j] == '"' {
        match parse_string_body(s, j + 1) {
            Some((k, a)) => {
                let b = skip_ws(s, a);
                if b < s.len() && s[b] == ':' {
                    let c = skip_ws(s, b + 1);
                    match parse_value(s, c) {
                        Some((v, d)) => {
                            let e = skip_ws(s, d);
                            if e < s.len() && s[e] == ',' {
                                match parse_field_items(s, e + 1) {
                                    Some((rest, f)) => Some(
                                        (seq![FieldS { key: k, value: v }] + rest, f),
                                    ),
                                    None => None,
                                }
                            } else if e < s.len() && s[e] == '}' {
                                Some((seq![FieldS { key: k, value: v }], e + 1))
                            } else {
                                None
                            }
                        },
                        None => None,
                    }
                } else {
                    None
                }
            },
            None => None,
        }
    } else {
        None
    }
}

#[via_fn]
proof fn parse_field_items_decreases(s: Seq<char>, i: int) {
    lemma_skip_ws_bounds(s, i);
    let j = skip_ws(s, i);
    if j < s.len() && s[j] == '"' {
        lemma_parse_string_body_bounds(s, j + 1);
        match parse_string_body(s, j + 1) {
            Some((k, a)) => {
                lemma_skip_ws_bounds(s, a);
                let b = skip_ws(s, a);
                if b < s.len() && s[b] == ':' {
                    lemma_skip_ws_bounds(s, b + 1);
                    let c = skip_ws(s, b + 1);
                    lemma_parse_value_bounds(s, c);
                    match parse_value(s, c) {
                        Some((v, d)) => {
                            lemma_skip_ws_bounds(s, d);
                        },
                        None => {},
                    }
                }
            },
            None => {},
        }
    }
}

pub proof fn lemma_parse_field_items_bounds(s: Seq<char>, i: int)
    requires
        0 <= i <= s.len(),
    ensures
        match parse_field_items(s, i) {
            Some((fs, j)) => i < j <= s.len(),
            None => true,
        },
    decreases s.len() - i,
{
    lemma_skip_ws_bounds(s, i);
    let j = skip_ws(s, i);
    if j < s.len() && s[j] == '"' {
        lemma_parse_string_body_bounds(s, j + 1);
        match parse_string_body(s, j + 1) {
            Some((k, a)) => {
                lemma_skip_ws_bounds(s, a);
                let b = skip_ws(s, a);
                if b < s.len() && s[b] == ':' {
                    lemma_skip_ws_bounds(s, b + 1);
                    let c = skip_ws(s, b + 1);
                    lemma_parse_value_bounds(s, c);
                    match parse_value(s, c) {
                        Some((v, d)) => {
                            lemma_skip_ws_bounds(s, d);
                            let e = skip_ws(s, d);
                            if e < s.len() && s[e] == ',' {
                                lemma_parse_field_items_bounds(s, e + 1);
                            }
                        },
                        None => {},
                    }
                }
            },
            None => {},
        }
    }
}

/// Parses a document — an object — with `i` at the `{`.
pub open spec fn parse_doc(s: Seq<char>, i: int) -> Option<(Seq<FieldS>, int)> {
    if 0 <= i < s.len() && s[i] == '{' {
        let j = skip_ws(s, i + 1);
        if j < s.len() && s[j] == '}' {
            Some((Seq::empty(), j + 1))
        } else {
            parse_field_items(s, i + 1)
        }
    } else {
        None
    }
}

pub proof fn lemma_parse_doc_bounds(s: Seq<char>, i: int)
    requires
        0 <= i <= s.len(),
    ensures
        match parse_doc(s, i) {
            Some((fs, j)) => i < j <= s.len(),
            None => true,
        },
{
    if 0 <= i < s.len() && s[i] == '{' {
        lemma_skip_ws_bounds(s, i + 1);
        lemma_parse_field_items_bounds(s, i + 1);
    }
}

/// Parses the documents of a non-empty array of objects, with `i` just
/// after the `[` or a `,`.
pub open spec fn parse_doc_items(s: Seq<char>, i: int) -> Option<(Seq<Seq<FieldS>>, int)>
    decreases s.len() - i,
    when 0 <= i <= s.len()
    via parse_doc_items_decreases
{
    let j = skip_ws(s, i);
    match parse_doc(s, j) {
        None => None,
        Some((d, k)) => {
            let m = skip_ws(s, k);
            if m < s.len() && s[m] == ',' {
                match parse_doc_items(s, m + 1) {
                    Some((rest, e)) => Some((seq![d] + rest, e)),
                    None => None,
                }
            } else if m < s.len() && s[m] == ']' {
                Some((seq![d], m + 1))
            } else {
                None
            }
        },
    }
}

#[via_fn]
proof fn parse_doc_items_decreases(s: Seq<char>, i: int) {
    lemma_skip_ws_bounds(s, i);
    let j = skip_ws(s, i);
    lemma_parse_doc_bounds(s, j);
    match parse_doc(s, j) {
        None => {},
        Some((d, k)) => {
            lemma_skip_ws_bounds(s, k);
        },
    }
}

pub proof fn lemma_parse_doc_items_bounds(s: Seq<char>, i: int)
    requires
        0 <= i <= s.len(),
    ensures
        match parse_doc_items(s, i) {
            Some((ds, j)) => i < j <= s.len(),
            None => true,
        },
    decreases s.len() - i,
{
    lemma_skip_ws_bounds(s, i);
    let j = skip_ws(s, i);
    lemma_parse_doc_bounds(s, j);
    match parse_doc(s, j) {
        None => {},
        Some((d, k)) => {
            lemma_skip_ws_bounds(s, k);
            let m = skip_ws(s, k);
            if m < s.len() && s[m] == ',' {
                lemma_parse_doc_items_bounds(s, m + 1);
            }
        },
    }
}

/// Parses an array of documents with `i` at the `[`.
pub open spec fn parse_docs(s: Seq<char>, i: int) -> Option<(Seq<Seq<FieldS>>, int)> {
    if 0 <= i < s.len() && s[i] == '[' {
        let j = skip_ws(s, i + 1);
        if j < s.len() && s[j] == ']' {
            Some((Seq::empty(), j + 1))
        } else {
            parse_doc_items(s, i + 1)
        }
    } else {
        None
    }
}

pub proof fn lemma_parse_docs_bounds(s: Seq<char>, i: int)
    requires
        0 <= i <= s.len(),
    ensures
        match parse_docs(s, i) {
            Some((ds, j)) => i < j <= s.len(),
            None => true,
        },
{
    if 0 <= i < s.len() && s[i] == '[' {
        lemma_skip_ws_bounds(s, i + 1);
        lemma_parse_doc_items_bounds(s, i + 1);
    }
}

/// Reads a whole text as an array of documents: the form an extraction
/// reply takes once unfenced.
pub open spec fn docs_of_text(s: Seq<char>) -> Option<Seq<Seq<FieldS>>> {
    let i = skip_ws(s, 0);
    match parse_docs(s, i) {
        Some((ds, j)) => {
            if skip_ws(s, j) == s.len() {
                Some(ds)
            } else {
                None
            }
        },
        None => None,
    }
}

/// Reads a whole text as one document: the form an upstream error body
/// takes.
pub open spec fn doc_of_text(s: Seq<char>) -> Option<Seq<FieldS>> {
    let i = skip_ws(s, 0);
    match parse_doc(s, i) {
        Some((fs, j)) => {
            if skip_ws(s, j) == s.len() {
                Some(fs)
            } else {
                None
            }
        },
        None => None,
    }
}

/// The value of the first field with this key, if any.
pub open spec fn find_field(d: Seq<FieldS>, k: Seq<char>) -> Option<ValueS>
    decreases d.len(),
{
    if d.len() == 0 {
        None
    } else if d[0].key == k {
        Some(d[0].value)
    } else {
        find_field(d.drop_first(), k)
    }
}

/// The value of the first entry with this key, if any.
pub open spec fn find_entry(es: Seq<EntryS>, k: Seq<char>) -> Option<SimpleS>
    decreases es.len(),
{
    if es.len() == 0 {
        None
    } else if es[0].key == k {
        Some(es[0].value)
    } else {
        find_entry(es.drop_first(), k)
    }
}

/// Runtime mirror of `parse_simple`.
pub fn parse_simple_x(s: &Vec<char>, i: usize) -> (r: Option<(Simple, usize)>)
    requires
        i <= s@.len(),
    ensures
        match r {
            Some((v, j)) => {
                &&& parse_simple(s@, i as int) == Some((v@, j as int))
                &&& i < j <= s@.len()
            },
            None => parse_simple(s@, i as int) is None,
        },
{
    if i < s.len() && s[i] == '[' {
        match parse_list_x(s, i) {
            Some((vs, j)) => Some((Simple::Many(vs), j)),
            None => None,
        }
    } else {
        match parse_scalar_x(s, i) {
            Some((v, j)) => Some((Simple::One(v), j)),
            None => None,
        }
    }
}

/// Runtime mirror of `parse_entry_items`.
pub fn parse_entry_items_x(s: &Vec<char>, i: usize) -> (r: Option<(Vec<Entry>, usize)>)
    requires
        i <= s@.len(),
    ensures
        match r {
            Some((es, j)) => {
                &&& parse_entry_items(s@, i as int) == Some((es.deep_view(), j as int))
                &&& i < j <= s@.len()
            },
            None => parse_entry_items(s@, i as int) is None,
        },
    decreases s@.len() - i,
{
    let j = skip_ws_x(s, i);
    if !(j < s.len() && s[j] == '"') {
        return None;
    }
    let (kv, a) = match parse_string_body_x(s, j + 1) {
        Some(p) => p,
        None => {
            return None;
        },
    };
    let b = skip_ws_x(s, a);
    if !(b < s.len() && s[b] == ':') {
        return None;
    }
    let c = skip_ws_x(s, b + 1);
    let (v, d) = match parse_simple_x(s, c) {
        Some(p) => p,
        None => {
            return None;
        },
    };
    let e = skip_ws_x(s, d);
    let key = crate::text::chars_to_string(&kv);
    let entry = Entry { key, value: v };
    if e < s.len() && s[e] == ',' {
        match parse_entry_items_x(s, e + 1) {
            Some((mut rest, f)) => {
                let ghost old_deep = rest.deep_view();
                let ghost ev = entry@;
                rest.insert(0, entry);
                proof {
                    assert(rest.deep_view() =~= seq![ev] + old_deep);
                }
                Some((rest, f))
            },
            None => None,
        }
    } else if e < s.len() && s[e] == '}' {
        let ghost ev = entry@;
        let mut es: Vec<Entry> = Vec::new();
        es.push(entry);
        proof {
            assert(es.deep_view() =~= seq![ev]);
        }
        Some((es, e + 1))
    } else {
        None
    }
}

/// Runtime mirror of `parse_inner_object`.
pub fn parse_inner_object_x(s: &Vec<char>, i: usize) -> (r: Option<(Vec<Entry>, usize)>)
    requires
        i <= s@.len(),
    ensures
        match r {
            Some((es, j)) => {
                &&& parse_inner_object(s@, i as int) == Some((es.deep_view(), j as int))
                &&& i < j <= s@.len()
            },
            None => parse_inner_object(s@, i as int) is None,
        },
{
    if i < s.len() && s[i] == '{' {
        let j = skip_ws_x(s, i + 1);
        if j < s.len() && s[j] == '}' {
            let es: Vec<Entry> = Vec::new();
            proof {
                assert(es.deep_view() =~= Seq::<EntryS>::empty());
            }
            Some((es, j + 1))
        } else {
            parse_entry_items_x(s, i + 1)
        }
    } else {
        None
    }
}

/// Runtime mirror of `parse_value`.
pub fn parse_value_x(s: &Vec<char>, i: usize) -> (r: Option<(FieldValue, usize)>)
    requires
        i <= s@.len(),
    ensures
        match r {
            Some((v, j)) => {
                &&& parse_value(s@, i as int) == Some((v@, j as int))
                &&& i < j <= s@.len()
            },
            None => parse_value(s@, i as int) is None,
        },
{
    if i < s.len() && s[i] == '{' {
        match parse_inner_object_x(s, i) {
            Some((es, j)) => Some((FieldValue::Object(es), j)),
            None => None,
        }
    } else {
        match parse_simple_x(s, i) {
            Some((v, j)) => Some((FieldValue::Plain(v), j)),
            None => None,
        }
    }
}

/// Runtime mirror of `parse_field_items`.
pub fn parse_field_items_x(s: &Vec<char>, i: usize) -> (r: Option<(Vec<Field>, usize)>)
    requires
        i <= s@.len(),
    ensures
        match r {
            Some((fs, j)) => {
                &&& parse_field_items(s@, i as int) == Some((fs.deep_view(), j as int))
                &&& i < j <= s@.len()
            },
            None => parse_field_items(s@, i as int) is None,
        },
    decreases s@.len() - i,
{
    let j = skip_ws_x(s, i);
    if !(j < s.len() && s[j] == '"') {
        return None;
    }
    let (kv, a) = match parse_string_body_x(s, j + 1) {
        Some(p) => p,
        None => {
            return None;
        },
    };
    let b = skip_ws_x(s, a);
    if !(b < s.len() && s[b] == ':') {
        return None;
    }
    let c = skip_ws_x(s, b + 1);
    let (v, d) = match parse_value_x(s, c) {
        Some(p) => p,
        None => {
            return None;
        },
    };
    let e = skip_ws_x(s, d);
    let key = crate::text::chars_to_string(&kv);
    let field = Field { key, value: v };
    if e < s.len() && s[e] == ',' {
        match parse_field_items_x(s, e + 1) {
            Some((mut rest, f)) => {
                let ghost old_deep = rest.deep_view();
                let ghost fv = field@;
                rest.insert(0, field);
                proof {
                    assert(rest.deep_view() =~= seq![fv] + old_deep);
                }
                Some((rest, f))
            },
            None => None,
        }
    } else if e < s.len() && s[e] == '}' {
        let ghost fv = field@;
        let mut fs: Vec<Field> = Vec::new();
        fs.push(field);
        proof {
            assert(fs.deep_view() =~= seq![fv]);
        }
        Some((fs, e + 1))
    } else {
        None
    }
}

/// Runtime mirror of `parse_doc`.
pub fn parse_doc_x(s: &Vec<char>, i: usize) -> (r: Option<(Vec<Field>, usize)>)
    requires
        i <= s@.len(),
    ensures
        match r {
            Some((fs, j)) => {
                &&& parse_doc(s@, i as int) == Some((fs.deep_view(), j as int))
                &&& i < j <= s@.len()
            },
            None => parse_doc(s@, i as int) is None,
        },
{
    if i < s.len() && s[i] == '{' {
        let j = skip_ws_x(s, i + 1);
        if j < s.len() && s[j] == '}' {
            let fs: Vec<Field> = Vec::new();
            proof {
                assert(fs.deep_view() =~= Seq::<FieldS>::empty());
            }
            Some((fs, j + 1))
        } else {
            parse_field_items_x(s, i + 1)
        }
    } else {
        None
    }
}

/// Runtime mirror of `parse_doc_items`.
pub fn parse_doc_items_x(s: &Vec<char>, i: usize) -> (r: Option<(Vec<Vec<Field>>, usize)>)
    requires
        i <= s@.len(),
    ensures
        match r {
            Some((ds, j)) => {
                &&& parse_doc_items(s@, i as int) == Some((ds.deep_view(), j as int))
                &&& i < j <= s@.len()
            },
            None => parse_doc_items(s@, i as int) is None,
        },
    decreases s@.len() - i,
{
    let j = skip_ws_x(s, i);
    let (d, k) = match parse_doc_x(s, j) {
        Some(p) => p,
        None => {
            return None;
        },
    };
    let m = skip_ws_x(s, k);
    if m < s.len() && s[m] == ',' {
        match parse_doc_items_x(s, m + 1) {
            Some((mut rest, e)) => {
                let ghost old_deep = rest.deep_view();
                let ghost dv = d.deep_view();
                rest.insert(0, d);
                proof {
                    assert(rest.deep_view() =~= seq![dv] + old_deep);
                }
                Some((rest, e))
            },
            None => None,
        }
    } else if m < s.len() && s[m] == ']' {
        let ghost dv = d.deep_view();
        let mut ds: Vec<Vec<Field>> = Vec::new();
        ds.push(d);
        proof {
            assert(ds.deep_view() =~= seq![dv]);
        }
        Some((ds, m + 1))
    } else {
        None
    }
}

/// Runtime mirror of `parse_docs`.
pub fn parse_docs_x(s: &Vec<char>, i: usize) -> (r: Option<(Vec<Vec<Field>>, usize)>)
    requires
        i <= s@.len(),
    ensures
        match r {
            Some((ds, j)) => {
                &&& parse_docs(s@, i as int) == Some((ds.deep_view(), j as int))
                &&& i < j <= s@.len()
            },
            None => parse_docs(s@, i as int) is None,
        },
{
    if i < s.len() && s[i] == '[' {
        let j = skip_ws_x(s, i + 1);
        if j < s.len() && s[j] == ']' {
            let ds: Vec<Vec<Field>> = Vec::new();
            proof {
                assert(ds.deep_view() =~= Seq::<Seq<FieldS>>::empty());
            }
            Some((ds, j + 1))
        } else {
            parse_doc_items_x(s, i + 1)
        }
    } else {
        None
    }
}

/// Reads a whole text as an array of documents.
pub fn parse_docs_text(s: &str) -> (r: Option<Vec<Vec<Field>>>)
    ensures
        match r {
            Some(ds) => docs_of_text(s@) == Some(ds.deep_view()),
            None => docs_of_text(s@) is None,
        },
{
    let cs = crate::text::str_to_chars(s);
    let i = skip_ws_x(&cs, 0);
    match parse_docs_x(&cs, i) {
        None => None,
        Some((ds, j)) => {
            let e = skip_ws_x(&cs, j);
            if e != cs.len() {
                return None;
            }
            Some(ds)
        },
    }
}

/// Reads a whole text as one document.
pub fn parse_doc_text(s: &str) -> (r: Option<Vec<Field>>)
    ensures
        match r {
            Some(fs) => doc_of_text(s@) == Some(fs.deep_view()),
            None => doc_of_text(s@) is None,
        },
{
    let cs = crate::text::str_to_chars(s);
    let i = skip_ws_x(&cs, 0);
    match parse_doc_x(&cs, i) {
        None => None,
        Some((fs, j)) => {
            let e = skip_ws_x(&cs, j);
            if e != cs.len() {
                return None;
            }
            Some(fs)
        },
    }
}

/// The value of the first field with this key, if any.
pub fn find_field_x<'a>(d: &'a Vec<Field>, k: &str) -> (r: Option<&'a FieldValue>)
    ensures
        match r {
            Some(v) => find_field(d.deep_view(), k@) == Some(v@),
            None => find_field(d.deep_view(), k@) is None,
        },
{
    let ghost dv = d.deep_view();
    proof {
        assert(dv.subrange(0, dv.len() as int) =~= dv);
    }
    let mut i: usize = 0;
    while i < d.len()
        invariant
            dv == d.deep_view(),
            0 <= i <= d@.len(),
            dv.len() == d@.len(),
            find_field(dv, k@) == find_field(dv.subrange(i as int, dv.len() as int), k@),
        decreases d@.len() - i,
    {
        proof {
            let suf = dv.subrange(i as int, dv.len() as int);
            assert(suf[0] == dv[i as int]);
            assert(suf.drop_first() =~= dv.subrange(i + 1 as int, dv.len() as int));
        }
        if crate::text::str_eq(d[i].key.as_str(), k) {
            return Some(&d[i].value);
        }
        i += 1;
    }
    proof {
        assert(dv.subrange(dv.len() as int, dv.len() as int).len() == 0);
    }
    None
}

/// The value of the first entry with this key, if any.
pub fn find_entry_x<'a>(es: &'a Vec<Entry>, k: &str) -> (r: Option<&'a Simple>)
    ensures
        match r {
            Some(v) => find_entry(es.deep_view(), k@) == Some(v@),
            None => find_entry(es.deep_view(), k@) is None,
        },
{
    let ghost ev = es.deep_view();
    proof {
        assert(ev.subrange(0, ev.len() as int) =~= ev);
    }
    let mut i: usize = 0;
    while i < es.len()
        invariant
            ev == es.deep_view(),
            0 <= i <= es@.len(),
            ev.len() == es@.len(),
            find_entry(ev, k@) == find_entry(ev.subrange(i as int, ev.len() as int), k@),
        decreases es@.len() - i,
    {
        proof {
            let suf = ev.subrange(i as int, ev.len() as int);
            assert(suf[0] == ev[i as int]);
            assert(suf.drop_first() =~= ev.subrange(i + 1 as int, ev.len() as int));
        }
        if crate::text::str_eq(es[i].key.as_str(), k) {
            return Some(&es[i].value);
        }
        i += 1;
    }
    proof {
        assert(ev.subrange(ev.len() as int, ev.len() as int).len() == 0);
    }
    None
}

// ---------------------------------------------------------------------
// The tags column: top-level reading, and the round trip
// ---------------------------------------------------------------------

/// Reads a whole text as a JSON array of strings: the form the tags
/// column holds. `None` when the text is not an array of strings or has
/// content beyond it.
pub open spec fn tags_of_text(s: Seq<char>) -> Option<Seq<Seq<char>>> {
    let i = skip_ws(s, 0);
    match parse_list(s, i) {
        Some((items, j)) => {
            if skip_ws(s, j) == s.len() && all_strings(items) {
                Some(as_strings(items))
            } else {
                None
            }
        },
        None => None,
    }
}

proof fn lemma_rt_string_body(s: Seq<char>, i: int, t: Seq<char>)
    requires
        0 <= i,
        i + enc_str_body(t).len() + 1 <= s.len(),
        s.subrange(i, i + enc_str_body(t).len() + 1) == enc_str_body(t) + seq!['"'],
    ensures
        parse_string_body(s, i) == Some((t, i + enc_str_body(t).len() + 1)),
    decreases t.len(),
{
    let body = enc_str_body(t);
    let sub = s.subrange(i, i + body.len() + 1);
    if t.len() == 0 {
        assert(sub[0] == '"');
        assert(s[i] == '"');
        assert(t =~= Seq::<char>::empty());
    } else {
        let c = t[0];
        let t2 = t.drop_first();
        let body2 = enc_str_body(t2);
        assert(body == enc_escape(c) + body2);
        if c == '"' || c == '\\' {
            assert(enc_escape(c) =~= seq!['\\', c]);
            assert(body[0] == '\\' && body[1] == c);
            assert(sub[0] == '\\' && sub[1] == c);
            assert(s[i] == '\\');
            assert(s[i + 1] == c);
            assert(esc_char(c) == Some(c));
            let y = 2 + body2.len() as int + 1;
            assert(s.subrange(i + 2, i + 2 + body2.len() as int + 1) =~= sub.subrange(2, y));
            assert(sub.subrange(2, y) == (body + seq!['"']).subrange(2, y));
            assert((body + seq!['"']).subrange(2, y) =~= body2 + seq!['"']);
            lemma_rt_string_body(s, i + 2, t2);
            assert(seq![c] + t2 =~= t);
        } else {
            assert(enc_escape(c) =~= seq![c]);
            assert(body[0] == c);
            assert(sub[0] == c);
            assert(s[i] == c);
            let y = 1 + body2.len() as int + 1;
            assert(s.subrange(i + 1, i + 1 + body2.len() as int + 1) =~= sub.subrange(1, y));
            assert(sub.subrange(1, y) == (body + seq!['"']).subrange(1, y));
            assert((body + seq!['"']).subrange(1, y) =~= body2 + seq!['"']);
            lemma_rt_string_body(s, i + 1, t2);
            assert(seq![c] + t2 =~= t);
        }
    }
}

proof fn lemma_rt_items(s: Seq<char>, i: int, ts: Seq<Seq<char>>)
    requires
        ts.len() >= 1,
        0 <= i,
        i + enc_tags_items(ts).len() + 1 <= s.len(),
        s.subrange(i, i + enc_tags_items(ts).len() + 1) == enc_tags_items(ts) + seq![']'],
    ensures
        parse_scalar_items(s, i) == Some((as_scalars(ts), i + enc_tags_items(ts).len() + 1)),
    decreases ts.len(),
{
    let items = enc_tags_items(ts);
    let sub = s.subrange(i, i + items.len() + 1);
    let t0 = ts[0];
    let es = enc_string(t0);
    let body = enc_str_body(t0);
    assert(es == seq!['"'] + body + seq!['"']);
    if ts.len() == 1 {
        assert(items == es);
    } else {
        assert(items == es + seq![','] + enc_tags_items(ts.drop_first()));
    }
    assert(items[0] == '"');
    assert(sub[0] == '"');
    assert(s[i] == '"');
    assert(!is_space('"'));
    assert(skip_ws(s, i) == i);
    let yb = 1 + body.len() as int + 1;
    assert(s.subrange(i + 1, i + 1 + body.len() as int + 1) =~= sub.subrange(1, yb));
    assert(sub.subrange(1, yb) == (items + seq![']']).subrange(1, yb));
    assert((items + seq![']']).subrange(1, yb) =~= body + seq!['"']);
    lemma_rt_string_body(s, i + 1, t0);
    let k = i + 1 + body.len() + 1;
    assert(parse_scalar(s, i) == Some((ScalarS::Str(t0), k)));
    if ts.len() == 1 {
        assert(k == i + items.len());
        assert(sub[items.len() as int] == ']');
        assert(s[k] == ']');
        assert(!is_space(']'));
        assert(skip_ws(s, k) == k);
        assert(parse_scalar_items(s, i) == Some((seq![ScalarS::Str(t0)], k + 1)));
        assert(as_scalars(ts) =~= seq![ScalarS::Str(t0)]);
    } else {
        let ts2 = ts.drop_first();
        let items2 = enc_tags_items(ts2);
        assert(k == i + es.len());
        assert((es + seq![','])[es.len() as int] == ',');
        assert(items == (es + seq![',']) + items2);
        assert(items[es.len() as int] == ',');
        assert(sub[es.len() as int] == ',');
        assert(s[k] == ',');
        assert(!is_space(','));
        assert(skip_ws(s, k) == k);
        let a = es.len() as int + 1;
        let y2 = a + items2.len() as int + 1;
        assert(s.subrange(k + 1, k + 1 + items2.len() as int + 1) =~= sub.subrange(a, y2));
        assert(sub.subrange(a, y2) == (items + seq![']']).subrange(a, y2));
        assert((items + seq![']']).subrange(a, y2) =~= items2 + seq![']']);
        lemma_rt_items(s, k + 1, ts2);
        assert(parse_scalar_items(s, i) == Some(
            (seq![ScalarS::Str(t0)] + as_scalars(ts2), k + 1 + items2.len() + 1),
        ));
        assert(seq![ScalarS::Str(t0)] + as_scalars(ts2) =~= as_scalars(ts));
        assert(k + 1 + items2.len() + 1 == i + items.len() + 1);
    }
}

/// The tags round trip: a list of tags written by `enc_tags` reads back
/// as exactly the same list, whatever characters the tags hold.
pub proof fn lemma_tags_round_trip(ts: Seq<Seq<char>>)
    ensures
        tags_of_text(enc_tags(ts)) == Some(ts),
{
    let s = enc_tags(ts);
    let items = enc_tags_items(ts);
    assert(s[0] == '[');
    assert(!is_space('['));
    assert(skip_ws(s, 0) == 0);
    if ts.len() == 0 {
        assert(items == Seq::<char>::empty());
        assert(s =~= seq!['[', ']']);
        assert(s[1] == ']');
        assert(!is_space(']'));
        assert(skip_ws(s, 1) == 1);
        assert(parse_list(s, 0) == Some((Seq::<ScalarS>::empty(), 2int)));
        assert(skip_ws(s, 2) == 2);
        assert(as_strings(Seq::<ScalarS>::empty()) =~= ts);
    } else {
        assert(items[0] == '"') by {
            assert(items == enc_string(ts[0]) + (if ts.len() == 1 {
                Seq::<char>::empty()
            } else {
                seq![','] + enc_tags_items(ts.drop_first())
            }));
        }
        assert(s[1] == '"');
        assert(!is_space('"'));
        assert(skip_ws(s, 1) == 1);
        assert(s.subrange(1, 1 + items.len() as int + 1) =~= items + seq![']']);
        lemma_rt_items(s, 1, ts);
        let strs = as_scalars(ts);
        assert(parse_list(s, 0) == Some((strs, s.len() as int)));
        assert(skip_ws(s, s.len() as int) == s.len());
        assert(all_strings(strs));
        assert(as_strings(strs) =~= ts);
    }
}

/// Reads the tags column: `Some` exactly when the text is a JSON array
/// of strings, with the decoded tags in order.
pub fn decode_tags(s: &str) -> (r: Option<Vec<String>>)
    ensures
        match r {
            Some(v) => tags_of_text(s@) == Some(v.deep_view()),
            None => tags_of_text(s@) is None,
        },
{
    let cs = crate::text::str_to_chars(s);
    let i = skip_ws_x(&cs, 0);
    match parse_list_x(&cs, i) {
        None => None,
        Some((items, j)) => {
            let e = skip_ws_x(&cs, j);
            if e != cs.len() {
                return None;
            }
            let ghost sp = items.deep_view();
            let mut out: Vec<String> = Vec::new();
            let mut k: usize = 0;
            while k < items.len()
                invariant
                    cs@ == s@,
                    i as int == skip_ws(s@, 0),
                    parse_list(s@, i as int) == Some((sp, j as int)),
                    skip_ws(s@, j as int) == s@.len(),
                    sp == items.deep_view(),
                    items@.len() == sp.len(),
                    0 <= k <= items@.len(),
                    out@.len() == k,
                    forall|m: int| 0 <= m < k ==> sp[m] is Str,
                    forall|m: int| 0 <= m < k ==> out.deep_view()[m] == scalar_str(sp[m]),
                decreases items@.len() - k,
            {
                let ghost old_out = out.deep_view();
                match &items[k] {
                    Scalar::Str(t) => {
                        out.push(t.clone());
                        proof {
                            assert(out.deep_view() =~= old_out.push(t@));
                        }
                    },
                    _ => {
                        proof {
                            assert(!(sp[k as int] is Str));
                            assert(!all_strings(sp));
                        }
                        return None;
                    },
                }
                k += 1;
            }
            proof {
                assert(out.deep_view() =~= as_strings(sp));
                assert(cs@ == s@);
                assert(parse_list(s@, i as int) == Some((sp, j as int)));
                assert(skip_ws(s@, j as int) == s@.len());
                assert(all_strings(sp));
                assert(tags_of_text(s@) == Some(out.deep_view()));
            }
            Some(out)
        },
    }
}

} // verus!
