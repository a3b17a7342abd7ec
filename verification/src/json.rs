//! JSON text for string-keyed maps.
//!
//! The provider's form parameters carry two JSON payloads: the template
//! variables (a flat object whose members are all strings) and the
//! per-recipient variables (an object whose members are flat string objects).
//! The success response body is itself a flat string object. This module
//! states the exact text of those objects, produces it, and parses it back.
//!
//! Strings are escaped as JSON requires: `"` and `\` with a backslash, and
//! control characters as `\u00XX`. The parser additionally accepts the
//! standard short escapes, any `\uXXXX` escape naming a Unicode scalar
//! value (surrogates are rejected), and insignificant whitespace between
//! tokens.

use vstd::prelude::*;

verus! {

/// The lower-case hexadecimal digit for a value below 16.
pub open spec fn hex_digit(d: int) -> char {
    if d == 0 { '0' }
    else if d == 1 { '1' }
    else if d == 2 { '2' }
    else if d == 3 { '3' }
    else if d == 4 { '4' }
    else if d == 5 { '5' }
    else if d == 6 { '6' }
    else if d == 7 { '7' }
    else if d == 8 { '8' }
    else if d == 9 { '9' }
    else if d == 10 { 'a' }
    else if d == 11 { 'b' }
    else if d == 12 { 'c' }
    else if d == 13 { 'd' }
    else if d == 14 { 'e' }
    else { 'f' }
}

/// The value of a hexadecimal digit, or -1 for any other character.
pub open spec fn hex_val(c: char) -> int {
    if c == '0' { 0 }
    else if c == '1' { 1 }
    else if c == '2' { 2 }
    else if c == '3' { 3 }
    else if c == '4' { 4 }
    else if c == '5' { 5 }
    else if c == '6' { 6 }
    else if c == '7' { 7 }
    else if c == '8' { 8 }
    else if c == '9' { 9 }
    else if c == 'a' || c == 'A' { 10 }
    else if c == 'b' || c == 'B' { 11 }
    else if c == 'c' || c == 'C' { 12 }
    else if c == 'd' || c == 'D' { 13 }
    else if c == 'e' || c == 'E' { 14 }
    else if c == 'f' || c == 'F' { 15 }
    else { -1 }
}

/// How one character appears inside a JSON string literal.
pub open spec fn escape_char(c: char) -> Seq<char> {
    if c == '"' { seq!['\\', '"'] }
    else if c == '\\' { seq!['\\', '\\'] }
    else if (c as u32) < 0x20 {
        seq!['\\', 'u', '0', '0', hex_digit(((c as u32) as int) / 16), hex_digit(((c as u32) as int) % 16)]
    }
    else { seq![c] }
}

/// The body of a JSON string literal for `s`.
pub open spec fn escape_string(s: Seq<char>) -> Seq<char>
    decreases s.len(),
{
    if s.len() == 0 { Seq::empty() } else { escape_char(s[0]) + escape_string(s.drop_first()) }
}

/// The quoted JSON string literal for `s`.
pub open spec fn quoted(s: Seq<char>) -> Seq<char> {
    seq!['"'] + escape_string(s) + seq!['"']
}

/// The member list of a flat object, in order, separated by commas.
pub open spec fn flat_members(entries: Seq<(Seq<char>, Seq<char>)>) -> Seq<char>
    decreases entries.len(),
{
    if entries.len() == 0 {
        Seq::empty()
    } else {
        quoted(entries[0].0) + seq![':'] + quoted(entries[0].1)
        + (if entries.len() == 1 { Seq::<char>::empty() } else { seq![','] + flat_members(entries.drop_first()) })
    }
}

/// The JSON object whose members are the given string pairs, in order.
pub open spec fn flat_object(entries: Seq<(Seq<char>, Seq<char>)>) -> Seq<char> {
    seq!['{'] + flat_members(entries) + seq!['}']
}

/// The member list of a nested object: each value is itself a flat object.
pub open spec fn nested_members(entries: Seq<(Seq<char>, Seq<(Seq<char>, Seq<char>)>)>) -> Seq<char>
    decreases entries.len(),
{
    if entries.len() == 0 {
        Seq::empty()
    } else {
        quoted(entries[0].0) + seq![':'] + flat_object(entries[0].1)
        + (if entries.len() == 1 { Seq::<char>::empty() } else { seq![','] + nested_members(entries.drop_first()) })
    }
}

/// The JSON object whose members are the given nested pairs, in order.
pub open spec fn nested_object(entries: Seq<(Seq<char>, Seq<(Seq<char>, Seq<char>)>)>) -> Seq<char> {
    seq!['{'] + nested_members(entries) + seq!['}']
}

/// The mathematical pair behind one `(String, String)` entry.
pub open spec fn pair_view(p: (String, String)) -> (Seq<char>, Seq<char>) {
    (p.0@, p.1@)
}

/// The mathematical sequence behind a vector of string pairs.
pub open spec fn pairs_view(ps: Seq<(String, String)>) -> Seq<(Seq<char>, Seq<char>)> {
    ps.map_values(|p: (String, String)| pair_view(p))
}

/// The mathematical sequence behind a vector of nested entries.
pub open spec fn nested_view(ps: Seq<(String, Vec<(String, String)>)>) -> Seq<(Seq<char>, Seq<(Seq<char>, Seq<char>)>)> {
    ps.map_values(|p: (String, Vec<(String, String)>)| (p.0@, pairs_view(p.1@)))
}

/// Relies on `String::push`: appends exactly the one character.
#[verifier::external_body]
fn push_char(s: &mut String, c: char)
    ensures
        final(s)@ == old(s)@ + seq![c],
{
    s.push(c);
}

/// Relies on `char::from_u32`: `Some` exactly for Unicode scalar values
/// (not a surrogate, at most 0x10FFFF), and the returned character carries
/// that value.
#[verifier::external_body]
fn char_from_u32(v: u32) -> (r: Option<char>)
    ensures
        r is Some <==> (v < 0xD800 || (0xE000 <= v && v <= 0x10FFFF)),
        r matches Some(c) ==> (c as u32) == v,
{
    char::from_u32(v)
}

fn hex_digit_exec(d: u32) -> (c: char)
    requires
        0 <= d < 16,
    ensures
        c == hex_digit(d as int),
{
    if d == 0 { '0' }
    else if d == 1 { '1' }
    else if d == 2 { '2' }
    else if d == 3 { '3' }
    else if d == 4 { '4' }
    else if d == 5 { '5' }
    else if d == 6 { '6' }
    else if d == 7 { '7' }
    else if d == 8 { '8' }
    else if d == 9 { '9' }
    else if d == 10 { 'a' }
    else if d == 11 { 'b' }
    else if d == 12 { 'c' }
    else if d == 13 { 'd' }
    else if d == 14 { 'e' }
    else { 'f' }
}

fn append_escaped(out: &mut String, s: &str)
    ensures
        final(out)@ == old(out)@ + escape_string(s@),
    decreases s@.len(),
{
    let n = s.unicode_len();
    if n == 0 {
        proof {
            assert(final(out)@ =~= old(out)@ + escape_string(s@));
        }
        return;
    }
    let c = s.get_char(0);
    if c == '"' {
        out.append("\\\"");
        proof {
            reveal_strlit("\\\"");
            assert(out@ =~= old(out)@ + escape_char(s@[0]));
        }
    } else if c == '\\' {
        out.append("\\\\");
        proof {
            reveal_strlit("\\\\");
            assert(out@ =~= old(out)@ + escape_char(s@[0]));
        }
    } else if (c as u32) < 0x20 {
        let v = c as u32;
        out.append("\\u00");
        push_char(out, hex_digit_exec(v / 16));
        push_char(out, hex_digit_exec(v % 16));
        proof {
            reveal_strlit("\\u00");
            assert(out@ =~= old(out)@ + escape_char(s@[0]));
        }
    } else {
        push_char(out, c);
        proof {
            assert(out@ =~= old(out)@ + escape_char(s@[0]));
        }
    }
    let rest = s.substring_char(1, n);
    proof {
        assert(rest@ =~= s@.drop_first());
    }
    append_escaped(out, rest);
    proof {
        assert(final(out)@ =~= old(out)@ + escape_string(s@));
    }
}

fn append_quoted(out: &mut String, s: &str)
    ensures
        final(out)@ == old(out)@ + quoted(s@),
{
    push_char(out, '"');
    append_escaped(out, s);
    push_char(out, '"');
    proof {
        assert(final(out)@ =~= old(out)@ + quoted(s@));
    }
}

fn flat_members_exec(entries: &Vec<(String, String)>, i: usize) -> (r: String)
    requires
        i <= entries.len(),
    ensures
        r@ == flat_members(pairs_view(entries@).skip(i as int)),
    decreases entries.len() - i,
{
    let ghost tail = pairs_view(entries@).skip(i as int);
    if i == entries.len() {
        proof {
            assert(tail =~= Seq::<(Seq<char>, Seq<char>)>::empty());
        }
        return String::new();
    }
    let mut out = String::new();
    append_quoted(&mut out, entries[i].0.as_str());
    push_char(&mut out, ':');
    append_quoted(&mut out, entries[i].1.as_str());
    proof {
        assert(tail[0] == pair_view(entries@[i as int]));
        assert(out@ =~= quoted(tail[0].0) + seq![':'] + quoted(tail[0].1));
    }
    if i + 1 < entries.len() {
        push_char(&mut out, ',');
        let rest = flat_members_exec(entries, i + 1);
        out.append(rest.as_str());
        proof {
            assert(tail.drop_first() =~= pairs_view(entries@).skip(i + 1));
            assert(out@ =~= flat_members(tail));
        }
    } else {
        proof {
            assert(tail.len() == 1);
            assert(out@ =~= flat_members(tail));
        }
    }
    out
}

/// The JSON text of a flat string map, members in the vector's order.
pub fn flat_json(entries: &Vec<(String, String)>) -> (r: String)
    ensures
        r@ == flat_object(pairs_view(entries@)),
{
    let mut out = String::new();
    push_char(&mut out, '{');
    let members = flat_members_exec(entries, 0);
    out.append(members.as_str());
    push_char(&mut out, '}');
    proof {
        assert(pairs_view(entries@).skip(0) =~= pairs_view(entries@));
        assert(out@ =~= flat_object(pairs_view(entries@)));
    }
    out
}

fn nested_members_exec(entries: &Vec<(String, Vec<(String, String)>)>, i: usize) -> (r: String)
    requires
        i <= entries.len(),
    ensures
        r@ == nested_members(nested_view(entries@).skip(i as int)),
    decreases entries.len() - i,
{
    let ghost tail = nested_view(entries@).skip(i as int);
    if i == entries.len() {
        proof {
            assert(tail =~= Seq::<(Seq<char>, Seq<(Seq<char>, Seq<char>)>)>::empty());
        }
        return String::new();
    }
    let mut out = String::new();
    append_quoted(&mut out, entries[i].0.as_str());
    push_char(&mut out, ':');
    let inner = flat_json(&entries[i].1);
    out.append(inner.as_str());
    proof {
        assert(tail[0] == (entries@[i as int].0@, pairs_view(entries@[i as int].1@)));
        assert(out@ =~= quoted(tail[0].0) + seq![':'] + flat_object(tail[0].1));
    }
    if i + 1 < entries.len() {
        push_char(&mut out, ',');
        let rest = nested_members_exec(entries, i + 1);
        out.append(rest.as_str());
        proof {
            assert(tail.drop_first() =~= nested_view(entries@).skip(i + 1));
            assert(out@ =~= nested_members(tail));
        }
    } else {
        proof {
            assert(tail.len() == 1);
            assert(out@ =~= nested_members(tail));
        }
    }
    out
}

/// The JSON text of a nested string map, members in the vector's order.
pub fn nested_json(entries: &Vec<(String, Vec<(String, String)>)>) -> (r: String)
    ensures
        r@ == nested_object(nested_view(entries@)),
{
    let mut out = String::new();
    push_char(&mut out, '{');
    let members = nested_members_exec(entries, 0);
    out.append(members.as_str());
    push_char(&mut out, '}');
    proof {
        assert(nested_view(entries@).skip(0) =~= nested_view(entries@));
        assert(out@ =~= nested_object(nested_view(entries@)));
    }
    out
}

// ---------------------------------------------------------------------------
// Parsing
// ---------------------------------------------------------------------------

/// A lexical token of the object grammar, at the mathematical level.
pub enum JsonToken {
    LBrace,
    RBrace,
    Colon,
    Comma,
    Str(Seq<char>),
}

/// Whitespace that may separate tokens.
pub open spec fn is_json_ws(c: char) -> bool {
    c == ' ' || c == '\t' || c == '\n' || c == '\r'
}

/// Prepends a decoded character to the result of reading the rest of a
/// string literal's body.
pub open spec fn unescape_cons(c: char, r: Option<(Seq<char>, Seq<char>)>) -> Option<(Seq<char>, Seq<char>)> {
    match r {
        None => None,
        Some((content, rest)) => Some((seq![c] + content, rest)),
    }
}

/// Reads a string literal's body, starting just after the opening quote:
/// the decoded content, and what follows the closing quote. `None` when the
/// quote never closes or an escape is malformed.
pub open spec fn unescape(s: Seq<char>) -> Option<(Seq<char>, Seq<char>)>
    decreases s.len(),
{
    if s.len() == 0 {
        None
    } else if s[0] == '"' {
        Some((Seq::empty(), s.drop_first()))
    } else if s[0] == '\\' {
        if s.len() < 2 {
            None
        } else {
            let e = s[1];
            if e == '"' || e == '\\' || e == '/' { unescape_cons(e, unescape(s.skip(2))) }
            else if e == 'n' { unescape_cons('\n', unescape(s.skip(2))) }
            else if e == 't' { unescape_cons('\t', unescape(s.skip(2))) }
            else if e == 'r' { unescape_cons('\r', unescape(s.skip(2))) }
            else if e == 'b' { unescape_cons('\u{8}', unescape(s.skip(2))) }
            else if e == 'f' { unescape_cons('\u{c}', unescape(s.skip(2))) }
            else if e == 'u' {
                if s.len() >= 6 && hex_val(s[2]) >= 0 && hex_val(s[3]) >= 0 && hex_val(s[4]) >= 0
                    && hex_val(s[5]) >= 0 {
                    let v = 4096 * hex_val(s[2]) + 256 * hex_val(s[3]) + 16 * hex_val(s[4])
                        + hex_val(s[5]);
                    if 0xD800 <= v < 0xE000 {
                        None
                    } else {
                        unescape_cons(((v as u32) as char), unescape(s.skip(6)))
                    }
                } else {
                    None
                }
            }
            else { None }
        }
    } else {
        unescape_cons(s[0], unescape(s.drop_first()))
    }
}

/// Reading a string body consumes at least the closing quote.
pub proof fn lemma_unescape_shrinks(s: Seq<char>)
    ensures
        unescape(s) matches Some(r) ==> r.1.len() < s.len(),
    decreases s.len(),
{
    if s.len() == 0 {
    } else if s[0] == '"' {
    } else if s[0] == '\\' {
        if s.len() >= 2 {
            lemma_unescape_shrinks(s.skip(2));
        }
        if s.len() >= 6 {
            lemma_unescape_shrinks(s.skip(6));
        }
    } else {
        lemma_unescape_shrinks(s.drop_first());
    }
}

/// Prepends a token to the result of lexing the rest.
pub open spec fn lex_cons(t: JsonToken, r: Option<Seq<JsonToken>>) -> Option<Seq<JsonToken>> {
    match r {
        None => None,
        Some(ts) => Some(seq![t] + ts),
    }
}

/// Splits the whole text into tokens; `None` on any character that fits no
/// token.
pub open spec fn lex(s: Seq<char>) -> Option<Seq<JsonToken>>
    decreases s.len(),
    via lex_decreases
{
    if s.len() == 0 {
        Some(Seq::empty())
    } else if is_json_ws(s[0]) {
        lex(s.drop_first())
    } else if s[0] == '{' {
        lex_cons(JsonToken::LBrace, lex(s.drop_first()))
    } else if s[0] == '}' {
        lex_cons(JsonToken::RBrace, lex(s.drop_first()))
    } else if s[0] == ':' {
        lex_cons(JsonToken::Colon, lex(s.drop_first()))
    } else if s[0] == ',' {
        lex_cons(JsonToken::Comma, lex(s.drop_first()))
    } else if s[0] == '"' {
        match unescape(s.drop_first()) {
            None => None,
            Some((content, rest)) => lex_cons(JsonToken::Str(content), lex(rest)),
        }
    } else {
        None
    }
}

#[via_fn]
proof fn lex_decreases(s: Seq<char>) {
    if s.len() > 0 && s[0] == '"' {
        lemma_unescape_shrinks(s.drop_first());
    }
}

/// Parses a member list followed by the closing brace: `k : v` pairs
/// separated by commas, consuming every token.
pub open spec fn parse_members(toks: Seq<JsonToken>) -> Option<Seq<(Seq<char>, Seq<char>)>>
    decreases toks.len(),
{
    if toks.len() < 4 {
        None
    } else if toks[0] matches JsonToken::Str(k) && toks[1] is Colon && toks[2] matches JsonToken::Str(v) {
        let k = toks[0]->Str_0;
        let v = toks[2]->Str_0;
        if toks[3] is RBrace && toks.len() == 4 {
            Some(seq![(k, v)])
        } else if toks[3] is Comma {
            match parse_members(toks.skip(4)) {
                None => None,
                Some(r) => Some(seq![(k, v)] + r),
            }
        } else {
            None
        }
    } else {
        None
    }
}

/// Parses a full token sequence as one flat object of string members.
pub open spec fn parse_object_tokens(toks: Seq<JsonToken>) -> Option<Seq<(Seq<char>, Seq<char>)>> {
    if toks.len() >= 2 && toks[0] is LBrace {
        if toks.len() == 2 && toks[1] is RBrace {
            Some(Seq::empty())
        } else {
            parse_members(toks.drop_first())
        }
    } else {
        None
    }
}

/// Parses text as one flat JSON object whose members are all strings, in
/// the order written. `None` on anything else.
pub open spec fn parse_flat_object(s: Seq<char>) -> Option<Seq<(Seq<char>, Seq<char>)>> {
    match lex(s) {
        None => None,
        Some(toks) => parse_object_tokens(toks),
    }
}

// ---------------------------------------------------------------------------
// Parsing inverts serialization
// ---------------------------------------------------------------------------

/// Reading a string body back out of its escaped form recovers the original
/// characters exactly, and stops at the closing quote.
pub proof fn lemma_unescape_escape(s: Seq<char>, rest: Seq<char>)
    ensures
        unescape(escape_string(s) + seq!['"'] + rest) == Some((s, rest)),
    decreases s.len(),
{
    let t = escape_string(s) + seq!['"'] + rest;
    if s.len() == 0 {
        assert(t =~= seq!['"'] + rest);
        assert(t[0] == '"');
        assert(t.drop_first() =~= rest);
    } else {
        let c = s[0];
        let tail = escape_string(s.drop_first()) + seq!['"'] + rest;
        lemma_unescape_escape(s.drop_first(), rest);
        assert(t =~= escape_char(c) + tail);
        assert(seq![c] + s.drop_first() =~= s);
        if c == '"' {
            assert(t[0] == '\\' && t[1] == '"');
            assert(t.skip(2) =~= tail);
        } else if c == '\\' {
            assert(t[0] == '\\' && t[1] == '\\');
            assert(t.skip(2) =~= tail);
        } else if (c as u32) < 0x20 {
            let v = (c as u32) as int;
            assert(0 <= v < 0x20);
            assert(0 <= v / 16 < 2 && 0 <= v % 16 < 16) by (nonlinear_arith)
                requires 0 <= v < 0x20;
            vstd::arithmetic::div_mod::lemma_fundamental_div_mod(v, 16);
            assert(t[0] == '\\' && t[1] == 'u' && t[2] == '0' && t[3] == '0');
            assert(t[4] == hex_digit(v / 16) && t[5] == hex_digit(v % 16));
            assert(hex_val(t[2]) == 0 && hex_val(t[3]) == 0);
            assert(hex_val(t[4]) == v / 16);
            assert(hex_val(t[5]) == v % 16);
            let w = 4096 * hex_val(t[2]) + 256 * hex_val(t[3]) + 16 * hex_val(t[4]) + hex_val(t[5]);
            assert(w == v);
            assert(!(0xD800 <= w < 0xE000));
            assert((w as u32) == (c as u32));
            vstd::utf8::char_u32_cast(c, c as u32);
            assert(((w as u32) as char) == c);
            assert(t.skip(6) =~= tail);
        } else {
            assert(t[0] == c);
            assert(t.drop_first() =~= tail);
        }
    }
}

/// The tokens of a member list as the serializer writes it.
pub open spec fn member_tokens(entries: Seq<(Seq<char>, Seq<char>)>) -> Seq<JsonToken>
    decreases entries.len(),
{
    if entries.len() == 0 {
        Seq::empty()
    } else {
        seq![JsonToken::Str(entries[0].0), JsonToken::Colon, JsonToken::Str(entries[0].1)]
        + (if entries.len() == 1 { Seq::<JsonToken>::empty() } else { seq![JsonToken::Comma] + member_tokens(entries.drop_first()) })
    }
}

/// Lexing a quoted string literal yields one string token and goes on.
pub proof fn lemma_lex_quoted(s: Seq<char>, rest: Seq<char>)
    ensures
        lex(quoted(s) + rest) == lex_cons(JsonToken::Str(s), lex(rest)),
{
    let t = quoted(s) + rest;
    assert(t[0] == '"');
    assert(t.drop_first() =~= escape_string(s) + seq!['"'] + rest);
    lemma_unescape_escape(s, rest);
}

/// Lexing a single punctuation character yields its token and goes on.
pub proof fn lemma_lex_punct(c: char, t: JsonToken, rest: Seq<char>)
    requires
        (c == '{' && t is LBrace) || (c == '}' && t is RBrace) || (c == ':' && t is Colon)
            || (c == ',' && t is Comma),
    ensures
        lex(seq![c] + rest) == lex_cons(t, lex(rest)),
{
    assert((seq![c] + rest)[0] == c);
    assert((seq![c] + rest).drop_first() =~= rest);
}

/// Lexing a serialized member list yields its tokens, followed by whatever
/// the trailing text lexes to.
#[verifier::rlimit(60)]
pub proof fn lemma_lex_members(entries: Seq<(Seq<char>, Seq<char>)>, tail: Seq<char>)
    ensures
        lex(flat_members(entries) + tail) == (match lex(tail) {
            None => None,
            Some(ts) => Some(member_tokens(entries) + ts),
        }),
    decreases entries.len(),
{
    if entries.len() == 0 {
        assert(flat_members(entries) + tail =~= tail);
        match lex(tail) {
            None => {},
            Some(ts) => {
                assert(member_tokens(entries) + ts =~= ts);
            },
        }
    } else {
        let k = entries[0].0;
        let v = entries[0].1;
        let after_colon = if entries.len() == 1 { tail } else {
            seq![','] + (flat_members(entries.drop_first()) + tail)
        };
        let after_value = quoted(v) + after_colon;
        let after_key = seq![':'] + after_value;
        assert(flat_members(entries) + tail =~= quoted(k) + after_key);
        lemma_lex_quoted(k, after_key);
        lemma_lex_punct(':', JsonToken::Colon, after_value);
        lemma_lex_quoted(v, after_colon);
        if entries.len() == 1 {
            match lex(tail) {
                None => {},
                Some(ts) => {
                    assert(seq![JsonToken::Str(k)] + (seq![JsonToken::Colon] + (seq![JsonToken::Str(v)] + ts))
                        =~= member_tokens(entries) + ts);
                },
            }
        } else {
            lemma_lex_punct(',', JsonToken::Comma, flat_members(entries.drop_first()) + tail);
            lemma_lex_members(entries.drop_first(), tail);
            match lex(tail) {
                None => {},
                Some(ts) => {
                    assert(seq![JsonToken::Str(k)] + (seq![JsonToken::Colon] + (seq![JsonToken::Str(v)]
                        + (seq![JsonToken::Comma] + (member_tokens(entries.drop_first()) + ts))))
                        =~= member_tokens(entries) + ts);
                },
            }
        }
    }
}

/// Lexing a serialized flat object yields exactly its tokens.
pub proof fn lemma_lex_object(entries: Seq<(Seq<char>, Seq<char>)>)
    ensures
        lex(flat_object(entries)) == Some(
            seq![JsonToken::LBrace] + member_tokens(entries) + seq![JsonToken::RBrace],
        ),
{
    let close = seq!['}'];
    assert(flat_object(entries) =~= seq!['{'] + (flat_members(entries) + close));
    lemma_lex_punct('{', JsonToken::LBrace, flat_members(entries) + close);
    lemma_lex_members(entries, close);
    lemma_lex_punct('}', JsonToken::RBrace, Seq::empty());
    assert(close =~= seq!['}'] + Seq::<char>::empty());
    assert(lex(Seq::<char>::empty()) == Some(Seq::<JsonToken>::empty()));
    assert(seq![JsonToken::RBrace] + Seq::<JsonToken>::empty() =~= seq![JsonToken::RBrace]);
    assert(seq![JsonToken::LBrace] + (member_tokens(entries) + seq![JsonToken::RBrace])
        =~= seq![JsonToken::LBrace] + member_tokens(entries) + seq![JsonToken::RBrace]);
}

/// Parsing the member tokens back, up to the closing brace, recovers the
/// entries exactly.
pub proof fn lemma_parse_member_tokens(entries: Seq<(Seq<char>, Seq<char>)>)
    requires
        entries.len() > 0,
    ensures
        parse_members(member_tokens(entries) + seq![JsonToken::RBrace]) == Some(entries),
    decreases entries.len(),
{
    let toks = member_tokens(entries) + seq![JsonToken::RBrace];
    if entries.len() == 1 {
        assert(toks.len() == 4);
        assert(entries =~= seq![(entries[0].0, entries[0].1)]);
    } else {
        lemma_parse_member_tokens(entries.drop_first());
        assert(toks.skip(4) =~= member_tokens(entries.drop_first()) + seq![JsonToken::RBrace]);
        assert(seq![(entries[0].0, entries[0].1)] + entries.drop_first() =~= entries);
    }
}

/// Parsing a serialized flat object recovers the entries exactly, in order:
/// for every flat string map, `parse_flat_object(flat_object(entries))`
/// yields the entries back.
pub proof fn lemma_flat_round_trip(entries: Seq<(Seq<char>, Seq<char>)>)
    ensures
        parse_flat_object(flat_object(entries)) == Some(entries),
{
    lemma_lex_object(entries);
    let toks = seq![JsonToken::LBrace] + member_tokens(entries) + seq![JsonToken::RBrace];
    assert(toks[0] is LBrace);
    if entries.len() == 0 {
        assert(member_tokens(entries) =~= Seq::<JsonToken>::empty());
        assert(toks.len() == 2);
        assert(toks[1] is RBrace);
        assert(Some(Seq::<(Seq<char>, Seq<char>)>::empty()) == Some(entries));
        assert(entries =~= Seq::<(Seq<char>, Seq<char>)>::empty());
    } else {
        assert(member_tokens(entries).len() >= 3);
        assert(toks.len() >= 5);
        lemma_parse_member_tokens(entries);
        assert(toks.drop_first() =~= member_tokens(entries) + seq![JsonToken::RBrace]);
    }
}

/// The first value stored under `key`, if any.
pub open spec fn lookup(entries: Seq<(Seq<char>, Seq<char>)>, key: Seq<char>) -> Option<Seq<char>>
    decreases entries.len(),
{
    if entries.len() == 0 {
        None
    } else if entries[0].0 == key {
        Some(entries[0].1)
    } else {
        lookup(entries.drop_first(), key)
    }
}

/// Looking a key up in a concatenation skips a prefix that never holds it.
pub proof fn lemma_lookup_append(a: Seq<(Seq<char>, Seq<char>)>, b: Seq<(Seq<char>, Seq<char>)>, k: Seq<char>)
    requires
        forall|j: int| 0 <= j < a.len() ==> a[j].0 != k,
    ensures
        lookup(a + b, k) == lookup(b, k),
    decreases a.len(),
{
    if a.len() == 0 {
        assert(a + b =~= b);
    } else {
        assert((a + b)[0] == a[0]);
        assert((a + b).drop_first() =~= a.drop_first() + b);
        lemma_lookup_append(a.drop_first(), b, k);
    }
}

/// Appending an entry under a different key leaves a lookup unchanged.
pub proof fn lemma_lookup_snoc_other(a: Seq<(Seq<char>, Seq<char>)>, e: (Seq<char>, Seq<char>), k: Seq<char>)
    requires
        e.0 != k,
    ensures
        lookup(a.push(e), k) == lookup(a, k),
    decreases a.len(),
{
    if a.len() == 0 {
        assert(a.push(e)[0] == e);
        assert(a.push(e).drop_first() =~= Seq::<(Seq<char>, Seq<char>)>::empty());
    } else {
        assert(a.push(e)[0] == a[0]);
        assert(a.push(e).drop_first() =~= a.drop_first().push(e));
        lemma_lookup_snoc_other(a.drop_first(), e, k);
    }
}

/// The entries with the first binding of `key` replaced by `value`, or
/// `(key, value)` appended when no binding exists: a map insert, read on
/// an association list.
pub open spec fn upsert(
    entries: Seq<(Seq<char>, Seq<char>)>,
    key: Seq<char>,
    value: Seq<char>,
) -> Seq<(Seq<char>, Seq<char>)>
    decreases entries.len(),
{
    if entries.len() == 0 {
        seq![(key, value)]
    } else if entries[0].0 == key {
        seq![(key, value)] + entries.drop_first()
    } else {
        seq![entries[0]] + upsert(entries.drop_first(), key, value)
    }
}

/// When the key is absent, an upsert appends.
pub proof fn lemma_upsert_absent(entries: Seq<(Seq<char>, Seq<char>)>, key: Seq<char>, value: Seq<char>)
    requires
        forall|j: int| 0 <= j < entries.len() ==> (#[trigger] entries[j]).0 != key,
    ensures
        upsert(entries, key, value) == entries + seq![(key, value)],
    decreases entries.len(),
{
    if entries.len() == 0 {
        assert(upsert(entries, key, value) =~= entries + seq![(key, value)]);
    } else {
        lemma_upsert_absent(entries.drop_first(), key, value);
        assert(upsert(entries, key, value) =~= entries + seq![(key, value)]);
    }
}

/// When the key first occurs at `i`, an upsert replaces that entry in
/// place.
pub proof fn lemma_upsert_at_first(
    entries: Seq<(Seq<char>, Seq<char>)>,
    key: Seq<char>,
    value: Seq<char>,
    i: int,
)
    requires
        0 <= i < entries.len(),
        entries[i].0 == key,
        forall|j: int| 0 <= j < i ==> (#[trigger] entries[j]).0 != key,
    ensures
        upsert(entries, key, value) == entries.update(i, (key, value)),
    decreases i,
{
    if i == 0 {
        assert(upsert(entries, key, value) =~= entries.update(0, (key, value)));
    } else {
        lemma_upsert_at_first(entries.drop_first(), key, value, i - 1);
        assert(entries.drop_first().update(i - 1, (key, value)) =~= entries.update(i, (key, value)).drop_first());
        assert(upsert(entries, key, value) =~= entries.update(i, (key, value)));
    }
}

/// After an upsert the key reads as the new value, and every other key
/// reads as before.
pub proof fn lemma_lookup_upsert(
    entries: Seq<(Seq<char>, Seq<char>)>,
    key: Seq<char>,
    value: Seq<char>,
    k: Seq<char>,
)
    ensures
        lookup(upsert(entries, key, value), key) == Some(value),
        k != key ==> lookup(upsert(entries, key, value), k) == lookup(entries, k),
    decreases entries.len(),
{
    let u = upsert(entries, key, value);
    if entries.len() == 0 {
        assert(u[0] == (key, value));
        assert(u.drop_first() =~= Seq::<(Seq<char>, Seq<char>)>::empty());
        if k != key {
            assert(lookup(u, k) == lookup(u.drop_first(), k));
            assert(lookup(u, k) is None);
        }
    } else if entries[0].0 == key {
        assert(u[0] == (key, value));
        assert(u.drop_first() =~= entries.drop_first());
        if k != key {
            assert(lookup(u, k) == lookup(entries.drop_first(), k));
            assert(lookup(entries, k) == lookup(entries.drop_first(), k));
        }
    } else {
        assert(u[0] == entries[0]);
        assert(u.drop_first() =~= upsert(entries.drop_first(), key, value));
        lemma_lookup_upsert(entries.drop_first(), key, value, k);
        if k != key && entries[0].0 != k {
            assert(lookup(u, k) == lookup(upsert(entries.drop_first(), key, value), k));
            assert(lookup(entries, k) == lookup(entries.drop_first(), k));
        }
    }
}

/// No two entries share a key.
pub open spec fn keys_unique(entries: Seq<(Seq<char>, Seq<char>)>) -> bool {
    forall|i: int, j: int| 0 <= i < j < entries.len() ==> (#[trigger] entries[i]).0 != (
    #[trigger] entries[j]).0
}

/// Whether the entries of a parsed or to-be-serialized flat map all
/// carry distinct keys.
pub fn keys_unique_exec(entries: &Vec<(String, String)>) -> (r: bool)
    ensures
        r == keys_unique(pairs_view(entries@)),
{
    let ghost m = pairs_view(entries@);
    let mut i: usize = 0;
    while i < entries.len()
        invariant
            i <= entries.len(),
            m == pairs_view(entries@),
            m.len() == entries@.len(),
            forall|a: int, b: int| 0 <= a < b < entries@.len() && a < i ==> m[a].0 != m[b].0,
        decreases entries.len() - i,
    {
        let mut j: usize = i + 1;
        while j < entries.len()
            invariant
                i < j <= entries.len(),
                i < entries.len(),
                m == pairs_view(entries@),
                m.len() == entries@.len(),
                forall|b: int| i < b < j ==> m[i as int].0 != m[b].0,
            decreases entries.len() - j,
        {
            proof {
                assert(m[i as int] == pair_view(entries@[i as int]));
                assert(m[j as int] == pair_view(entries@[j as int]));
            }
            if entries[i].0 == entries[j].0 {
                return false;
            }
            j += 1;
        }
        i += 1;
    }
    true
}

/// A nested map is a mapping in both layers: outer keys distinct, and
/// every inner map's keys distinct.
pub open spec fn nested_keys_unique(entries: Seq<(Seq<char>, Seq<(Seq<char>, Seq<char>)>)>) -> bool {
    &&& forall|i: int, j: int| 0 <= i < j < entries.len() ==> (#[trigger] entries[i]).0 != (
    #[trigger] entries[j]).0
    &&& forall|i: int| 0 <= i < entries.len() ==> keys_unique((#[trigger] entries[i]).1)
}

/// Whether a nested map carries distinct keys in both layers.
pub fn nested_keys_unique_exec(entries: &Vec<(String, Vec<(String, String)>)>) -> (r: bool)
    ensures
        r == nested_keys_unique(nested_view(entries@)),
{
    let ghost m = nested_view(entries@);
    let mut i: usize = 0;
    while i < entries.len()
        invariant
            i <= entries.len(),
            m == nested_view(entries@),
            m.len() == entries@.len(),
            forall|a: int, b: int| 0 <= a < b < entries@.len() && a < i ==> m[a].0 != m[b].0,
            forall|a: int| 0 <= a < i ==> keys_unique(m[a].1),
        decreases entries.len() - i,
    {
        proof {
            assert(m[i as int] == (entries@[i as int].0@, pairs_view(entries@[i as int].1@)));
        }
        if !keys_unique_exec(&entries[i].1) {
            return false;
        }
        let mut j: usize = i + 1;
        while j < entries.len()
            invariant
                i < j <= entries.len(),
                i < entries.len(),
                m == nested_view(entries@),
                m.len() == entries@.len(),
                forall|b: int| i < b < j ==> m[i as int].0 != m[b].0,
            decreases entries.len() - j,
        {
            proof {
                assert(m[i as int] == (entries@[i as int].0@, pairs_view(entries@[i as int].1@)));
                assert(m[j as int] == (entries@[j as int].0@, pairs_view(entries@[j as int].1@)));
            }
            if entries[i].0 == entries[j].0 {
                return false;
            }
            j += 1;
        }
        i += 1;
    }
    true
}

// ---------------------------------------------------------------------------
// The executable parser
// ---------------------------------------------------------------------------

enum Token {
    LBrace,
    RBrace,
    Colon,
    Comma,
    Str(String),
}

spec fn token_view(t: Token) -> JsonToken {
    match t {
        Token::LBrace => JsonToken::LBrace,
        Token::RBrace => JsonToken::RBrace,
        Token::Colon => JsonToken::Colon,
        Token::Comma => JsonToken::Comma,
        Token::Str(s) => JsonToken::Str(s@),
    }
}

spec fn tokens_view(ts: Seq<Token>) -> Seq<JsonToken> {
    ts.map_values(|t: Token| token_view(t))
}

fn hex_val_exec(c: char) -> (r: i8)
    ensures
        r as int == hex_val(c),
{
    if c == '0' { 0 }
    else if c == '1' { 1 }
    else if c == '2' { 2 }
    else if c == '3' { 3 }
    else if c == '4' { 4 }
    else if c == '5' { 5 }
    else if c == '6' { 6 }
    else if c == '7' { 7 }
    else if c == '8' { 8 }
    else if c == '9' { 9 }
    else if c == 'a' || c == 'A' { 10 }
    else if c == 'b' || c == 'B' { 11 }
    else if c == 'c' || c == 'C' { 12 }
    else if c == 'd' || c == 'D' { 13 }
    else if c == 'e' || c == 'E' { 14 }
    else if c == 'f' || c == 'F' { 15 }
    else { -1 }
}

fn unescape_exec<'a>(s: &'a str) -> (r: Option<(String, &'a str)>)
    ensures
        match r {
            None => unescape(s@) is None,
            Some(p) => unescape(s@) == Some((p.0@, p.1@)),
        },
    decreases s@.len(),
{
    let n = s.unicode_len();
    if n == 0 {
        return None;
    }
    let c0 = s.get_char(0);
    if c0 == '"' {
        let rest = s.substring_char(1, n);
        let empty = String::new();
        proof {
            assert(rest@ =~= s@.drop_first());
            assert(empty@ =~= Seq::<char>::empty());
        }
        return Some((empty, rest));
    }
    let mut dc: char = ' ';
    let mut k: usize = 1;
    if c0 == '\\' {
        if n < 2 {
            return None;
        }
        let e = s.get_char(1);
        if e == '"' || e == '\\' || e == '/' {
            dc = e;
            k = 2;
        } else if e == 'n' {
            dc = '\n';
            k = 2;
        } else if e == 't' {
            dc = '\t';
            k = 2;
        } else if e == 'r' {
            dc = '\r';
            k = 2;
        } else if e == 'b' {
            dc = '\u{8}';
            k = 2;
        } else if e == 'f' {
            dc = '\u{c}';
            k = 2;
        } else if e == 'u' {
            if n < 6 {
                return None;
            }
            let h2 = hex_val_exec(s.get_char(2));
            let h3 = hex_val_exec(s.get_char(3));
            let h4 = hex_val_exec(s.get_char(4));
            let h5 = hex_val_exec(s.get_char(5));
            if h2 < 0 || h3 < 0 || h4 < 0 || h5 < 0 {
                return None;
            }
            let v: u32 = 4096 * (h2 as u32) + 256 * (h3 as u32) + 16 * (h4 as u32) + (h5 as u32);
            proof {
                assert(v as int == 4096 * hex_val(s@[2]) + 256 * hex_val(s@[3]) + 16 * hex_val(
                    s@[4],
                ) + hex_val(s@[5]));
            }
            if 0xD800 <= v && v < 0xE000 {
                return None;
            }
            match char_from_u32(v) {
                None => {
                    proof {
                        assert(v <= 0xFFFF);
                        assert(false);
                    }
                    return None;
                },
                Some(c) => {
                    dc = c;
                    k = 6;
                    proof {
                        vstd::utf8::char_u32_cast(dc, v);
                        assert(dc == (((v as int) as u32) as char));
                    }
                },
            }
        } else {
            return None;
        }
    } else {
        dc = c0;
        k = 1;
    }
    proof {
        assert(s@.skip(1) =~= s@.drop_first());
        assert(unescape(s@) == unescape_cons(dc, unescape(s@.skip(k as int))));
    }
    let tail = s.substring_char(k, n);
    proof {
        assert(tail@ =~= s@.skip(k as int));
    }
    match unescape_exec(tail) {
        None => None,
        Some((content, rest)) => {
            let mut out = String::new();
            push_char(&mut out, dc);
            out.append(content.as_str());
            proof {
                assert(out@ =~= seq![dc] + content@);
            }
            Some((out, rest))
        },
    }
}

fn lex_exec(s: &str) -> (r: Option<Vec<Token>>)
    ensures
        match r {
            None => lex(s@) is None,
            Some(ts) => lex(s@) == Some(tokens_view(ts@)),
        },
    decreases s@.len(),
{
    let n = s.unicode_len();
    if n == 0 {
        let ts: Vec<Token> = Vec::new();
        proof {
            assert(tokens_view(ts@) =~= Seq::<JsonToken>::empty());
        }
        return Some(ts);
    }
    let c0 = s.get_char(0);
    if c0 == ' ' || c0 == '\t' || c0 == '\n' || c0 == '\r' {
        let rest = s.substring_char(1, n);
        proof {
            assert(rest@ =~= s@.drop_first());
        }
        return lex_exec(rest);
    }
    if c0 == '{' || c0 == '}' || c0 == ':' || c0 == ',' {
        let rest = s.substring_char(1, n);
        proof {
            assert(rest@ =~= s@.drop_first());
        }
        let tok = if c0 == '{' { Token::LBrace }
            else if c0 == '}' { Token::RBrace }
            else if c0 == ':' { Token::Colon }
            else { Token::Comma };
        match lex_exec(rest) {
            None => {
                return None;
            },
            Some(mut ts) => {
                let ghost prev = ts@;
                ts.insert(0, tok);
                proof {
                    assert(tokens_view(ts@) =~= seq![token_view(tok)] + tokens_view(prev));
                }
                return Some(ts);
            },
        }
    }
    if c0 == '"' {
        let after = s.substring_char(1, n);
        proof {
            assert(after@ =~= s@.drop_first());
        }
        match unescape_exec(after) {
            None => {
                return None;
            },
            Some((content, rest)) => {
                proof {
                    lemma_unescape_shrinks(after@);
                }
                match lex_exec(rest) {
                    None => {
                        return None;
                    },
                    Some(mut ts) => {
                        let ghost prev = ts@;
                        let ghost cv = content@;
                        ts.insert(0, Token::Str(content));
                        proof {
                            assert(tokens_view(ts@) =~= seq![JsonToken::Str(cv)] + tokens_view(prev));
                        }
                        return Some(ts);
                    },
                }
            },
        }
    }
    None
}

fn parse_members_exec(toks: &Vec<Token>, i: usize) -> (r: Option<Vec<(String, String)>>)
    requires
        i <= toks.len(),
    ensures
        match r {
            None => parse_members(tokens_view(toks@).skip(i as int)) is None,
            Some(es) => parse_members(tokens_view(toks@).skip(i as int)) == Some(pairs_view(es@)),
        },
    decreases toks.len() - i,
{
    let ghost m = tokens_view(toks@).skip(i as int);
    proof {
        assert forall|j: int| 0 <= j < m.len() implies m[j] == token_view(toks@[i + j]) by {
            assert(m[j] == tokens_view(toks@)[i + j]);
        }
    }
    if toks.len() - i < 4 {
        return None;
    }
    let k: String = match &toks[i] {
        Token::Str(kk) => kk.clone(),
        _ => {
            return None;
        },
    };
    match &toks[i + 1] {
        Token::Colon => {},
        _ => {
            return None;
        },
    }
    let v: String = match &toks[i + 2] {
        Token::Str(vv) => vv.clone(),
        _ => {
            return None;
        },
    };
    match &toks[i + 3] {
        Token::RBrace => {
            if i + 4 != toks.len() {
                return None;
            }
            let mut out: Vec<(String, String)> = Vec::new();
            out.push((k, v));
            proof {
                assert(pairs_view(out@) =~= seq![(m[0]->Str_0, m[2]->Str_0)]);
            }
            Some(out)
        },
        Token::Comma => {
            match parse_members_exec(toks, i + 4) {
                None => {
                    proof {
                        assert(m.skip(4) =~= tokens_view(toks@).skip(i + 4));
                    }
                    None
                },
                Some(mut es) => {
                    let ghost prev = es@;
                    es.insert(0, (k, v));
                    proof {
                        assert(m.skip(4) =~= tokens_view(toks@).skip(i + 4));
                        assert(pairs_view(es@) =~= seq![(m[0]->Str_0, m[2]->Str_0)] + pairs_view(prev));
                    }
                    Some(es)
                },
            }
        },
        _ => {
            return None;
        },
    }
}

fn parse_object_exec(toks: &Vec<Token>) -> (r: Option<Vec<(String, String)>>)
    ensures
        match r {
            None => parse_object_tokens(tokens_view(toks@)) is None,
            Some(es) => parse_object_tokens(tokens_view(toks@)) == Some(pairs_view(es@)),
        },
{
    let ghost m = tokens_view(toks@);
    proof {
        assert forall|j: int| 0 <= j < m.len() implies m[j] == token_view(toks@[j]) by {
            assert(m[j] == tokens_view(toks@)[j]);
        }
    }
    if toks.len() < 2 {
        return None;
    }
    match &toks[0] {
        Token::LBrace => {},
        _ => {
            return None;
        },
    }
    let rbrace_now = match &toks[1] {
        Token::RBrace => true,
        _ => false,
    };
    if toks.len() == 2 && rbrace_now {
        let out: Vec<(String, String)> = Vec::new();
        proof {
            assert(pairs_view(out@) =~= Seq::<(Seq<char>, Seq<char>)>::empty());
        }
        return Some(out);
    }
    proof {
        assert(m.drop_first() =~= m.skip(1));
    }
    parse_members_exec(toks, 1)
}

/// Parses text as one flat JSON object whose members are all strings: the
/// entries in the order written, or `None` on anything else.
pub fn parse_flat_json(s: &str) -> (r: Option<Vec<(String, String)>>)
    ensures
        match r {
            None => parse_flat_object(s@) is None,
            Some(es) => parse_flat_object(s@) == Some(pairs_view(es@)),
        },
{
    match lex_exec(s) {
        None => None,
        Some(toks) => parse_object_exec(&toks),
    }
}

fn lookup_from(entries: &Vec<(String, String)>, i: usize, key: &String) -> (r: Option<String>)
    requires
        i <= entries.len(),
    ensures
        match r {
            None => lookup(pairs_view(entries@).skip(i as int), key@) is None,
            Some(v) => lookup(pairs_view(entries@).skip(i as int), key@) == Some(v@),
        },
    decreases entries.len() - i,
{
    let ghost m = pairs_view(entries@).skip(i as int);
    if i == entries.len() {
        proof {
            assert(m =~= Seq::<(Seq<char>, Seq<char>)>::empty());
        }
        return None;
    }
    proof {
        assert(m[0] == pairs_view(entries@)[i as int]);
        assert(m.drop_first() =~= pairs_view(entries@).skip(i + 1));
    }
    if entries[i].0 == *key {
        Some(entries[i].1.clone())
    } else {
        lookup_from(entries, i + 1, key)
    }
}

/// The first value stored under `key` in a parsed object, if any.
pub fn lookup_value(entries: &Vec<(String, String)>, key: &str) -> (r: Option<String>)
    ensures
        match r {
            None => lookup(pairs_view(entries@), key@) is None,
            Some(v) => lookup(pairs_view(entries@), key@) == Some(v@),
        },
{
    let k = String::from_str(key);
    let r = lookup_from(entries, 0, &k);
    proof {
        assert(pairs_view(entries@).skip(0) =~= pairs_view(entries@));
    }
    r
}

} // verus!
