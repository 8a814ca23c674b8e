//! The JSON form in which plans, manifests and model replies travel.
//!
//! The emitter writes compact JSON, escaping control characters; the
//! parser tolerates whitespace between tokens and reads the short
//! backslash escapes as well as `\uXXXX` escapes of the basic plane.
//! Numbers are not part of the documents this library reads, so the
//! parser has no number form; the manifest's ids are emitted by a
//! dedicated digit writer.

use vstd::prelude::*;

verus! {

/// A JSON document as a mathematical value.
pub enum JsonV {
    Null,
    Bool { b: bool },
    Text { s: Seq<char> },
    Arr { items: Seq<JsonV> },
    Obj { fields: Seq<(Seq<char>, JsonV)> },
}

/// One key/value pair of an executable JSON object.
pub struct JField {
    pub key: Vec<char>,
    pub value: Json,
}

/// An executable JSON document.
pub enum Json {
    Null,
    Bool { b: bool },
    Text { s: Vec<char> },
    Arr { items: Vec<Json> },
    Obj { fields: Vec<JField> },
}

/// The mathematical value of an executable document.
pub open spec fn jview(j: Json) -> JsonV
    decreases j,
{
    match j {
        Json::Null => JsonV::Null,
        Json::Bool { b } => JsonV::Bool { b },
        Json::Text { s } => JsonV::Text { s: s@ },
        Json::Arr { items } => JsonV::Arr { items: jview_items(items, 0) },
        Json::Obj { fields } => JsonV::Obj { fields: jview_fields(fields, 0) },
    }
}

/// The values of an item vector from index `i` on.
pub open spec fn jview_items(v: Vec<Json>, i: int) -> Seq<JsonV>
    decreases v, v@.len() - i,
{
    if i < 0 || i >= v@.len() {
        Seq::<JsonV>::empty()
    } else {
        seq![jview(v@[i])] + jview_items(v, i + 1)
    }
}

/// The values of a field vector from index `i` on.
pub open spec fn jview_fields(v: Vec<JField>, i: int) -> Seq<(Seq<char>, JsonV)>
    decreases v, v@.len() - i,
{
    if i < 0 || i >= v@.len() {
        Seq::<(Seq<char>, JsonV)>::empty()
    } else {
        seq![(v@[i].key@, jview(v@[i].value))] + jview_fields(v, i + 1)
    }
}

/// The lowercase hex digit character for a value below 16.
pub open spec fn hex_digit_char(d: int) -> char {
    if d == 0 { '0' } else if d == 1 { '1' } else if d == 2 { '2' } else if d == 3 { '3' }
    else if d == 4 { '4' } else if d == 5 { '5' } else if d == 6 { '6' } else if d == 7 { '7' }
    else if d == 8 { '8' } else if d == 9 { '9' } else if d == 10 { 'a' } else if d == 11 { 'b' }
    else if d == 12 { 'c' } else if d == 13 { 'd' } else if d == 14 { 'e' } else { 'f' }
}

/// The value of a hex digit character; -1 where it is none.
pub open spec fn hex_val(c: char) -> int {
    if 48 <= c as u32 && c as u32 <= 57 {
        c as u32 - 48
    } else if 97 <= c as u32 && c as u32 <= 102 {
        c as u32 - 87
    } else if 65 <= c as u32 && c as u32 <= 70 {
        c as u32 - 55
    } else {
        -1
    }
}

/// How one character is written inside a JSON string: the short
/// backslash escapes, a `\\u00XX` escape for the other control
/// characters, and everything else as itself.
pub open spec fn spec_esc_char(c: char) -> Seq<char> {
    if c == '"' {
        seq!['\\', '"']
    } else if c == '\\' {
        seq!['\\', '\\']
    } else if c == '\n' {
        seq!['\\', 'n']
    } else if c == '\r' {
        seq!['\\', 'r']
    } else if c == '\t' {
        seq!['\\', 't']
    } else if (c as u32) < 32 {
        seq!['\\', 'u', '0', '0', hex_digit_char((c as u32) as int / 16), hex_digit_char(
            (c as u32) as int % 16,
        )]
    } else {
        seq![c]
    }
}

/// A string's characters, escaped.
pub open spec fn spec_esc(s: Seq<char>) -> Seq<char>
    decreases s.len(),
{
    if s.len() == 0 {
        Seq::<char>::empty()
    } else {
        spec_esc_char(s[0]) + spec_esc(s.drop_first())
    }
}

/// A quoted, escaped JSON string.
pub open spec fn spec_emit_text(s: Seq<char>) -> Seq<char> {
    seq!['"'] + spec_esc(s) + seq!['"']
}

/// The compact text of a document.
pub open spec fn spec_emit(j: JsonV) -> Seq<char>
    decreases j,
{
    match j {
        JsonV::Null => seq!['n', 'u', 'l', 'l'],
        JsonV::Bool { b } => if b {
            seq!['t', 'r', 'u', 'e']
        } else {
            seq!['f', 'a', 'l', 's', 'e']
        },
        JsonV::Text { s } => spec_emit_text(s),
        JsonV::Arr { items } => seq!['['] + spec_emit_items(items) + seq![']'],
        JsonV::Obj { fields } => seq!['{'] + spec_emit_fields(fields) + seq!['}'],
    }
}

/// Array items, comma-separated.
pub open spec fn spec_emit_items(items: Seq<JsonV>) -> Seq<char>
    decreases items,
{
    if items.len() == 0 {
        Seq::<char>::empty()
    } else if items.len() == 1 {
        spec_emit(items[0])
    } else {
        spec_emit(items[0]) + seq![','] + spec_emit_items(items.drop_first())
    }
}

/// Object fields, comma-separated `"key":value` pairs.
pub open spec fn spec_emit_fields(fields: Seq<(Seq<char>, JsonV)>) -> Seq<char>
    decreases fields,
{
    if fields.len() == 0 {
        Seq::<char>::empty()
    } else {
        let one = spec_emit_text(fields[0].0) + seq![':'] + spec_emit(fields[0].1);
        if fields.len() == 1 {
            one
        } else {
            one + seq![','] + spec_emit_fields(fields.drop_first())
        }
    }
}

/// Append the escaped form of one character.
fn push_esc_char(out: &mut Vec<char>, c: char)
    ensures
        final(out)@ == old(out)@ + spec_esc_char(c),
{
    if c == '"' {
        out.push('\\');
        out.push('"');
    } else if c == '\\' {
        out.push('\\');
        out.push('\\');
    } else if c == '\n' {
        out.push('\\');
        out.push('n');
    } else if c == '\r' {
        out.push('\\');
        out.push('r');
    } else if c == '\t' {
        out.push('\\');
        out.push('t');
    } else if (c as u32) < 32 {
        let code: u32 = c as u32;
        out.push('\\');
        out.push('u');
        out.push('0');
        out.push('0');
        out.push(hex_char_of(code / 16));
        out.push(hex_char_of(code % 16));
    } else {
        out.push(c);
    }
    proof {
        assert(final(out)@ =~= old(out)@ + spec_esc_char(c));
    }
}

/// The lowercase hex digit for a value below 16.
fn hex_char_of(d: u32) -> (r: char)
    requires
        d < 16,
    ensures
        r == hex_digit_char(d as int),
{
    if d == 0 { '0' } else if d == 1 { '1' } else if d == 2 { '2' } else if d == 3 { '3' }
    else if d == 4 { '4' } else if d == 5 { '5' } else if d == 6 { '6' } else if d == 7 { '7' }
    else if d == 8 { '8' } else if d == 9 { '9' } else if d == 10 { 'a' } else if d == 11 { 'b' }
    else if d == 12 { 'c' } else if d == 13 { 'd' } else if d == 14 { 'e' } else { 'f' }
}

/// The value of a hex digit character.
fn hex_digit_val(c: char) -> (r: Option<u32>)
    ensures
        match r {
            Some(v) => hex_val(c) == v && v < 16,
            None => hex_val(c) == -1,
        },
{
    let n: u32 = c as u32;
    if 48 <= n && n <= 57 {
        Some(n - 48)
    } else if 97 <= n && n <= 102 {
        Some(n - 87)
    } else if 65 <= n && n <= 70 {
        Some(n - 55)
    } else {
        None
    }
}

/// Append one quoted, escaped string.
pub fn push_text_pub(out: &mut Vec<char>, s: &Vec<char>)
    ensures
        final(out)@ == old(out)@ + spec_emit_text(s@),
{
    out.push('"');
    let n = s.len();
    let mut i: usize = 0;
    while i < n
        invariant
            i <= n,
            n == s@.len(),
            out@ == old(out)@ + seq!['"'] + spec_esc(s@.take(i as int)),
        decreases n - i,
    {
        push_esc_char(out, s[i]);
        i = i + 1;
        proof {
            lemma_esc_snoc(s@.take(i as int - 1), s@[i as int - 1]);
            assert(s@.take(i as int).drop_last() =~= s@.take(i as int - 1));
            assert(s@.take(i as int) =~= s@.take(i as int - 1).push(s@[i as int - 1]));
        }
    }
    out.push('"');
    proof {
        assert(s@.take(n as int) =~= s@);
        assert(out@ =~= old(out)@ + spec_emit_text(s@));
    }
}

/// Escaping a string one character longer appends that character's
/// escape.
proof fn lemma_esc_snoc(s: Seq<char>, c: char)
    ensures
        spec_esc(s.push(c)) == spec_esc(s) + spec_esc_char(c),
    decreases s.len(),
{
    let whole = s.push(c);
    if s.len() == 0 {
        assert(whole.drop_first() =~= Seq::<char>::empty());
        assert(spec_esc(Seq::<char>::empty()) == Seq::<char>::empty());
        assert(whole[0] == c);
        assert(spec_esc(whole) == spec_esc_char(c) + Seq::<char>::empty());
        assert(spec_esc(whole) =~= spec_esc(s) + spec_esc_char(c));
    } else {
        assert(whole.drop_first() =~= s.drop_first().push(c));
        lemma_esc_snoc(s.drop_first(), c);
        assert(whole[0] == s[0]);
        assert(spec_esc(whole) == spec_esc_char(whole[0]) + spec_esc(whole.drop_first()));
        assert(spec_esc(whole) == spec_esc_char(s[0]) + (spec_esc(s.drop_first())
            + spec_esc_char(c)));
        assert(spec_esc(s) == spec_esc_char(s[0]) + spec_esc(s.drop_first()));
        assert(spec_esc_char(s[0]) + (spec_esc(s.drop_first()) + spec_esc_char(c)) =~= (
        spec_esc_char(s[0]) + spec_esc(s.drop_first())) + spec_esc_char(c));
    }
}

/// Append the compact text of a document.
pub fn emit_into(j: &Json, out: &mut Vec<char>)
    ensures
        final(out)@ == old(out)@ + spec_emit(jview(*j)),
    decreases *j,
{
    match j {
        Json::Null => {
            out.push('n');
            out.push('u');
            out.push('l');
            out.push('l');
            proof {
                assert(out@ =~= old(out)@ + spec_emit(jview(*j)));
            }
        }
        Json::Bool { b } => {
            if *b {
                out.push('t');
                out.push('r');
                out.push('u');
                out.push('e');
            } else {
                out.push('f');
                out.push('a');
                out.push('l');
                out.push('s');
                out.push('e');
            }
            proof {
                assert(out@ =~= old(out)@ + spec_emit(jview(*j)));
            }
        }
        Json::Text { s } => {
            push_text_pub(out, s);
        }
        Json::Arr { items } => {
            out.push('[');
            if items.len() > 0 {
                emit_items_into(items, 0, out);
            }
            out.push(']');
            proof {
                assert(jview_items(*items, 0).len() == 0 ==> spec_emit_items(
                    jview_items(*items, 0),
                ) =~= Seq::<char>::empty());
                assert(out@ =~= old(out)@ + spec_emit(jview(*j)));
            }
        }
        Json::Obj { fields } => {
            out.push('{');
            if fields.len() > 0 {
                emit_fields_into(fields, 0, out);
            }
            out.push('}');
            proof {
                assert(jview_fields(*fields, 0).len() == 0 ==> spec_emit_fields(
                    jview_fields(*fields, 0),
                ) =~= Seq::<char>::empty());
                assert(out@ =~= old(out)@ + spec_emit(jview(*j)));
            }
        }
    }
}

/// The item values from `i` on are as many as remain in the vector.
proof fn lemma_jview_items_len(v: Vec<Json>, i: int)
    requires
        0 <= i <= v@.len(),
    ensures
        jview_items(v, i).len() == v@.len() - i,
    decreases v@.len() - i,
{
    if i < v@.len() {
        lemma_jview_items_len(v, i + 1);
    }
}

/// The field values from `i` on are as many as remain in the vector.
pub proof fn lemma_jview_fields_len(v: Vec<JField>, i: int)
    requires
        0 <= i <= v@.len(),
    ensures
        jview_fields(v, i).len() == v@.len() - i,
    decreases v@.len() - i,
{
    if i < v@.len() {
        lemma_jview_fields_len(v, i + 1);
    }
}

/// Append the items from `i` on, comma-separated.
fn emit_items_into(items: &Vec<Json>, i: usize, out: &mut Vec<char>)
    requires
        i < items@.len(),
    ensures
        final(out)@ == old(out)@ + spec_emit_items(jview_items(*items, i as int)),
    decreases *items, items@.len() - i,
{
    proof {
        lemma_jview_items_len(*items, i as int);
        lemma_jview_items_len(*items, i as int + 1);
    }
    let ghost suffix = jview_items(*items, i as int);
    emit_into(&items[i], out);
    if i < items.len() - 1 {
        out.push(',');
        emit_items_into(items, i + 1, out);
        proof {
            assert(suffix[0] == jview(items@[i as int]));
            assert(suffix.drop_first() =~= jview_items(*items, i as int + 1));
            assert(out@ =~= old(out)@ + spec_emit_items(suffix));
        }
    } else {
        proof {
            assert(suffix.len() == 1);
            assert(suffix[0] == jview(items@[i as int]));
            assert(out@ =~= old(out)@ + spec_emit_items(suffix));
        }
    }
}

/// Append the fields from `i` on, comma-separated.
fn emit_fields_into(fields: &Vec<JField>, i: usize, out: &mut Vec<char>)
    requires
        i < fields@.len(),
    ensures
        final(out)@ == old(out)@ + spec_emit_fields(jview_fields(*fields, i as int)),
    decreases *fields, fields@.len() - i,
{
    proof {
        lemma_jview_fields_len(*fields, i as int);
        lemma_jview_fields_len(*fields, i as int + 1);
    }
    let ghost suffix = jview_fields(*fields, i as int);
    push_text_pub(out, &fields[i].key);
    out.push(':');
    emit_into(&fields[i].value, out);
    if i < fields.len() - 1 {
        out.push(',');
        emit_fields_into(fields, i + 1, out);
        proof {
            assert(suffix[0] == (fields@[i as int].key@, jview(fields@[i as int].value)));
            assert(suffix.drop_first() =~= jview_fields(*fields, i as int + 1));
            assert(out@ =~= old(out)@ + spec_emit_fields(suffix));
        }
    } else {
        proof {
            assert(suffix.len() == 1);
            assert(suffix[0] == (fields@[i as int].key@, jview(fields@[i as int].value)));
            assert(out@ =~= old(out)@ + spec_emit_fields(suffix));
        }
    }
}

/// The compact text of one document.
pub fn emit_json(j: &Json) -> (r: Vec<char>)
    ensures
        r@ == spec_emit(jview(*j)),
{
    let mut out: Vec<char> = Vec::new();
    emit_into(j, &mut out);
    out
}

} // verus!

verus! {

/// JSON whitespace.
pub open spec fn is_ws(c: char) -> bool {
    c == ' ' || c == '\n' || c == '\r' || c == '\t'
}

/// The input with leading whitespace dropped.
pub open spec fn sp_ws(s: Seq<char>) -> Seq<char>
    decreases s.len(),
{
    if s.len() > 0 && is_ws(s[0]) {
        sp_ws(s.drop_first())
    } else {
        s
    }
}

/// Dropping whitespace never lengthens the input.
pub proof fn lemma_sp_ws_len(s: Seq<char>)
    ensures
        sp_ws(s).len() <= s.len(),
    decreases s.len(),
{
    if s.len() > 0 && is_ws(s[0]) {
        lemma_sp_ws_len(s.drop_first());
    }
}

/// What a backslash escape code stands for.
pub open spec fn sp_unesc_char(c: char) -> Option<char> {
    if c == '"' {
        Some('"')
    } else if c == '\\' {
        Some('\\')
    } else if c == '/' {
        Some('/')
    } else if c == 'n' {
        Some('\n')
    } else if c == 'r' {
        Some('\r')
    } else if c == 't' {
        Some('\t')
    } else if c == 'b' {
        Some('\u{0008}')
    } else if c == 'f' {
        Some('\u{000C}')
    } else {
        None
    }
}

/// A string body up to and including its closing quote: the text it
/// holds, and the input that follows the quote.
pub open spec fn sp_text_body(s: Seq<char>) -> Option<(Seq<char>, Seq<char>)>
    decreases s.len(),
{
    if s.len() == 0 {
        None
    } else if s[0] == '"' {
        Some((Seq::<char>::empty(), s.drop_first()))
    } else if s[0] == '\\' {
        if s.len() < 2 {
            None
        } else if s[1] == 'u' {
            if s.len() >= 6 && hex_val(s[2]) >= 0 && hex_val(s[3]) >= 0 && hex_val(s[4]) >= 0
                && hex_val(s[5]) >= 0 {
                let v = hex_val(s[2]) * 4096 + hex_val(s[3]) * 256 + hex_val(s[4]) * 16 + hex_val(
                    s[5],
                );
                if v < 0xD800 || v >= 0xE000 {
                    match sp_text_body(s.skip(6)) {
                        Some(p) => Some((seq![(v as u32) as char] + p.0, p.1)),
                        None => None,
                    }
                } else {
                    None
                }
            } else {
                None
            }
        } else {
            match sp_unesc_char(s[1]) {
                Some(c) => match sp_text_body(s.skip(2)) {
                    Some(p) => Some((seq![c] + p.0, p.1)),
                    None => None,
                },
                None => None,
            }
        }
    } else {
        match sp_text_body(s.drop_first()) {
            Some(p) => Some((seq![s[0]] + p.0, p.1)),
            None => None,
        }
    }
}

/// One JSON value and the input that follows it. The guards that
/// compare lengths hold on every input that reaches them; they make
/// the recursion visibly bounded.
pub open spec fn sp_value(s: Seq<char>) -> Option<(JsonV, Seq<char>)>
    decreases s.len(), 1int,
{
    let t = sp_ws(s);
    if t.len() == 0 || t.len() > s.len() {
        None
    } else if t[0] == '"' {
        match sp_text_body(t.drop_first()) {
            Some(p) => Some((JsonV::Text { s: p.0 }, p.1)),
            None => None,
        }
    } else if t[0] == '[' {
        let u = sp_ws(t.drop_first());
        if u.len() == 0 {
            None
        } else if u[0] == ']' {
            Some((JsonV::Arr { items: Seq::<JsonV>::empty() }, u.drop_first()))
        } else if u.len() < s.len() {
            match sp_items(u) {
                Some(p) => Some((JsonV::Arr { items: p.0 }, p.1)),
                None => None,
            }
        } else {
            None
        }
    } else if t[0] == '{' {
        let u = sp_ws(t.drop_first());
        if u.len() == 0 {
            None
        } else if u[0] == '}' {
            Some((JsonV::Obj { fields: Seq::<(Seq<char>, JsonV)>::empty() }, u.drop_first()))
        } else if u.len() < s.len() {
            match sp_fields(u) {
                Some(p) => Some((JsonV::Obj { fields: p.0 }, p.1)),
                None => None,
            }
        } else {
            None
        }
    } else if t.len() >= 4 && t[0] == 'n' && t[1] == 'u' && t[2] == 'l' && t[3] == 'l' {
        Some((JsonV::Null, t.skip(4)))
    } else if t.len() >= 4 && t[0] == 't' && t[1] == 'r' && t[2] == 'u' && t[3] == 'e' {
        Some((JsonV::Bool { b: true }, t.skip(4)))
    } else if t.len() >= 5 && t[0] == 'f' && t[1] == 'a' && t[2] == 'l' && t[3] == 's' && t[4]
        == 'e' {
        Some((JsonV::Bool { b: false }, t.skip(5)))
    } else {
        None
    }
}

/// One or more array items and the `]` that closes them.
pub open spec fn sp_items(s: Seq<char>) -> Option<(Seq<JsonV>, Seq<char>)>
    decreases s.len(), 2int,
{
    match sp_value(s) {
        Some(p) => {
            let t = sp_ws(p.1);
            if t.len() == 0 {
                None
            } else if t[0] == ',' {
                if t.drop_first().len() < s.len() {
                    match sp_items(t.drop_first()) {
                        Some(q) => Some((seq![p.0] + q.0, q.1)),
                        None => None,
                    }
                } else {
                    None
                }
            } else if t[0] == ']' {
                Some((seq![p.0], t.drop_first()))
            } else {
                None
            }
        }
        None => None,
    }
}

/// One or more `"key":value` fields and the `}` that closes them.
pub open spec fn sp_fields(s: Seq<char>) -> Option<(Seq<(Seq<char>, JsonV)>, Seq<char>)>
    decreases s.len(), 2int,
{
    let t = sp_ws(s);
    if t.len() == 0 || t.len() > s.len() {
        None
    } else if t[0] == '"' {
        match sp_text_body(t.drop_first()) {
            Some(k) => {
                let u = sp_ws(k.1);
                if u.len() > 0 && u[0] == ':' && u.drop_first().len() < s.len() {
                    match sp_value(u.drop_first()) {
                        Some(v) => {
                            let w = sp_ws(v.1);
                            if w.len() == 0 {
                                None
                            } else if w[0] == ',' {
                                if w.drop_first().len() < s.len() {
                                    match sp_fields(w.drop_first()) {
                                        Some(q) => Some((seq![(k.0, v.0)] + q.0, q.1)),
                                        None => None,
                                    }
                                } else {
                                    None
                                }
                            } else if w[0] == '}' {
                                Some((seq![(k.0, v.0)], w.drop_first()))
                            } else {
                                None
                            }
                        }
                        None => None,
                    }
                } else {
                    None
                }
            }
            None => None,
        }
    } else {
        None
    }
}

/// A whole document: one value with nothing but whitespace after it.
pub open spec fn sp_document(s: Seq<char>) -> Option<JsonV> {
    match sp_value(s) {
        Some(p) => if sp_ws(p.1).len() == 0 {
            Some(p.0)
        } else {
            None
        },
        None => None,
    }
}

} // verus!

verus! {

/// Executable whitespace test.
fn is_ws_char(c: char) -> (r: bool)
    ensures
        r == is_ws(c),
{
    c == ' ' || c == '\n' || c == '\r' || c == '\t'
}

/// Move past leading whitespace.
fn skip_ws(s: &Vec<char>, pos: usize) -> (p: usize)
    requires
        pos <= s@.len(),
    ensures
        pos <= p <= s@.len(),
        s@.skip(p as int) == sp_ws(s@.skip(pos as int)),
{
    let mut p = pos;
    while p < s.len() && is_ws_char(s[p])
        invariant
            pos <= p <= s@.len(),
            sp_ws(s@.skip(p as int)) == sp_ws(s@.skip(pos as int)),
        decreases s@.len() - p,
    {
        proof {
            let cur = s@.skip(p as int);
            assert(cur[0] == s@[p as int]);
            assert(cur.drop_first() =~= s@.skip(p as int + 1));
        }
        p = p + 1;
    }
    proof {
        let cur = s@.skip(p as int);
        if p < s@.len() {
            assert(cur[0] == s@[p as int]);
            assert(!is_ws(cur[0]));
        }
        assert(sp_ws(cur) == cur);
    }
    p
}

/// Executable escape-code decoding.
fn unescape_char(c: char) -> (r: Option<char>)
    ensures
        r == sp_unesc_char(c),
{
    if c == '"' {
        Some('"')
    } else if c == '\\' {
        Some('\\')
    } else if c == '/' {
        Some('/')
    } else if c == 'n' {
        Some('\n')
    } else if c == 'r' {
        Some('\r')
    } else if c == 't' {
        Some('\t')
    } else if c == 'b' {
        Some('\u{0008}')
    } else if c == 'f' {
        Some('\u{000C}')
    } else {
        None
    }
}

/// Parse a string body up to and including its closing quote.
fn parse_text_body(s: &Vec<char>, pos: usize) -> (r: Option<(Vec<char>, usize)>)
    requires
        pos <= s@.len(),
    ensures
        match r {
            Some(p) => pos <= p.1 <= s@.len() && sp_text_body(s@.skip(pos as int)) == Some(
                (p.0@, s@.skip(p.1 as int)),
            ),
            None => sp_text_body(s@.skip(pos as int)) is None,
        },
    decreases s@.len() - pos,
{
    let ghost spos = s@.skip(pos as int);
    if pos == s.len() {
        return None;
    }
    let c = s[pos];
    proof {
        assert(spos[0] == c);
        assert(spos.drop_first() =~= s@.skip(pos as int + 1));
    }
    if c == '"' {
        Some((Vec::new(), pos + 1))
    } else if c == '\\' {
        if s.len() - pos < 2 {
            return None;
        }
        proof {
            assert(spos[1] == s@[pos as int + 1]);
        }
        let e = s[pos + 1];
        if e == 'u' {
            if s.len() - pos < 6 {
                return None;
            }
            proof {
                assert(spos[2] == s@[pos as int + 2]);
                assert(spos[3] == s@[pos as int + 3]);
                assert(spos[4] == s@[pos as int + 4]);
                assert(spos[5] == s@[pos as int + 5]);
                assert(spos.skip(6) =~= s@.skip(pos as int + 6));
            }
            match (
                hex_digit_val(s[pos + 2]),
                hex_digit_val(s[pos + 3]),
                hex_digit_val(s[pos + 4]),
                hex_digit_val(s[pos + 5]),
            ) {
                (Some(h3), Some(h2), Some(h1), Some(h0)) => {
                    let v: u32 = h3 * 4096 + h2 * 256 + h1 * 16 + h0;
                    if v < 0xD800 || v >= 0xE000 {
                        match crate::strutil::char_from_u32(v) {
                            Some(u) => {
                                proof {
                                    vstd::utf8::char_u32_cast(u, v);
                                }
                                match parse_text_body(s, pos + 6) {
                                    Some(p) => {
                                        let (mut t, p2) = p;
                                        t.insert(0, u);
                                        proof {
                                            assert(t@ =~= seq![u] + t@.skip(1));
                                        }
                                        Some((t, p2))
                                    }
                                    None => None,
                                }
                            }
                            None => {
                                proof {
                                    assert(false);
                                }
                                None
                            }
                        }
                    } else {
                        None
                    }
                }
                _ => None,
            }
        } else {
            proof {
                assert(spos.skip(2) =~= s@.skip(pos as int + 2));
            }
            match unescape_char(e) {
                Some(u) => {
                    match parse_text_body(s, pos + 2) {
                        Some(p) => {
                            let (mut t, p2) = p;
                            t.insert(0, u);
                            proof {
                                assert(t@ =~= seq![u] + t@.skip(1));
                            }
                            Some((t, p2))
                        }
                        None => None,
                    }
                }
                None => None,
            }
        }
    } else {
        match parse_text_body(s, pos + 1) {
            Some(p) => {
                let (mut t, p2) = p;
                t.insert(0, c);
                proof {
                    assert(t@ =~= seq![c] + t@.skip(1));
                }
                Some((t, p2))
            }
            None => None,
        }
    }
}

/// Item views are unchanged when the underlying vectors agree from the
/// given positions on.
pub proof fn lemma_jview_items_congruent(v2: Vec<Json>, v: Vec<Json>, i2: int, i: int)
    requires
        0 <= i <= v@.len(),
        0 <= i2 <= v2@.len(),
        v2@.len() - i2 == v@.len() - i,
        forall|k: int| 0 <= k < v@.len() - i ==> v2@[i2 + k] == #[trigger] v@[i + k],
    ensures
        jview_items(v2, i2) == jview_items(v, i),
    decreases v@.len() - i,
{
    if i < v@.len() {
        assert(v2@[i2 + 0] == v@[i + 0]);
        assert(v2@[i2] == v@[i]);
        assert forall|k: int| 0 <= k < v@.len() - (i + 1) implies v2@[(i2 + 1) + k]
            == #[trigger] v@[(i + 1) + k] by {
            assert(v2@[i2 + (k + 1)] == v@[i + (k + 1)]);
        }
        lemma_jview_items_congruent(v2, v, i2 + 1, i + 1);
    }
}

/// Field views are unchanged when the underlying vectors agree from
/// the given positions on.
proof fn lemma_jview_fields_congruent(v2: Vec<JField>, v: Vec<JField>, i2: int, i: int)
    requires
        0 <= i <= v@.len(),
        0 <= i2 <= v2@.len(),
        v2@.len() - i2 == v@.len() - i,
        forall|k: int| 0 <= k < v@.len() - i ==> v2@[i2 + k] == #[trigger] v@[i + k],
    ensures
        jview_fields(v2, i2) == jview_fields(v, i),
    decreases v@.len() - i,
{
    if i < v@.len() {
        assert(v2@[i2 + 0] == v@[i + 0]);
        assert(v2@[i2] == v@[i]);
        assert forall|k: int| 0 <= k < v@.len() - (i + 1) implies v2@[(i2 + 1) + k]
            == #[trigger] v@[(i + 1) + k] by {
            assert(v2@[i2 + (k + 1)] == v@[i + (k + 1)]);
        }
        lemma_jview_fields_congruent(v2, v, i2 + 1, i + 1);
    }
}

/// Parse one JSON value.
fn parse_value(s: &Vec<char>, pos: usize) -> (r: Option<(Json, usize)>)
    requires
        pos <= s@.len(),
    ensures
        match r {
            Some(p) => pos <= p.1 <= s@.len() && sp_value(s@.skip(pos as int)) == Some(
                (jview(p.0), s@.skip(p.1 as int)),
            ),
            None => sp_value(s@.skip(pos as int)) is None,
        },
    decreases s@.len() - pos, 1int,
{
    let ghost spos = s@.skip(pos as int);
    let q = skip_ws(s, pos);
    let ghost t = sp_ws(spos);
    proof {
        assert(t == s@.skip(q as int));
        assert(t.len() == s@.len() - q);
    }
    if q == s.len() {
        return None;
    }
    let c = s[q];
    proof {
        assert(t[0] == c);
        assert(t.drop_first() =~= s@.skip(q as int + 1));
    }
    if c == '"' {
        match parse_text_body(s, q + 1) {
            Some(p) => {
                let (t0, p2) = p;
                Some((Json::Text { s: t0 }, p2))
            }
            None => None,
        }
    } else if c == '[' {
        let u = skip_ws(s, q + 1);
        let ghost us = sp_ws(t.drop_first());
        proof {
            assert(us == s@.skip(u as int));
            assert(us.len() == s@.len() - u);
        }
        if u == s.len() {
            return None;
        }
        proof {
            assert(us[0] == s@[u as int]);
            assert(us.drop_first() =~= s@.skip(u as int + 1));
        }
        if s[u] == ']' {
            return Some((Json::Arr { items: Vec::new() }, u + 1));
        }
        if u > pos {
            match parse_items(s, u) {
                Some(p) => {
                    let (items, p2) = p;
                    Some((Json::Arr { items }, p2))
                }
                None => None,
            }
        } else {
            proof {
                lemma_sp_ws_len(spos);
                lemma_sp_ws_len(t.drop_first());
                assert(us.len() < spos.len());
                assert(false);
            }
            None
        }
    } else if c == '{' {
        let u = skip_ws(s, q + 1);
        let ghost us = sp_ws(t.drop_first());
        proof {
            assert(us == s@.skip(u as int));
            assert(us.len() == s@.len() - u);
        }
        if u == s.len() {
            return None;
        }
        proof {
            assert(us[0] == s@[u as int]);
            assert(us.drop_first() =~= s@.skip(u as int + 1));
        }
        if s[u] == '}' {
            return Some((Json::Obj { fields: Vec::new() }, u + 1));
        }
        if u > pos {
            match parse_fields(s, u) {
                Some(p) => {
                    let (fields, p2) = p;
                    Some((Json::Obj { fields }, p2))
                }
                None => None,
            }
        } else {
            proof {
                lemma_sp_ws_len(spos);
                lemma_sp_ws_len(t.drop_first());
                assert(us.len() < spos.len());
                assert(false);
            }
            None
        }
    } else if c == 'n' {
        if s.len() - q >= 4 && s[q + 1] == 'u' && s[q + 2] == 'l' && s[q + 3] == 'l' {
            proof {
                assert(t[1] == s@[q as int + 1]);
                assert(t[2] == s@[q as int + 2]);
                assert(t[3] == s@[q as int + 3]);
                assert(t.skip(4) =~= s@.skip(q as int + 4));
            }
            Some((Json::Null, q + 4))
        } else {
            proof {
                if t.len() >= 4 {
                    assert(t[1] == s@[q as int + 1]);
                    assert(t[2] == s@[q as int + 2]);
                    assert(t[3] == s@[q as int + 3]);
                }
            }
            None
        }
    } else if c == 't' {
        if s.len() - q >= 4 && s[q + 1] == 'r' && s[q + 2] == 'u' && s[q + 3] == 'e' {
            proof {
                assert(t[1] == s@[q as int + 1]);
                assert(t[2] == s@[q as int + 2]);
                assert(t[3] == s@[q as int + 3]);
                assert(t.skip(4) =~= s@.skip(q as int + 4));
            }
            Some((Json::Bool { b: true }, q + 4))
        } else {
            proof {
                if t.len() >= 4 {
                    assert(t[1] == s@[q as int + 1]);
                    assert(t[2] == s@[q as int + 2]);
                    assert(t[3] == s@[q as int + 3]);
                }
            }
            None
        }
    } else if c == 'f' {
        if s.len() - q >= 5 && s[q + 1] == 'a' && s[q + 2] == 'l' && s[q + 3] == 's' && s[q + 4]
            == 'e' {
            proof {
                assert(t[1] == s@[q as int + 1]);
                assert(t[2] == s@[q as int + 2]);
                assert(t[3] == s@[q as int + 3]);
                assert(t[4] == s@[q as int + 4]);
                assert(t.skip(5) =~= s@.skip(q as int + 5));
            }
            Some((Json::Bool { b: false }, q + 5))
        } else {
            proof {
                if t.len() >= 5 {
                    assert(t[1] == s@[q as int + 1]);
                    assert(t[2] == s@[q as int + 2]);
                    assert(t[3] == s@[q as int + 3]);
                    assert(t[4] == s@[q as int + 4]);
                }
            }
            None
        }
    } else {
        None
    }
}

/// Parse one or more array items and the closing bracket.
fn parse_items(s: &Vec<char>, pos: usize) -> (r: Option<(Vec<Json>, usize)>)
    requires
        pos <= s@.len(),
    ensures
        match r {
            Some(p) => pos <= p.1 <= s@.len() && sp_items(s@.skip(pos as int)) == Some(
                (jview_items(p.0, 0), s@.skip(p.1 as int)),
            ),
            None => sp_items(s@.skip(pos as int)) is None,
        },
    decreases s@.len() - pos, 2int,
{
    let ghost spos = s@.skip(pos as int);
    match parse_value(s, pos) {
        Some(p) => {
            let (j, p2) = p;
            let t = skip_ws(s, p2);
            let ghost ts = sp_ws(s@.skip(p2 as int));
            proof {
                assert(ts == s@.skip(t as int));
                assert(ts.len() == s@.len() - t);
            }
            if t == s.len() {
                return None;
            }
            proof {
                assert(ts[0] == s@[t as int]);
                assert(ts.drop_first() =~= s@.skip(t as int + 1));
            }
            if s[t] == ',' {
                if t + 1 > pos {
                    match parse_items(s, t + 1) {
                        Some(q) => {
                            let (mut items, p3) = q;
                            let ghost tail = items;
                            items.insert(0, j);
                            proof {
                                assert forall|k: int| 0 <= k < tail@.len() implies items@[1 + k]
                                    == #[trigger] tail@[0 + k] by {
                                    assert(items@ == tail@.insert(0, j));
                                }
                                lemma_jview_items_congruent(items, tail, 1, 0);
                                assert(items@[0] == j);
                                assert(jview_items(items, 0) == seq![jview(j)] + jview_items(
                                    tail,
                                    0,
                                ));
                            }
                            Some((items, p3))
                        }
                        None => None,
                    }
                } else {
                    None
                }
            } else if s[t] == ']' {
                let mut items: Vec<Json> = Vec::new();
                items.push(j);
                proof {
                    assert(jview_items(items, 1) == Seq::<JsonV>::empty());
                    assert(items@[0] == j);
                    assert(jview_items(items, 0) =~= seq![jview(j)]);
                }
                Some((items, t + 1))
            } else {
                None
            }
        }
        None => None,
    }
}

/// Parse one or more object fields and the closing brace.
fn parse_fields(s: &Vec<char>, pos: usize) -> (r: Option<(Vec<JField>, usize)>)
    requires
        pos <= s@.len(),
    ensures
        match r {
            Some(p) => pos <= p.1 <= s@.len() && sp_fields(s@.skip(pos as int)) == Some(
                (jview_fields(p.0, 0), s@.skip(p.1 as int)),
            ),
            None => sp_fields(s@.skip(pos as int)) is None,
        },
    decreases s@.len() - pos, 2int,
{
    let ghost spos = s@.skip(pos as int);
    let q = skip_ws(s, pos);
    let ghost t = sp_ws(spos);
    proof {
        assert(t == s@.skip(q as int));
        assert(t.len() == s@.len() - q);
        lemma_sp_ws_len(spos);
    }
    if q == s.len() {
        return None;
    }
    proof {
        assert(t[0] == s@[q as int]);
        assert(t.drop_first() =~= s@.skip(q as int + 1));
    }
    if s[q] != '"' {
        return None;
    }
    match parse_text_body(s, q + 1) {
        Some(kp) => {
            let (key, p2) = kp;
            let u = skip_ws(s, p2);
            let ghost us = sp_ws(s@.skip(p2 as int));
            proof {
                assert(us == s@.skip(u as int));
                assert(us.len() == s@.len() - u);
            }
            if u == s.len() {
                return None;
            }
            proof {
                assert(us[0] == s@[u as int]);
                assert(us.drop_first() =~= s@.skip(u as int + 1));
            }
            if s[u] != ':' {
                return None;
            }
            if !(u + 1 > pos) {
                proof {
                    assert(false);
                }
                return None;
            }
            match parse_value(s, u + 1) {
                Some(vp) => {
                    let (j, p3) = vp;
                    let w = skip_ws(s, p3);
                    let ghost ws = sp_ws(s@.skip(p3 as int));
                    proof {
                        assert(ws == s@.skip(w as int));
                        assert(ws.len() == s@.len() - w);
                    }
                    if w == s.len() {
                        return None;
                    }
                    proof {
                        assert(ws[0] == s@[w as int]);
                        assert(ws.drop_first() =~= s@.skip(w as int + 1));
                    }
                    if s[w] == ',' {
                        if w + 1 > pos {
                            match parse_fields(s, w + 1) {
                                Some(fp) => {
                                    let (mut fields, p4) = fp;
                                    let ghost tail = fields;
                                    let ghost kv = key@;
                                    fields.insert(0, JField { key, value: j });
                                    proof {
                                        assert forall|k: int| 0 <= k < tail@.len() implies fields@[
                                            1 + k] == #[trigger] tail@[0 + k] by {
                                            assert(fields@ == tail@.insert(
                                                0,
                                                fields@[0],
                                            ));
                                        }
                                        lemma_jview_fields_congruent(fields, tail, 1, 0);
                                        assert(fields@[0].key@ == kv);
                                        assert(fields@[0].value == j);
                                        assert(jview_fields(fields, 0) == seq![(kv, jview(j))]
                                            + jview_fields(tail, 0));
                                    }
                                    Some((fields, p4))
                                }
                                None => None,
                            }
                        } else {
                            None
                        }
                    } else if s[w] == '}' {
                        let ghost kv = key@;
                        let mut fields: Vec<JField> = Vec::new();
                        fields.push(JField { key, value: j });
                        proof {
                            assert(jview_fields(fields, 1) == Seq::<(Seq<char>, JsonV)>::empty());
                            assert(fields@[0].key@ == kv);
                            assert(fields@[0].value == j);
                            assert(jview_fields(fields, 0) =~= seq![(kv, jview(j))]);
                        }
                        Some((fields, w + 1))
                    } else {
                        None
                    }
                }
                None => None,
            }
        }
        None => None,
    }
}

/// Parse a whole document: one value with only whitespace after it.
pub fn parse_document(s: &Vec<char>) -> (r: Option<Json>)
    ensures
        match r {
            Some(j) => sp_document(s@) == Some(jview(j)),
            None => sp_document(s@) is None,
        },
{
    proof {
        assert(s@.skip(0) =~= s@);
    }
    match parse_value(s, 0) {
        Some(p) => {
            let (j, p2) = p;
            let t = skip_ws(s, p2);
            if t == s.len() {
                proof {
                    assert(sp_ws(s@.skip(p2 as int)) == s@.skip(t as int));
                    assert(s@.skip(t as int).len() == 0);
                }
                Some(j)
            } else {
                proof {
                    assert(sp_ws(s@.skip(p2 as int)).len() > 0);
                }
                None
            }
        }
        None => None,
    }
}

} // verus!

verus! {

/// Every emitted document is non-empty and opens with a character that
/// is neither whitespace nor a separator.
proof fn lemma_emit_head(j: JsonV)
    ensures
        spec_emit(j).len() >= 1,
        !is_ws(spec_emit(j)[0]),
        spec_emit(j)[0] != ']',
        spec_emit(j)[0] != '}',
        spec_emit(j)[0] != ',',
        spec_emit(j)[0] != ':',
{
    match j {
        JsonV::Null => {}
        JsonV::Bool { b } => {}
        JsonV::Text { s } => {
            assert(spec_emit(j) == seq!['"'] + spec_esc(s) + seq!['"']);
            assert(spec_emit(j)[0] == '"');
        }
        JsonV::Arr { items } => {
            assert(spec_emit(j)[0] == '[');
        }
        JsonV::Obj { fields } => {
            assert(spec_emit(j)[0] == '{');
        }
    }
}

/// The escaped text, a closing quote and the rest parse back to
/// exactly the text and the rest.
proof fn lemma_text_body_round(s: Seq<char>, rest: Seq<char>)
    ensures
        sp_text_body(spec_esc(s) + seq!['"'] + rest) == Some((s, rest)),
    decreases s.len(),
{
    let input = spec_esc(s) + seq!['"'] + rest;
    if s.len() == 0 {
        assert(spec_esc(s) == Seq::<char>::empty());
        assert(input[0] == '"');
        assert(input.drop_first() =~= rest);
    } else {
        let c = s[0];
        let tail = s.drop_first();
        lemma_text_body_round(tail, rest);
        let sub = spec_esc(tail) + seq!['"'] + rest;
        assert(spec_esc(s) == spec_esc_char(c) + spec_esc(tail));
        if c == '"' || c == '\\' || c == '\n' || c == '\r' || c == '\t' {
            assert(spec_esc_char(c).len() == 2);
            assert(input[0] == spec_esc_char(c)[0]);
            assert(input[1] == spec_esc_char(c)[1]);
            assert(input[0] == '\\');
            assert(input[1] != 'u');
            assert(sp_unesc_char(input[1]) == Some(c));
            assert(input.skip(2) =~= sub);
            assert(input.len() >= 2);
            assert(seq![c] + tail =~= s);
        } else if (c as u32) < 32 {
            let code = (c as u32) as int;
            let hi = code / 16;
            let lo = code % 16;
            assert(spec_esc_char(c) == seq!['\\', 'u', '0', '0', hex_digit_char(hi),
                hex_digit_char(lo)]);
            assert(spec_esc_char(c).len() == 6);
            assert(input.len() >= 6);
            assert(input[0] == '\\');
            assert(input[1] == 'u');
            assert(input[2] == '0');
            assert(input[3] == '0');
            assert(input[4] == hex_digit_char(hi));
            assert(input[5] == hex_digit_char(lo));
            assert(0 <= hi < 16);
            assert(0 <= lo < 16);
            lemma_hex_round(hi);
            lemma_hex_round(lo);
            assert(hex_val(input[2]) == 0);
            assert(hex_val(input[3]) == 0);
            let v = hex_val(input[2]) * 4096 + hex_val(input[3]) * 256 + hex_val(input[4]) * 16
                + hex_val(input[5]);
            assert(v == code);
            assert(v < 0xD800);
            vstd::utf8::char_u32_cast(c, c as u32);
            assert((v as u32) as char == c);
            assert(input.skip(6) =~= sub);
            assert(seq![c] + tail =~= s);
        } else {
            assert(spec_esc_char(c) == seq![c]);
            assert(input[0] == c);
            assert(input.drop_first() =~= sub);
            assert(seq![c] + tail =~= s);
        }
    }
}

/// Reading back the hex digit written for a value below 16 yields it.
proof fn lemma_hex_round(d: int)
    requires
        0 <= d < 16,
    ensures
        hex_val(hex_digit_char(d)) == d,
{
}

/// Parsing inverts emitting: an emitted value followed by anything
/// parses back to exactly that value, leaving the rest untouched.
#[verifier::rlimit(50)]
pub proof fn lemma_parse_emit(j: JsonV, rest: Seq<char>)
    ensures
        sp_value(spec_emit(j) + rest) == Some((j, rest)),
    decreases j,
{
    let input = spec_emit(j) + rest;
    lemma_emit_head(j);
    assert(input[0] == spec_emit(j)[0]);
    assert(!is_ws(input[0]));
    assert(sp_ws(input) == input);
    match j {
        JsonV::Null => {
            assert(input[0] == 'n');
            assert(input[1] == 'u');
            assert(input[2] == 'l');
            assert(input[3] == 'l');
            assert(input.skip(4) =~= rest);
            assert(sp_value(input) == Some((j, rest)));
        }
        JsonV::Bool { b } => {
            if b {
                assert(input[0] == 't');
                assert(input[1] == 'r');
                assert(input[2] == 'u');
                assert(input[3] == 'e');
                assert(input.skip(4) =~= rest);
                assert(sp_value(input) == Some((j, rest)));
            } else {
                assert(input[0] == 'f');
                assert(input[1] == 'a');
                assert(input[2] == 'l');
                assert(input[3] == 's');
                assert(input[4] == 'e');
                assert(input.skip(5) =~= rest);
                assert(sp_value(input) == Some((j, rest)));
            }
        }
        JsonV::Text { s } => {
            assert(spec_emit(j) == seq!['"'] + spec_esc(s) + seq!['"']);
            assert(input[0] == '"');
            assert(input.drop_first() =~= spec_esc(s) + seq!['"'] + rest);
            lemma_text_body_round(s, rest);
            assert(sp_value(input) == Some((j, rest)));
        }
        JsonV::Arr { items } => {
            assert(input[0] == '[');
            if items.len() == 0 {
                assert(spec_emit_items(items) == Seq::<char>::empty());
                assert(input.drop_first() =~= seq![']'] + rest);
                let u = sp_ws(input.drop_first());
                assert((seq![']'] + rest)[0] == ']');
                assert(u == seq![']'] + rest);
                assert(u.drop_first() =~= rest);
                assert(items =~= Seq::<JsonV>::empty());
                assert(j == (JsonV::Arr { items: Seq::<JsonV>::empty() }));
                assert(sp_value(input) == Some((j, rest)));
            } else {
                assert(input.drop_first() =~= spec_emit_items(items) + seq![']'] + rest);
                lemma_items_round(items, rest);
                lemma_emit_head(items[0]);
                assert(spec_emit_items(items)[0] == spec_emit(items[0])[0]) by {
                    if items.len() == 1 {
                    } else {
                        assert(spec_emit_items(items) == spec_emit(items[0]) + seq![',']
                            + spec_emit_items(items.drop_first()));
                    }
                }
                let u = sp_ws(input.drop_first());
                assert(input.drop_first()[0] == spec_emit_items(items)[0]);
                assert(!is_ws(input.drop_first()[0]));
                assert(u == input.drop_first());
                assert(u[0] != ']');
                assert(u.len() < input.len());
                assert(sp_items(u) == Some((items, rest)));
                assert(sp_value(input) == Some((j, rest)));
            }
        }
        JsonV::Obj { fields } => {
            assert(input[0] == '{');
            if fields.len() == 0 {
                assert(spec_emit_fields(fields) == Seq::<char>::empty());
                assert(input.drop_first() =~= seq!['}'] + rest);
                let u = sp_ws(input.drop_first());
                assert((seq!['}'] + rest)[0] == '}');
                assert(u == seq!['}'] + rest);
                assert(u.drop_first() =~= rest);
                assert(fields =~= Seq::<(Seq<char>, JsonV)>::empty());
                assert(j == (JsonV::Obj { fields: Seq::<(Seq<char>, JsonV)>::empty() }));
                assert(sp_value(input) == Some((j, rest)));
            } else {
                assert(input.drop_first() =~= spec_emit_fields(fields) + seq!['}'] + rest);
                lemma_fields_round(fields, rest);
                assert(spec_emit_fields(fields)[0] == '"') by {
                    let one = spec_emit_text(fields[0].0) + seq![':'] + spec_emit(fields[0].1);
                    assert(one[0] == spec_emit_text(fields[0].0)[0]);
                    assert(spec_emit_text(fields[0].0)[0] == '"');
                    if fields.len() == 1 {
                    } else {
                        assert(spec_emit_fields(fields) == one + seq![','] + spec_emit_fields(
                            fields.drop_first(),
                        ));
                        assert(spec_emit_fields(fields)[0] == one[0]);
                    }
                }
                let u = sp_ws(input.drop_first());
                assert(input.drop_first()[0] == '"');
                assert(u == input.drop_first());
                assert(u[0] != '}');
                assert(u.len() < input.len());
                assert(sp_fields(u) == Some((fields, rest)));
                assert(sp_value(input) == Some((j, rest)));
            }
        }
    }
}

/// Emitted items, a closing bracket and the rest parse back to exactly
/// those items and the rest.
proof fn lemma_items_round(items: Seq<JsonV>, rest: Seq<char>)
    requires
        items.len() >= 1,
    ensures
        sp_items(spec_emit_items(items) + seq![']'] + rest) == Some((items, rest)),
    decreases items,
{
    let input = spec_emit_items(items) + seq![']'] + rest;
    let first = items[0];
    lemma_emit_head(first);
    if items.len() == 1 {
        assert(spec_emit_items(items) == spec_emit(first));
        assert(input =~= spec_emit(first) + (seq![']'] + rest));
        lemma_parse_emit(first, seq![']'] + rest);
        let after = seq![']'] + rest;
        assert(after[0] == ']');
        assert(sp_ws(after) == after);
        assert(after.drop_first() =~= rest);
        assert(seq![first] =~= items);
    } else {
        let tail = items.drop_first();
        assert(tail.len() >= 1);
        let tail_text = spec_emit_items(tail) + seq![']'] + rest;
        assert(spec_emit_items(items) == spec_emit(first) + seq![','] + spec_emit_items(tail));
        let after = seq![','] + tail_text;
        assert(input =~= spec_emit(first) + after);
        lemma_parse_emit(first, after);
        assert(after[0] == ',');
        assert(sp_ws(after) == after);
        assert(after.drop_first() =~= tail_text);
        assert(after.drop_first().len() < input.len());
        lemma_items_round(tail, rest);
        assert(seq![first] + tail =~= items);
    }
}

/// Emitted fields, a closing brace and the rest parse back to exactly
/// those fields and the rest.
proof fn lemma_fields_round(fields: Seq<(Seq<char>, JsonV)>, rest: Seq<char>)
    requires
        fields.len() >= 1,
    ensures
        sp_fields(spec_emit_fields(fields) + seq!['}'] + rest) == Some((fields, rest)),
    decreases fields,
{
    let input = spec_emit_fields(fields) + seq!['}'] + rest;
    let key = fields[0].0;
    let value = fields[0].1;
    let one = spec_emit_text(key) + seq![':'] + spec_emit(value);
    let tail_all = if fields.len() == 1 {
        seq!['}'] + rest
    } else {
        seq![','] + (spec_emit_fields(fields.drop_first()) + seq!['}'] + rest)
    };
    assert(input =~= one + tail_all) by {
        if fields.len() == 1 {
            assert(spec_emit_fields(fields) == one);
        } else {
            assert(spec_emit_fields(fields) == one + seq![','] + spec_emit_fields(
                fields.drop_first(),
            ));
        }
    }
    assert(input[0] == '"') by {
        assert(one[0] == spec_emit_text(key)[0]);
    }
    assert(sp_ws(input) == input);
    let after_key = seq![':'] + (spec_emit(value) + tail_all);
    assert(input.drop_first() =~= spec_esc(key) + seq!['"'] + after_key);
    lemma_text_body_round(key, after_key);
    assert(after_key[0] == ':');
    assert(sp_ws(after_key) == after_key);
    assert(after_key.drop_first() =~= spec_emit(value) + tail_all);
    assert(after_key.drop_first().len() < input.len());
    lemma_parse_emit(value, tail_all);
    lemma_emit_head(value);
    if fields.len() == 1 {
        assert(tail_all[0] == '}');
        assert(sp_ws(tail_all) == tail_all);
        assert(tail_all.drop_first() =~= rest);
        assert(seq![(key, value)] =~= fields);
    } else {
        let tail = fields.drop_first();
        assert(tail_all[0] == ',');
        assert(sp_ws(tail_all) == tail_all);
        assert(tail_all.drop_first() =~= spec_emit_fields(tail) + seq!['}'] + rest);
        assert(tail_all.drop_first().len() < input.len());
        lemma_fields_round(tail, rest);
        assert(seq![(key, value)] + tail =~= fields);
    }
}

/// Round trip: parsing an emitted document yields the document back.
pub proof fn lemma_document_round_trip(j: JsonV)
    ensures
        sp_document(spec_emit(j)) == Some(j),
{
    assert(spec_emit(j) + Seq::<char>::empty() =~= spec_emit(j));
    lemma_parse_emit(j, Seq::<char>::empty());
    assert(sp_ws(Seq::<char>::empty()) == Seq::<char>::empty());
}

} // verus!
