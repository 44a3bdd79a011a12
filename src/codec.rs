use vstd::prelude::*;
use crate::message::{InputMessage, MessageView, PredictType};

verus! {

/// Lower-case hexadecimal digit of `d` (`d < 16`).
pub open spec fn hex_digit(d: int) -> char {
    seq!['0', '1', '2', '3', '4', '5', '6', '7', '8', '9', 'a', 'b', 'c', 'd', 'e', 'f'][d]
}

/// How one character stands inside a JSON string literal.
pub open spec fn escape_char(c: char) -> Seq<char> {
    if c == '"' {
        seq!['\\', '"']
    } else if c == '\\' {
        seq!['\\', '\\']
    } else if c == '\n' {
        seq!['\\', 'n']
    } else if c == '\r' {
        seq!['\\', 'r']
    } else if c == '\t' {
        seq!['\\', 't']
    } else if c == '\x08' {
        seq!['\\', 'b']
    } else if c == '\x0c' {
        seq!['\\', 'f']
    } else if (c as u32) < 0x20 {
        seq!['\\', 'u', '0', '0', hex_digit((c as u32) as int / 16), hex_digit((c as u32) as int % 16)]
    } else {
        seq![c]
    }
}

/// The escaped body of a JSON string literal holding `s`.
pub open spec fn escape(s: Seq<char>) -> Seq<char>
    decreases s.len(),
{
    if s.len() == 0 {
        Seq::empty()
    } else {
        escape_char(s[0]) + escape(s.drop_first())
    }
}

/// A JSON string literal holding `s`.
pub open spec fn quoted(s: Seq<char>) -> Seq<char> {
    seq!['"'] + escape(s) + seq!['"']
}

/// The wire name of an event kind.
pub open spec fn kind_name(t: PredictType) -> Seq<char> {
    match t {
        PredictType::TypeOne => seq!['T', 'Y', 'P', 'E', '_', 'O', 'N', 'E'],
        PredictType::TypeTwo => seq!['T', 'Y', 'P', 'E', '_', 'T', 'W', 'O'],
    }
}

pub open spec fn id_key() -> Seq<char> {
    seq!['{', '"', 'i', 'd', '"', ':']
}

pub open spec fn image_key() -> Seq<char> {
    seq![',', '"', 'i', 'm', 'a', 'g', 'e', '_', 'p', 'a', 't', 'h', '"', ':']
}

pub open spec fn result_key() -> Seq<char> {
    seq![',', '"', 'r', 'e', 's', 'u', 'l', 't', '_', 'p', 'a', 't', 'h', '"', ':']
}

pub open spec fn kind_key() -> Seq<char> {
    seq![',', '"', 'p', 'r', 'e', 'd', 'i', 'c', 't', '_', 't', 'y', 'p', 'e', '"', ':']
}

/// The JSON text of a record: one object with the four fields in
/// declaration order, no whitespace, and the string escapes of RFC 8259
/// in their shortest form.
#[verifier::opaque]
pub open spec fn encode(m: MessageView) -> Seq<char> {
    id_key() + quoted(m.id) + image_key() + quoted(m.image_path) + result_key() + quoted(
        m.result_path,
    ) + kind_key() + quoted(kind_name(m.predict_type)) + seq!['}']
}

pub proof fn lemma_escape_concat(a: Seq<char>, b: Seq<char>)
    ensures
        escape(a + b) == escape(a) + escape(b),
    decreases a.len(),
{
    if a.len() == 0 {
        assert(a + b =~= b);
    } else {
        assert((a + b).drop_first() =~= a.drop_first() + b);
        lemma_escape_concat(a.drop_first(), b);
        assert(escape(a + b) =~= escape(a) + escape(b));
    }
}

pub proof fn lemma_escape_push(a: Seq<char>, c: char)
    ensures
        escape(a.push(c)) == escape(a) + escape_char(c),
{
    lemma_escape_concat(a, seq![c]);
    assert(a.push(c) =~= a + seq![c]);
    assert(seq![c].drop_first() =~= Seq::<char>::empty());
    assert(escape(Seq::<char>::empty()) == Seq::<char>::empty());
    assert(escape(seq![c]) == escape_char(c) + escape(seq![c].drop_first()));
    assert(escape(seq![c]) =~= escape_char(c));
}

/// Relies on String::push: appends one character at the end.
#[verifier::external_body]
pub(crate) fn push_char(s: &mut String, c: char)
    ensures
        final(s)@ == old(s)@.push(c),
{
    s.push(c)
}

fn hex_digit_exec(d: u32) -> (c: char)
    requires
        d < 16,
    ensures
        c == hex_digit(d as int),
{
    let digits: [char; 16] = [
        '0', '1', '2', '3', '4', '5', '6', '7', '8', '9', 'a', 'b', 'c', 'd', 'e', 'f',
    ];
    assert(digits@ =~= seq!['0', '1', '2', '3', '4', '5', '6', '7', '8', '9', 'a', 'b', 'c', 'd', 'e', 'f']);
    digits[d as usize]
}

/// Appends the escaped form of `c` to `out`.
fn push_escaped(out: &mut String, c: char)
    ensures
        final(out)@ == old(out)@ + escape_char(c),
{
    let ghost start = out@;
    if c == '"' {
        push_char(out, '\\');
        push_char(out, '"');
    } else if c == '\\' {
        push_char(out, '\\');
        push_char(out, '\\');
    } else if c == '\n' {
        push_char(out, '\\');
        push_char(out, 'n');
    } else if c == '\r' {
        push_char(out, '\\');
        push_char(out, 'r');
    } else if c == '\t' {
        push_char(out, '\\');
        push_char(out, 't');
    } else if c == '\x08' {
        push_char(out, '\\');
        push_char(out, 'b');
    } else if c == '\x0c' {
        push_char(out, '\\');
        push_char(out, 'f');
    } else if (c as u32) < 0x20 {
        push_char(out, '\\');
        push_char(out, 'u');
        push_char(out, '0');
        push_char(out, '0');
        push_char(out, hex_digit_exec((c as u32) / 16));
        push_char(out, hex_digit_exec((c as u32) % 16));
    } else {
        push_char(out, c);
    }
    assert(out@ =~= start + escape_char(c));
}

/// Appends `s` as a JSON string literal to `out`.
fn push_quoted(out: &mut String, s: &str)
    ensures
        final(out)@ == old(out)@ + quoted(s@),
{
    let ghost start = out@;
    push_char(out, '"');
    for c in it: s.chars()
        invariant
            it.seq() == s@,
            out@ == start + seq!['"'] + escape(s@.take(it.index() as int)),
    {
        proof {
            lemma_escape_push(s@.take(it.index() as int), c);
            assert(s@.take(it.index() as int).push(c) =~= s@.take(it.index() + 1));
        }
        push_escaped(out, c);
    }
    push_char(out, '"');
    assert(s@.take(s@.len() as int) =~= s@);
    assert(out@ =~= start + quoted(s@));
}

/// The value of a lower-case hexadecimal digit, if `d` is one.
pub open spec fn hex_value(d: char) -> Option<int> {
    if 48 <= (d as u32) <= 57 {
        Some((d as u32) - 48)
    } else if 97 <= (d as u32) <= 102 {
        Some((d as u32) - 87)
    } else {
        None
    }
}

/// The character with scalar value `v` (`v < 256`).
pub open spec fn char_with_code(v: int) -> char {
    ((v as u8) as char)
}

/// One character of a string literal's body read at `s[i]`, in the escaped
/// form that `escape_char` writes: the character and the width read.
pub open spec fn unescape_at(s: Seq<char>, i: int) -> Option<(char, int)> {
    if i < 0 || i >= s.len() || s[i] == '"' {
        None
    } else if s[i] != '\\' {
        if (s[i] as u32) < 0x20 {
            None
        } else {
            Some((s[i], 1))
        }
    } else if i + 1 >= s.len() {
        None
    } else {
        let e = s[i + 1];
        if e == '"' {
            Some(('"', 2))
        } else if e == '\\' {
            Some(('\\', 2))
        } else if e == 'n' {
            Some(('\n', 2))
        } else if e == 'r' {
            Some(('\r', 2))
        } else if e == 't' {
            Some(('\t', 2))
        } else if e == 'b' {
            Some(('\x08', 2))
        } else if e == 'f' {
            Some(('\x0c', 2))
        } else if e == 'u' && i + 5 < s.len() && s[i + 2] == '0' && s[i + 3] == '0' && (s[i + 4]
            == '0' || s[i + 4] == '1') && hex_value(s[i + 5]) is Some {
            let v = 16 * ((s[i + 4] as u32) - 48) + hex_value(s[i + 5])->0;
            if v == 8 || v == 9 || v == 10 || v == 12 || v == 13 {
                None
            } else {
                Some((char_with_code(v), 6))
            }
        } else {
            None
        }
    }
}

/// The body of a string literal read from `s[i]` up to and including its
/// closing quote: the characters it holds and the position after the quote.
pub open spec fn parse_body(s: Seq<char>, i: int) -> Option<(Seq<char>, int)>
    decreases s.len() - i,
{
    if i < 0 || i >= s.len() {
        None
    } else if s[i] == '"' {
        Some((Seq::empty(), i + 1))
    } else {
        match unescape_at(s, i) {
            Some((c, w)) => if w > 0 && i + w <= s.len() {
                match parse_body(s, i + w) {
                    Some((v, j)) => Some((seq![c] + v, j)),
                    None => None,
                }
            } else {
                None
            },
            None => None,
        }
    }
}

/// A string literal read at `s[i]`: its characters and the position after it.
pub open spec fn parse_quoted(s: Seq<char>, i: int) -> Option<(Seq<char>, int)> {
    if 0 <= i < s.len() && s[i] == '"' {
        parse_body(s, i + 1)
    } else {
        None
    }
}

/// Whether `lit` stands in `s` at position `i`.
pub open spec fn has_at(s: Seq<char>, i: int, lit: Seq<char>) -> bool {
    0 <= i && i + lit.len() <= s.len() && s.subrange(i, i + lit.len()) == lit
}

/// The field key `key` at `i`, then a string literal: its characters and the
/// position after it.
#[verifier::opaque]
pub open spec fn parse_field(s: Seq<char>, i: int, key: Seq<char>) -> Option<(Seq<char>, int)> {
    if has_at(s, i, key) {
        parse_quoted(s, i + key.len())
    } else {
        None
    }
}

/// The event kind with wire name `name`.
pub open spec fn kind_of_name(name: Seq<char>) -> Option<PredictType> {
    if name == kind_name(PredictType::TypeOne) {
        Some(PredictType::TypeOne)
    } else if name == kind_name(PredictType::TypeTwo) {
        Some(PredictType::TypeTwo)
    } else {
        None
    }
}

/// The record that the text `s` holds, if it holds one in the form that
/// `encode` writes.
#[verifier::opaque]
pub open spec fn decode(s: Seq<char>) -> Option<MessageView> {
    match parse_field(s, 0, id_key()) {
        None => None,
        Some((id, i1)) => match parse_field(s, i1, image_key()) {
            None => None,
            Some((image, i2)) => match parse_field(s, i2, result_key()) {
                None => None,
                Some((result, i3)) => match parse_field(s, i3, kind_key()) {
                    None => None,
                    Some((name, i4)) => match kind_of_name(name) {
                        None => None,
                        Some(kind) => if i4 + 1 == s.len() && s[i4] == '}' {
                            Some(
                                MessageView {
                                    id,
                                    image_path: image,
                                    result_path: result,
                                    predict_type: kind,
                                },
                            )
                        } else {
                            None
                        },
                    },
                },
            },
        },
    }
}

proof fn lemma_hex_digit(d: int)
    requires
        0 <= d < 16,
    ensures
        hex_value(hex_digit(d)) == Some(d),
        d < 10 ==> 48 <= (hex_digit(d) as u32) <= 57,
        d >= 10 ==> 97 <= (hex_digit(d) as u32) <= 102,
        d == 0 ==> hex_digit(d) == '0',
        d == 1 ==> hex_digit(d) == '1',
{
    let t = seq!['0', '1', '2', '3', '4', '5', '6', '7', '8', '9', 'a', 'b', 'c', 'd', 'e', 'f'];
    assert(hex_digit(d) == t[d]);
    if d == 0 {} else if d == 1 {} else if d == 2 {} else if d == 3 {} else if d == 4 {}
    else if d == 5 {} else if d == 6 {} else if d == 7 {} else if d == 8 {} else if d == 9 {}
    else if d == 10 {} else if d == 11 {} else if d == 12 {} else if d == 13 {} else if d == 14 {}
    else {}
}

proof fn lemma_hex_value(c: char)
    requires
        hex_value(c) is Some,
    ensures
        0 <= hex_value(c)->0 < 16,
        hex_digit(hex_value(c)->0) == c,
{
    let d = hex_value(c)->0;
    lemma_hex_digit(d);
    let t = seq!['0', '1', '2', '3', '4', '5', '6', '7', '8', '9', 'a', 'b', 'c', 'd', 'e', 'f'];
    assert(hex_digit(d) == t[d]);
    if d == 0 {} else if d == 1 {} else if d == 2 {} else if d == 3 {} else if d == 4 {}
    else if d == 5 {} else if d == 6 {} else if d == 7 {} else if d == 8 {} else if d == 9 {}
    else if d == 10 {} else if d == 11 {} else if d == 12 {} else if d == 13 {} else if d == 14 {}
    else {}
}

/// Reading the escaped form of `c` gives back `c`.
proof fn lemma_unescape_escape(s: Seq<char>, i: int, c: char)
    requires
        has_at(s, i, escape_char(c)),
    ensures
        unescape_at(s, i) == Some((c, escape_char(c).len() as int)),
{
    let e = escape_char(c);
    assert forall|k: int| 0 <= k < e.len() implies s[i + k] == e[k] by {
        assert(s.subrange(i, i + e.len())[k] == s[i + k]);
    }
    let v = c as u32;
    if c == '"' || c == '\\' || c == '\n' || c == '\r' || c == '\t' || c == '\x08' || c
        == '\x0c' {
        assert(s[i] == e[0]);
        assert(s[i + 1] == e[1]);
    } else if v < 0x20 {
        lemma_hex_digit(v as int / 16);
        lemma_hex_digit(v as int % 16);
        assert(s[i] == e[0]);
        assert(s[i + 1] == e[1]);
        assert(s[i + 2] == e[2]);
        assert(s[i + 3] == e[3]);
        assert(s[i + 4] == e[4]);
        assert(s[i + 5] == e[5]);
        assert(hex_value(s[i + 5]) == Some(v as int % 16));
        assert(16 * ((s[i + 4] as u32) - 48) + v as int % 16 == v);
        assert(char_with_code(v as int) as u32 == v);
    } else {
        assert(s[i] == e[0]);
    }
}

/// What was read at `i` is the escaped form of the character read.
proof fn lemma_escape_unescape(s: Seq<char>, i: int)
    requires
        unescape_at(s, i) is Some,
    ensures
        has_at(s, i, escape_char((unescape_at(s, i)->0).0)),
        (unescape_at(s, i)->0).1 == escape_char((unescape_at(s, i)->0).0).len(),
{
    let (c, w) = unescape_at(s, i)->0;
    let e = escape_char(c);
    if s[i] == '\\' && s[i + 1] == 'u' {
        lemma_hex_value(s[i + 5]);
        let v = 16 * ((s[i + 4] as u32) - 48) + hex_value(s[i + 5])->0;
        assert(c as u32 == v);
        assert(v / 16 == (s[i + 4] as u32) - 48);
        assert(v % 16 == hex_value(s[i + 5])->0);
        lemma_hex_digit(v / 16);
        assert(e =~= s.subrange(i, i + 6));
    } else if s[i] == '\\' {
        assert(e =~= s.subrange(i, i + 2));
    } else {
        assert(e =~= s.subrange(i, i + 1));
    }
}

/// A string literal's body is read back as the characters it was written from.
pub proof fn lemma_parse_body_escape(s: Seq<char>, i: int, x: Seq<char>)
    requires
        has_at(s, i, escape(x) + seq!['"']),
    ensures
        parse_body(s, i) == Some((x, i + escape(x).len() + 1)),
    decreases x.len(),
{
    if x.len() == 0 {
        assert(s[i] == s.subrange(i, i + 1)[0]);
    } else {
        let c = x[0];
        let e = escape_char(c);
        let rest = escape(x.drop_first()) + seq!['"'];
        let full = escape(x) + seq!['"'];
        assert(full =~= e + rest);
        assert(s.subrange(i, i + full.len()) == full);
        assert(s.subrange(i, i + e.len()) =~= s.subrange(i, i + full.len()).subrange(
            0,
            e.len() as int,
        ));
        assert(full.subrange(0, e.len() as int) =~= e);
        lemma_unescape_escape(s, i, c);
        assert(s.subrange(i + e.len(), i + e.len() + rest.len()) =~= s.subrange(
            i,
            i + full.len(),
        ).subrange(e.len() as int, full.len() as int));
        assert(full.subrange(e.len() as int, full.len() as int) =~= rest);
        lemma_parse_body_escape(s, i + e.len(), x.drop_first());
        assert(s[i] == s.subrange(i, i + e.len())[0]);
        assert(seq![c] + x.drop_first() =~= x);
    }
}

/// Whatever a string literal's body is read as, it was written in the form
/// that `escape` gives.
pub proof fn lemma_parse_body_sound(s: Seq<char>, i: int)
    requires
        parse_body(s, i) is Some,
    ensures
        has_at(s, i, escape((parse_body(s, i)->0).0) + seq!['"']),
        (parse_body(s, i)->0).1 == i + escape((parse_body(s, i)->0).0).len() + 1,
    decreases s.len() - i,
{
    let (v, j) = parse_body(s, i)->0;
    if s[i] == '"' {
        assert(escape(v) + seq!['"'] =~= s.subrange(i, i + 1));
    } else {
        let (c, w) = unescape_at(s, i)->0;
        lemma_escape_unescape(s, i);
        lemma_parse_body_sound(s, i + w);
        let v2 = (parse_body(s, i + w)->0).0;
        assert(v == seq![c] + v2);
        assert(v.drop_first() =~= v2);
        assert(escape(v) == escape_char(c) + escape(v2));
        assert(s.subrange(i, j) =~= s.subrange(i, i + w) + s.subrange(i + w, j));
        assert(escape(v) + seq!['"'] =~= escape_char(c) + (escape(v2) + seq!['"']));
    }
}

proof fn lemma_field(s: Seq<char>, i: int, key: Seq<char>, x: Seq<char>)
    requires
        has_at(s, i, key + quoted(x)),
    ensures
        parse_field(s, i, key) == Some((x, i + key.len() + quoted(x).len())),
{
    reveal(parse_field);
    let whole = key + quoted(x);
    assert(s.subrange(i, i + key.len()) =~= s.subrange(i, i + whole.len()).subrange(
        0,
        key.len() as int,
    ));
    assert(whole.subrange(0, key.len() as int) =~= key);
    let b = i + key.len();
    assert(s[b] == s.subrange(i, i + whole.len())[key.len() as int]);
    let body = escape(x) + seq!['"'];
    assert(s.subrange(b + 1, b + 1 + body.len()) =~= s.subrange(i, i + whole.len()).subrange(
        key.len() + 1int,
        whole.len() as int,
    ));
    assert(whole.subrange(key.len() + 1int, whole.len() as int) =~= body);
    lemma_parse_body_escape(s, b + 1, x);
}

proof fn lemma_field_sound(s: Seq<char>, i: int, key: Seq<char>)
    requires
        parse_field(s, i, key) is Some,
    ensures
        has_at(s, i, key + quoted((parse_field(s, i, key)->0).0)),
        (parse_field(s, i, key)->0).1 == i + key.len() + quoted(
            (parse_field(s, i, key)->0).0,
        ).len(),
{
    reveal(parse_field);
    let b = i + key.len();
    lemma_parse_body_sound(s, b + 1);
    let x = (parse_field(s, i, key)->0).0;
    let j = (parse_field(s, i, key)->0).1;
    assert(s.subrange(i, j) =~= s.subrange(i, b) + seq![s[b]] + s.subrange(b + 1, j));
    assert(key + quoted(x) =~= key + seq!['"'] + (escape(x) + seq!['"']));
}

proof fn lemma_kind_name(t: PredictType)
    ensures
        kind_of_name(kind_name(t)) == Some(t),
{
    assert(kind_name(PredictType::TypeOne)[5] != kind_name(PredictType::TypeTwo)[5]);
}

proof fn lemma_has_at_middle(p: Seq<char>, q: Seq<char>, r: Seq<char>)
    ensures
        has_at(p + q + r, p.len() as int, q),
{
    assert((p + q + r).subrange(p.len() as int, (p.len() + q.len()) as int) =~= q);
}

proof fn lemma_has_at_join(s: Seq<char>, i: int, a: Seq<char>, b: Seq<char>)
    requires
        has_at(s, i, a),
        has_at(s, i + a.len(), b),
    ensures
        has_at(s, i, a + b),
{
    assert(s.subrange(i, i + a.len() + b.len()) =~= s.subrange(i, i + a.len()) + s.subrange(
        i + a.len(),
        i + a.len() + b.len(),
    ));
}

proof fn lemma_decode_fields(s: Seq<char>, m: MessageView, i1: int, i2: int, i3: int, i4: int)
    requires
        parse_field(s, 0, id_key()) == Some((m.id, i1)),
        parse_field(s, i1, image_key()) == Some((m.image_path, i2)),
        parse_field(s, i2, result_key()) == Some((m.result_path, i3)),
        parse_field(s, i3, kind_key()) == Some((kind_name(m.predict_type), i4)),
        i4 + 1 == s.len(),
        s[i4] == '}',
    ensures
        decode(s) == Some(m),
{
    lemma_kind_name(m.predict_type);
    reveal(decode);
}

/// The encoding of `m` split around each of its four fields.
proof fn lemma_encode_split(m: MessageView)
    ensures
        ({
            let a = id_key() + quoted(m.id);
            let b = image_key() + quoted(m.image_path);
            let c = result_key() + quoted(m.result_path);
            let d = kind_key() + quoted(kind_name(m.predict_type));
            let e = seq!['}'];
            &&& encode(m) == Seq::<char>::empty() + a + (b + c + d + e)
            &&& encode(m) == a + b + (c + d + e)
            &&& encode(m) == (a + b) + c + (d + e)
            &&& encode(m) == (a + b + c) + d + e
        }),
{
    let a = id_key() + quoted(m.id);
    let b = image_key() + quoted(m.image_path);
    let c = result_key() + quoted(m.result_path);
    let d = kind_key() + quoted(kind_name(m.predict_type));
    let e = seq!['}'];
    reveal(encode);
    assert(encode(m) =~= Seq::<char>::empty() + a + (b + c + d + e));
    assert(encode(m) =~= a + b + (c + d + e));
    assert(encode(m) =~= (a + b) + c + (d + e));
    assert(encode(m) =~= (a + b + c) + d + e);
}

/// Decoding the encoding of a record gives the record back.
pub proof fn lemma_round_trip(m: MessageView)
    ensures
        decode(encode(m)) == Some(m),
{
    let s = encode(m);
    let a = id_key() + quoted(m.id);
    let b = image_key() + quoted(m.image_path);
    let c = result_key() + quoted(m.result_path);
    let d = kind_key() + quoted(kind_name(m.predict_type));
    let e = seq!['}'];
    let z = Seq::<char>::empty();
    lemma_encode_split(m);
    lemma_has_at_middle(z, a, b + c + d + e);
    lemma_field(s, 0, id_key(), m.id);
    lemma_has_at_middle(a, b, c + d + e);
    lemma_field(s, a.len() as int, image_key(), m.image_path);
    lemma_has_at_middle(a + b, c, d + e);
    lemma_field(s, (a + b).len() as int, result_key(), m.result_path);
    lemma_has_at_middle(a + b + c, d, e);
    lemma_field(s, (a + b + c).len() as int, kind_key(), kind_name(m.predict_type));
    let i4 = (a + b + c + d).len() as int;
    assert(s[i4] == '}');
    assert(s.len() == i4 + 1);
    lemma_decode_fields(
        s,
        m,
        a.len() as int,
        (a + b).len() as int,
        (a + b + c).len() as int,
        i4,
    );
}

/// Only the encoding of a record decodes: a text that decodes to `m` is the
/// encoding of `m`.
pub proof fn lemma_decode_sound(s: Seq<char>)
    requires
        decode(s) is Some,
    ensures
        encode(decode(s)->0) == s,
{
    reveal(decode);
    let m = decode(s)->0;
    lemma_field_sound(s, 0, id_key());
    let i1 = (parse_field(s, 0, id_key())->0).1;
    lemma_field_sound(s, i1, image_key());
    let i2 = (parse_field(s, i1, image_key())->0).1;
    lemma_field_sound(s, i2, result_key());
    let i3 = (parse_field(s, i2, result_key())->0).1;
    lemma_field_sound(s, i3, kind_key());
    let i4 = (parse_field(s, i3, kind_key())->0).1;
    let name = (parse_field(s, i3, kind_key())->0).0;
    assert(name == kind_name(m.predict_type));
    let a = id_key() + quoted(m.id);
    let b = image_key() + quoted(m.image_path);
    let c = result_key() + quoted(m.result_path);
    let d = kind_key() + quoted(kind_name(m.predict_type));
    let e = seq!['}'];
    lemma_has_at_join(s, 0, a, b);
    lemma_has_at_join(s, 0, a + b, c);
    lemma_has_at_join(s, 0, a + b + c, d);
    assert(s.subrange(i4, i4 + 1) =~= e);
    lemma_has_at_join(s, 0, a + b + c + d, e);
    lemma_encode_split(m);
    assert(encode(m) =~= a + b + c + d + e);
    assert(s.subrange(0, s.len() as int) =~= s);
}

/// The characters of `s`, in order.
fn chars_of(s: &str) -> (r: Vec<char>)
    ensures
        r@ == s@,
{
    let mut r: Vec<char> = Vec::new();
    for c in it: s.chars()
        invariant
            it.seq() == s@,
            r@ == it.seq().take(it.index() as int),
    {
        r.push(c);
        assert(r@ =~= it.seq().take(it.index() + 1));
    }
    assert(r@ =~= s@);
    r
}

/// Whether `lit` stands in `cs` at position `i`.
fn has_at_exec(cs: &Vec<char>, i: usize, lit: &str) -> (r: bool)
    ensures
        r == has_at(cs@, i as int, lit@),
{
    let n = lit.unicode_len();
    if n > cs.len() || i > cs.len() - n {
        return false;
    }
    let mut k: usize = 0;
    while k < n
        invariant
            n == lit@.len(),
            i + n <= cs.len(),
            k <= n,
            forall|t: int| 0 <= t < k ==> cs@[i + t] == lit@[t],
        decreases n - k,
    {
        if cs[i + k] != lit.get_char(k) {
            assert(cs@.subrange(i as int, i + n)[k as int] != lit@[k as int]);
            return false;
        }
        k = k + 1;
    }
    assert(cs@.subrange(i as int, i + n) =~= lit@);
    true
}

fn hex_value_exec(d: char) -> (r: Option<u32>)
    ensures
        r matches Some(v) ==> hex_value(d) == Some(v as int),
        r is None ==> hex_value(d) is None,
{
    let v = d as u32;
    if 48 <= v && v <= 57 {
        Some(v - 48)
    } else if 97 <= v && v <= 102 {
        Some(v - 87)
    } else {
        None
    }
}

fn unescape_exec(cs: &Vec<char>, i: usize) -> (r: Option<(char, usize)>)
    ensures
        r matches Some((c, w)) ==> unescape_at(cs@, i as int) == Some((c, w as int)),
        r is None ==> unescape_at(cs@, i as int) is None,
{
    if i >= cs.len() || cs[i] == '"' {
        return None;
    }
    let c = cs[i];
    if c != '\\' {
        if (c as u32) < 0x20 {
            return None;
        }
        return Some((c, 1));
    }
    if i + 1 >= cs.len() {
        return None;
    }
    let e = cs[i + 1];
    if e == '"' {
        Some(('"', 2))
    } else if e == '\\' {
        Some(('\\', 2))
    } else if e == 'n' {
        Some(('\n', 2))
    } else if e == 'r' {
        Some(('\r', 2))
    } else if e == 't' {
        Some(('\t', 2))
    } else if e == 'b' {
        Some(('\x08', 2))
    } else if e == 'f' {
        Some(('\x0c', 2))
    } else if e == 'u' && cs.len() - i > 5 && cs[i + 2] == '0' && cs[i + 3] == '0' && (cs[i + 4]
        == '0' || cs[i + 4] == '1') {
        let h = hex_value_exec(cs[i + 5]);
        match h {
            None => None,
            Some(hv) => {
                let v: u32 = 16 * ((cs[i + 4] as u32) - 48) + hv;
                if v == 8 || v == 9 || v == 10 || v == 12 || v == 13 {
                    None
                } else {
                    Some(((v as u8) as char, 6))
                }
            },
        }
    } else {
        None
    }
}

/// Reads the body of a string literal from `cs[i]` up to and including its
/// closing quote.
fn read_body(cs: &Vec<char>, i: usize) -> (r: Option<(String, usize)>)
    ensures
        r matches Some((v, j)) ==> parse_body(cs@, i as int) == Some((v@, j as int)),
        r is None ==> parse_body(cs@, i as int) is None,
{
    let mut out = String::new();
    let mut p: usize = i;
    while p < cs.len() && cs[p] != '"'
        invariant
            i <= p,
            parse_body(cs@, i as int) == match parse_body(cs@, p as int) {
                Some((v, j)) => Some((out@ + v, j)),
                None => None::<(Seq<char>, int)>,
            },
        decreases cs.len() - p,
    {
        match unescape_exec(cs, p) {
            None => {
                return None;
            },
            Some((c, w)) => {
                proof {
                    match parse_body(cs@, p + w) {
                        Some((v, j)) => {
                            assert(out@.push(c) + v =~= out@ + (seq![c] + v));
                        },
                        None => {},
                    }
                }
                push_char(&mut out, c);
                p = p + w;
            },
        }
    }
    if p >= cs.len() {
        return None;
    }
    assert(out@ + Seq::<char>::empty() =~= out@);
    Some((out, p + 1))
}

/// Reads the field key `key`, then a string literal, at `cs[i]`.
fn read_field(cs: &Vec<char>, i: usize, key: &str) -> (r: Option<(String, usize)>)
    ensures
        r matches Some((v, j)) ==> parse_field(cs@, i as int, key@) == Some((v@, j as int)),
        r is None ==> parse_field(cs@, i as int, key@) is None,
{
    proof {
        reveal(parse_field);
    }
    if !has_at_exec(cs, i, key) {
        return None;
    }
    let n = key.unicode_len();
    if n > cs.len() - i {
        return None;
    }
    let q = i + n;
    if q < cs.len() && cs[q] == '"' {
        read_body(cs, q + 1)
    } else {
        None
    }
}

/// The executable literals of the encoding are its spec pieces.
proof fn lemma_literals()
    ensures
        "{\"id\":"@ == id_key(),
        ",\"image_path\":"@ == image_key(),
        ",\"result_path\":"@ == result_key(),
        ",\"predict_type\":"@ == kind_key(),
        "TYPE_ONE"@ == kind_name(PredictType::TypeOne),
        "TYPE_TWO"@ == kind_name(PredictType::TypeTwo),
{
    reveal_strlit("{\"id\":");
    reveal_strlit(",\"image_path\":");
    reveal_strlit(",\"result_path\":");
    reveal_strlit(",\"predict_type\":");
    reveal_strlit("TYPE_ONE");
    reveal_strlit("TYPE_TWO");
    assert("{\"id\":"@ =~= id_key());
    assert(",\"image_path\":"@ =~= image_key());
    assert(",\"result_path\":"@ =~= result_key());
    assert(",\"predict_type\":"@ =~= kind_key());
    assert("TYPE_ONE"@ =~= kind_name(PredictType::TypeOne));
    assert("TYPE_TWO"@ =~= kind_name(PredictType::TypeTwo));
}

/// Reads the record that `s` holds in the form of `encode`.
fn read_record(s: &str) -> (r: Option<InputMessage>)
    ensures
        r matches Some(m) ==> decode(s@) == Some(m@),
        r is None ==> decode(s@) is None,
{
    let cs = chars_of(s);
    proof {
        reveal(decode);
        lemma_literals();
    }
    let (id, i1) = match read_field(&cs, 0, "{\"id\":") {
        Some(f) => f,
        None => return None,
    };
    let (image_path, i2) = match read_field(&cs, i1, ",\"image_path\":") {
        Some(f) => f,
        None => return None,
    };
    let (result_path, i3) = match read_field(&cs, i2, ",\"result_path\":") {
        Some(f) => f,
        None => return None,
    };
    let (name, i4) = match read_field(&cs, i3, ",\"predict_type\":") {
        Some(f) => f,
        None => return None,
    };
    let predict_type = if name == String::from_str("TYPE_ONE") {
        PredictType::TypeOne
    } else if name == String::from_str("TYPE_TWO") {
        PredictType::TypeTwo
    } else {
        return None;
    };
    if !(i4 < cs.len() && i4 == cs.len() - 1 && cs[i4] == '}') {
        return None;
    }
    Some(InputMessage { id, image_path, result_path, predict_type })
}

impl InputMessage {
    /// The record whose encoding `s` is, if it is the encoding of one.
    pub fn from_json(s: &str) -> (r: Option<InputMessage>)
        ensures
            r matches Some(m) ==> encode(m@) == s@,
            r is None ==> forall|m: MessageView| #[trigger] encode(m) != s@,
    {
        let r = read_record(s);
        proof {
            if r is Some {
                lemma_decode_sound(s@);
            } else {
                assert forall|m: MessageView| #[trigger] encode(m) != s@ by {
                    if encode(m) == s@ {
                        lemma_round_trip(m);
                    }
                }
            }
        }
        r
    }

    /// The JSON text of the record, as it is stored in the buffer and
    /// published downstream.
    pub fn to_json(&self) -> (r: String)
        ensures
            r@ == encode(self@),
    {
        let mut out = String::new();
        out.append("{\"id\":");
        push_quoted(&mut out, self.id.as_str());
        out.append(",\"image_path\":");
        push_quoted(&mut out, self.image_path.as_str());
        out.append(",\"result_path\":");
        push_quoted(&mut out, self.result_path.as_str());
        out.append(",\"predict_type\":");
        match self.predict_type {
            PredictType::TypeOne => push_quoted(&mut out, "TYPE_ONE"),
            PredictType::TypeTwo => push_quoted(&mut out, "TYPE_TWO"),
        }
        push_char(&mut out, '}');
        proof {
            reveal(encode);
            lemma_literals();
            assert(out@ =~= encode(self@));
        }
        out
    }
}

} // verus!
