//! JSON encoding of a text value as a JSON string literal.
//!
//! The response body of the challenge echo must carry the challenge value
//! exactly, under JSON's escaping rules: `"` and `\` get a backslash, the
//! common control characters get their short escapes, and the remaining
//! control characters are written as `\u00XX`. Every other character,
//! unicode included, passes through unchanged.

use vstd::prelude::*;

verus! {

/// The hexadecimal digit character for a value below sixteen.
pub open spec fn hex_char(n: int) -> char {
    if n == 0 {
        '0'
    } else if n == 1 {
        '1'
    } else if n == 2 {
        '2'
    } else if n == 3 {
        '3'
    } else if n == 4 {
        '4'
    } else if n == 5 {
        '5'
    } else if n == 6 {
        '6'
    } else if n == 7 {
        '7'
    } else if n == 8 {
        '8'
    } else if n == 9 {
        '9'
    } else if n == 10 {
        'a'
    } else if n == 11 {
        'b'
    } else if n == 12 {
        'c'
    } else if n == 13 {
        'd'
    } else if n == 14 {
        'e'
    } else {
        'f'
    }
}

/// How one character is written inside a JSON string literal.
pub open spec fn escape_char(c: char) -> Seq<char> {
    if c == '"' {
        seq!['\\', '"']
    } else if c == '\\' {
        seq!['\\', '\\']
    } else if c == '\u{8}' {
        seq!['\\', 'b']
    } else if c == '\t' {
        seq!['\\', 't']
    } else if c == '\n' {
        seq!['\\', 'n']
    } else if c == '\u{c}' {
        seq!['\\', 'f']
    } else if c == '\r' {
        seq!['\\', 'r']
    } else if (c as u32) < 0x20 {
        seq!['\\', 'u', '0', '0', hex_char(c as u32 as int / 16), hex_char(c as u32 as int % 16)]
    } else {
        seq![c]
    }
}

/// The body of a JSON string literal: each character escaped in turn.
pub open spec fn escape_string(s: Seq<char>) -> Seq<char>
    decreases s.len(),
{
    if s.len() == 0 {
        Seq::empty()
    } else {
        escape_char(s[0]) + escape_string(s.drop_first())
    }
}

/// A complete JSON string literal: the escaped text between double quotes.
pub open spec fn json_string(s: Seq<char>) -> Seq<char> {
    seq!['"'] + escape_string(s) + seq!['"']
}

/// Relies on String::push: appends the given character at the end.
#[verifier::external_body]
fn push_char(s: &mut String, c: char)
    ensures
        final(s)@ == old(s)@.push(c),
{
    s.push(c);
}

/// The hexadecimal digit for a value below sixteen.
fn hex_char_exec(n: u32) -> (c: char)
    requires
        n < 16,
    ensures
        c == hex_char(n as int),
{
    if n == 0 {
        '0'
    } else if n == 1 {
        '1'
    } else if n == 2 {
        '2'
    } else if n == 3 {
        '3'
    } else if n == 4 {
        '4'
    } else if n == 5 {
        '5'
    } else if n == 6 {
        '6'
    } else if n == 7 {
        '7'
    } else if n == 8 {
        '8'
    } else if n == 9 {
        '9'
    } else if n == 10 {
        'a'
    } else if n == 11 {
        'b'
    } else if n == 12 {
        'c'
    } else if n == 13 {
        'd'
    } else if n == 14 {
        'e'
    } else {
        'f'
    }
}

/// Appends the escaped form of one character to the output.
fn push_escaped_char(out: &mut String, c: char)
    ensures
        final(out)@ == old(out)@ + escape_char(c),
{
    if c == '"' {
        push_char(out, '\\');
        push_char(out, '"');
    } else if c == '\\' {
        push_char(out, '\\');
        push_char(out, '\\');
    } else if c == '\u{8}' {
        push_char(out, '\\');
        push_char(out, 'b');
    } else if c == '\t' {
        push_char(out, '\\');
        push_char(out, 't');
    } else if c == '\n' {
        push_char(out, '\\');
        push_char(out, 'n');
    } else if c == '\u{c}' {
        push_char(out, '\\');
        push_char(out, 'f');
    } else if c == '\r' {
        push_char(out, '\\');
        push_char(out, 'r');
    } else if (c as u32) < 0x20 {
        let code = c as u32;
        push_char(out, '\\');
        push_char(out, 'u');
        push_char(out, '0');
        push_char(out, '0');
        push_char(out, hex_char_exec(code / 16));
        push_char(out, hex_char_exec(code % 16));
    } else {
        push_char(out, c);
    }
    proof {
        assert(out@ =~= old(out)@ + escape_char(c));
    }
}

/// How appending one character to the text extends its escaped form.
proof fn lemma_escape_string_push(s: Seq<char>, c: char)
    ensures
        escape_string(s.push(c)) == escape_string(s) + escape_char(c),
    decreases s.len(),
{
    if s.len() == 0 {
        assert(s.push(c)[0] == c);
        assert(s.push(c).drop_first() =~= Seq::<char>::empty());
        assert(escape_string(Seq::<char>::empty()) == Seq::<char>::empty());
        assert(escape_string(s.push(c)) == escape_char(c) + escape_string(s.push(c).drop_first()));
        assert(escape_string(s.push(c)) =~= escape_string(s) + escape_char(c));
    } else {
        assert(s.push(c)[0] == s[0]);
        assert(s.push(c).drop_first() =~= s.drop_first().push(c));
        lemma_escape_string_push(s.drop_first(), c);
        assert(escape_string(s.push(c)) == escape_char(s[0]) + (escape_string(s.drop_first())
            + escape_char(c)));
        assert(escape_char(s[0]) + (escape_string(s.drop_first()) + escape_char(c)) =~= (escape_char(
            s[0],
        ) + escape_string(s.drop_first())) + escape_char(c));
        assert(escape_string(s.push(c)) =~= escape_string(s) + escape_char(c));
    }
}

/// A character that passes into the literal unchanged.
pub open spec fn is_plain(c: char) -> bool {
    c != '"' && c != '\\' && (c as u32) >= 0x20
}

/// No escape form is empty, and an escape form opens with a backslash
/// exactly when the character does not pass through unchanged.
proof fn lemma_escape_char_shape(c: char)
    ensures
        escape_char(c).len() >= 1,
        is_plain(c) ==> escape_char(c) == seq![c],
        !is_plain(c) ==> escape_char(c).len() >= 2 && escape_char(c)[0] == '\\',
{
}

/// Escape forms make a prefix code: whenever two escaped streams agree,
/// the leading characters agree and so do the remainders.
proof fn lemma_escape_char_prefix(c1: char, c2: char, t1: Seq<char>, t2: Seq<char>)
    requires
        escape_char(c1) + t1 == escape_char(c2) + t2,
    ensures
        c1 == c2,
        t1 == t2,
{
    let e1 = escape_char(c1);
    let e2 = escape_char(c2);
    lemma_escape_char_shape(c1);
    lemma_escape_char_shape(c2);
    assert((e1 + t1)[0] == e1[0]);
    assert((e2 + t2)[0] == e2[0]);
    if is_plain(c1) && is_plain(c2) {
        assert(c1 == c2);
    } else if is_plain(c1) != is_plain(c2) {
        assert(e1[0] == e2[0]);
        assert(false);
    } else {
        assert((e1 + t1)[1] == e1[1]);
        assert((e2 + t2)[1] == e2[1]);
        assert(e1[1] == e2[1]);
        if e1[1] == 'u' {
            assert(e1.len() == 6 && e2.len() == 6);
            assert((e1 + t1)[4] == e1[4] && (e1 + t1)[5] == e1[5]);
            assert((e2 + t2)[4] == e2[4] && (e2 + t2)[5] == e2[5]);
            assert(hex_char(c1 as u32 as int / 16) == hex_char(c2 as u32 as int / 16));
            assert(hex_char(c1 as u32 as int % 16) == hex_char(c2 as u32 as int % 16));
            assert(c1 as u32 / 16 == c2 as u32 / 16);
            assert(c1 as u32 % 16 == c2 as u32 % 16);
            assert(c1 as u32 == c2 as u32);
            assert(c1 == c2);
        } else {
            assert(e1.len() == 2 && e2.len() == 2);
            assert(c1 == c2);
        }
    }
    assert(e1.len() == e2.len());
    assert(t1 =~= (e1 + t1).subrange(e1.len() as int, (e1 + t1).len() as int));
    assert(t2 =~= (e2 + t2).subrange(e2.len() as int, (e2 + t2).len() as int));
}

/// Escaping is lossless: two texts with the same escaped form are the
/// same text, so the escaped form determines the original exactly.
pub proof fn lemma_escape_string_injective(a: Seq<char>, b: Seq<char>)
    requires
        escape_string(a) == escape_string(b),
    ensures
        a == b,
    decreases a.len(),
{
    if a.len() == 0 || b.len() == 0 {
        if a.len() != 0 {
            lemma_escape_char_shape(a[0]);
            assert(escape_string(a).len() >= 1);
            assert(false);
        }
        if b.len() != 0 {
            lemma_escape_char_shape(b[0]);
            assert(escape_string(b).len() >= 1);
            assert(false);
        }
        assert(a =~= b);
    } else {
        lemma_escape_char_prefix(
            a[0],
            b[0],
            escape_string(a.drop_first()),
            escape_string(b.drop_first()),
        );
        lemma_escape_string_injective(a.drop_first(), b.drop_first());
        assert(a.drop_first() == b.drop_first());
        assert(a.len() == b.len());
        assert forall|i: int| 0 <= i < a.len() implies a[i] == b[i] by {
            if i > 0 {
                assert(a[i] == a.drop_first()[i - 1]);
                assert(b[i] == b.drop_first()[i - 1]);
            }
        }
        assert(a =~= b);
    }
}

/// Writes a text value as a JSON string literal, quotes and escapes included.
pub fn encode_json_string(s: &str) -> (r: String)
    ensures
        r@ == json_string(s@),
{
    let n = s.unicode_len();
    let mut out = String::new();
    push_char(&mut out, '"');
    let mut i: usize = 0;
    while i < n
        invariant
            n == s@.len(),
            i <= n,
            out@ == seq!['"'] + escape_string(s@.take(i as int)),
        decreases n - i,
    {
        let c = s.get_char(i);
        push_escaped_char(&mut out, c);
        proof {
            lemma_escape_string_push(s@.take(i as int), c);
            assert(s@.take(i as int + 1) =~= s@.take(i as int).push(s@[i as int]));
            assert(seq!['"'] + escape_string(s@.take(i as int)) + escape_char(c) =~= seq!['"']
                + escape_string(s@.take(i as int + 1)));
        }
        i = i + 1;
    }
    push_char(&mut out, '"');
    proof {
        assert(s@.take(n as int) =~= s@);
        assert(out@ =~= json_string(s@));
    }
    out
}

} // verus!
