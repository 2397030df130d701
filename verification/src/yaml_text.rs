//! Double-quoted YAML scalars: how frontmatter values are written so that
//! any text reads back unchanged and stays on one line.
use vstd::prelude::*;

verus! {

/// Characters written as a `\uXXXX` escape: control characters, the
/// C1 range, the Unicode line and paragraph separators, the byte-order mark
/// and the two non-characters at the end of the basic plane.
pub open spec fn needs_unicode_escape(c: char) -> bool {
    let u = c as u32;
    u < 0x20 || (0x7f <= u && u <= 0x9f) || u == 0x2028 || u == 0x2029 || u == 0xfeff || u == 0xfffe
        || u == 0xffff
}

/// The lower-case hexadecimal digit for `d` (0 to 15).
pub open spec fn hex_digit(d: int) -> char {
    if d < 10 {
        (48 + d) as char
    } else {
        (87 + d) as char
    }
}

/// How one character is written inside double quotes.
pub open spec fn escape_char(c: char) -> Seq<char> {
    if c == '"' {
        seq!['\\', '"']
    } else if c == '\\' {
        seq!['\\', '\\']
    } else if needs_unicode_escape(c) {
        let u = c as u32 as int;
        seq!['\\', 'u', hex_digit(u / 4096), hex_digit((u / 256) % 16), hex_digit((u / 16) % 16), hex_digit(u % 16)]
    } else {
        seq![c]
    }
}

/// The escaped form of a text.
pub open spec fn spec_escape(s: Seq<char>) -> Seq<char>
    decreases s.len(),
{
    if s.len() == 0 {
        Seq::empty()
    } else {
        spec_escape(s.drop_last()) + escape_char(s.last())
    }
}

/// A text as a double-quoted YAML scalar.
pub open spec fn yaml_quoted(s: Seq<char>) -> Seq<char> {
    seq!['"'] + spec_escape(s) + seq!['"']
}

/// How an escaped text is read back: `\"`, `\\` and `\uXXXX` stand for one
/// character each, anything else for itself.
pub open spec fn spec_unescape(e: Seq<char>) -> Seq<char>
    decreases e.len(),
{
    if e.len() == 0 {
        Seq::empty()
    } else if e[0] == '\\' && e.len() >= 2 && (e[1] == '"' || e[1] == '\\') {
        seq![e[1]] + spec_unescape(e.subrange(2, e.len() as int))
    } else if e[0] == '\\' && e.len() >= 6 && e[1] == 'u' {
        let v = hex_value(e[2]) * 4096 + hex_value(e[3]) * 256 + hex_value(e[4]) * 16 + hex_value(e[5]);
        seq![v as char] + spec_unescape(e.subrange(6, e.len() as int))
    } else {
        seq![e[0]] + spec_unescape(e.drop_first())
    }
}

/// The value of a lower-case hexadecimal digit.
pub open spec fn hex_value(c: char) -> int {
    if '0' <= c <= '9' {
        c as int - 48
    } else {
        c as int - 87
    }
}

proof fn lemma_escape_char_props(c: char)
    ensures
        escape_char(c).len() > 0,
        !escape_char(c).contains('\n'),
        !escape_char(c).contains('"') || escape_char(c) == seq!['\\', '"'],
        spec_unescape(escape_char(c)) == seq![c],
{
    let e = escape_char(c);
    lemma_unescape_step(e, Seq::empty(), c);
    assert(e + Seq::<char>::empty() =~= e);
    assert(seq![c] + spec_unescape(Seq::<char>::empty()) =~= seq![c]);
    if needs_unicode_escape(c) && c != '"' && c != '\\' {
        assert forall|i: int| 0 <= i < e.len() implies e[i] != '\n' && e[i] != '"' by {
            if i >= 2 {
                assert(e[i] as u32 >= 48);
            }
        };
    }
}

/// Reading an escaped text from its start: the escape of `s` followed by
/// the escape of one more character reads back as `s` and that character.
proof fn lemma_unescape_escape(s: Seq<char>)
    ensures
        spec_unescape(spec_escape(s)) == s,
        !spec_escape(s).contains('\n'),
    decreases s.len(),
{
    if s.len() > 0 {
        lemma_unescape_prefix(spec_escape(s.drop_last()), s.drop_last(), s.last());
        lemma_unescape_escape(s.drop_last());
        lemma_escape_char_props(s.last());
        let a = spec_escape(s.drop_last());
        let b = escape_char(s.last());
        assert forall|i: int| 0 <= i < (a + b).len() implies (a + b)[i] != '\n' by {
            if i < a.len() {
                assert((a + b)[i] == a[i]);
            } else {
                assert((a + b)[i] == b[i - a.len()]);
            }
        };
        assert(s.drop_last().push(s.last()) =~= s);
    }
}

/// The escape of `t` followed by the escape of `c` reads back as `t` then
/// `c`, given that the escape of `t` reads back as `t`.
proof fn lemma_unescape_prefix(e: Seq<char>, t: Seq<char>, c: char)
    ensures
        e == spec_escape(t) ==> spec_unescape(e + escape_char(c)) == spec_unescape(e) + seq![c],
    decreases t.len(),
{
    if e == spec_escape(t) {
        lemma_escape_char_props(c);
        if t.len() == 0 {
            assert(e =~= Seq::<char>::empty());
            assert(e + escape_char(c) =~= escape_char(c));
            assert(spec_unescape(e) =~= Seq::<char>::empty());
            assert(Seq::<char>::empty() + seq![c] =~= seq![c]);
        } else {
            // The escape of `t` is the escape of its first character
            // followed by the escape of the rest.
            lemma_escape_front(t);
            let h = escape_char(t[0]);
            let r = spec_escape(t.drop_first());
            assert(e == h + r);
            lemma_unescape_prefix(r, t.drop_first(), c);
            lemma_unescape_step(h, r + escape_char(c), t[0]);
            lemma_unescape_step(h, r, t[0]);
            assert(e + escape_char(c) =~= h + (r + escape_char(c)));
            assert(seq![t[0]] + (spec_unescape(r) + seq![c]) =~= (seq![t[0]] + spec_unescape(r)) + seq![c]);
        }
    }
}

/// The escape of a text is the escape of its first character followed by
/// the escape of the rest.
proof fn lemma_escape_front(t: Seq<char>)
    requires
        t.len() > 0,
    ensures
        spec_escape(t) == escape_char(t[0]) + spec_escape(t.drop_first()),
    decreases t.len(),
{
    if t.len() == 1 {
        assert(t.drop_last() =~= Seq::<char>::empty());
        assert(t.drop_first() =~= Seq::<char>::empty());
        assert(escape_char(t[0]) + Seq::<char>::empty() =~= escape_char(t[0]));
        assert(Seq::<char>::empty() + escape_char(t[0]) =~= escape_char(t[0]));
    } else {
        lemma_escape_front(t.drop_last());
        assert(t.drop_last().drop_first() =~= t.drop_first().drop_last());
        assert(t.drop_first().last() == t.last());
        assert(t.drop_last()[0] == t[0]);
        assert(escape_char(t[0]) + spec_escape(t.drop_first().drop_last()) + escape_char(t.last()) =~= escape_char(t[0]) + (spec_escape(t.drop_first().drop_last()) + escape_char(t.last())));
    }
}

/// Reading back an escaped character followed by more text.
proof fn lemma_unescape_step(h: Seq<char>, rest: Seq<char>, c: char)
    requires
        h == escape_char(c),
    ensures
        spec_unescape(h + rest) == seq![c] + spec_unescape(rest),
{
    let x = h + rest;
    if c == '"' || c == '\\' {
        assert(x[0] == '\\' && x[1] == c);
        assert(x.subrange(2, x.len() as int) =~= rest);
    } else if needs_unicode_escape(c) {
        let u = c as u32 as int;
        assert(x[0] == '\\' && x[1] == 'u');
        assert(hex_value(hex_digit(u / 4096)) == u / 4096);
        assert(hex_value(hex_digit((u / 256) % 16)) == (u / 256) % 16);
        assert(hex_value(hex_digit((u / 16) % 16)) == (u / 16) % 16);
        assert(hex_value(hex_digit(u % 16)) == u % 16);
        assert((u / 4096) * 4096 + ((u / 256) % 16) * 256 + ((u / 16) % 16) * 16 + u % 16 == u) by (nonlinear_arith)
            requires
                0 <= u < 0x10000,
        ;
        assert(x.subrange(6, x.len() as int) =~= rest);
    } else {
        assert(x[0] == c);
        assert(x.drop_first() =~= rest);
    }
}

/// Quoting is undone by reading back, and a quoted text is one line whose
/// only unescaped quotes are the two that enclose it.
pub proof fn lemma_quoted_roundtrip(s: Seq<char>)
    ensures
        spec_unescape(spec_escape(s)) == s,
        !yaml_quoted(s).contains('\n'),
        yaml_quoted(s)[0] == '"',
{
    lemma_unescape_escape(s);
    let q = yaml_quoted(s);
    let e = spec_escape(s);
    assert forall|i: int| 0 <= i < q.len() implies q[i] != '\n' by {
        if 0 < i < q.len() - 1 {
            assert(q[i] == e[i - 1]);
        }
    };
}

fn hex_char(d: u32) -> (r: char)
    requires
        d < 16,
    ensures
        r == hex_digit(d as int),
{
    let b: u8 = if d < 10 {
        48 + d as u8
    } else {
        87 + d as u8
    };
    b as char
}

/// Appends the escaped form of `c`.
fn push_escaped(out: &mut Vec<char>, c: char)
    ensures
        final(out)@ == old(out)@ + escape_char(c),
{
    let ghost start = out@;
    if c == '"' {
        out.push('\\');
        out.push('"');
        assert(out@ =~= start + escape_char(c));
    } else if c == '\\' {
        out.push('\\');
        out.push('\\');
        assert(out@ =~= start + escape_char(c));
    } else {
        let u = c as u32;
        if u < 0x20 || (0x7f <= u && u <= 0x9f) || u == 0x2028 || u == 0x2029 || u == 0xfeff || u == 0xfffe
            || u == 0xffff {
            assert(u < 0x10000);
            out.push('\\');
            out.push('u');
            out.push(hex_char(u / 4096));
            out.push(hex_char((u / 256) % 16));
            out.push(hex_char((u / 16) % 16));
            out.push(hex_char(u % 16));
            assert(out@ =~= start + escape_char(c));
        } else {
            out.push(c);
            assert(out@ =~= start + escape_char(c));
        }
    }
}

/// Appends `s` as a double-quoted YAML scalar.
pub fn push_quoted(out: &mut Vec<char>, s: &str)
    ensures
        final(out)@ == old(out)@ + yaml_quoted(s@),
{
    let v = crate::text::str_chars(s);
    let ghost start = out@;
    out.push('"');
    let mut i: usize = 0;
    while i < v.len()
        invariant
            i <= v@.len(),
            out@ == start + seq!['"'] + spec_escape(v@.subrange(0, i as int)),
        decreases v@.len() - i,
    {
        assert(v@.subrange(0, i + 1).drop_last() =~= v@.subrange(0, i as int));
        assert(v@.subrange(0, i + 1).last() == v@[i as int]);
        push_escaped(out, v[i]);
        i += 1;
        assert(out@ =~= start + seq!['"'] + spec_escape(v@.subrange(0, i as int)));
    }
    assert(v@.subrange(0, v@.len() as int) =~= s@);
    out.push('"');
    assert(out@ =~= start + yaml_quoted(s@));
}

} // verus!
