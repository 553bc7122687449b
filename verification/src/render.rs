//! Serialization: stable pretty-printing with two-space indentation, no
//! trailing newline, and object members emitted in the order they are held
//! (the parser and the merge keep that order lexicographic), plus the
//! escaping applied to freshly embedded path strings.

use vstd::prelude::*;

use crate::json::{jv, jv_members, jv_seq, Json, JsonV};

verus! {

pub open spec fn hex_digit(n: u32) -> char {
    if n == 0 {
        '0'
    } else if n == 1 {
        '1'
    } else if n == 2 {
        '2'
    } else if n == 3 {
        '3'
    } else if n == 4 {
        '4'
    } else if n == 5 {
        '5'
    } else if n == 6 {
        '6'
    } else if n == 7 {
        '7'
    } else if n == 8 {
        '8'
    } else if n == 9 {
        '9'
    } else if n == 10 {
        'a'
    } else if n == 11 {
        'b'
    } else if n == 12 {
        'c'
    } else if n == 13 {
        'd'
    } else if n == 14 {
        'e'
    } else {
        'f'
    }
}

/// How one character of an embedded string is written: quote, backslash and
/// control characters are escaped, everything else stands as itself.
pub open spec fn esc_char(c: char) -> Seq<char> {
    if c == '"' {
        seq!['\\', '"']
    } else if c == '\\' {
        seq!['\\', '\\']
    } else if c == '\x08' {
        seq!['\\', 'b']
    } else if c == '\t' {
        seq!['\\', 't']
    } else if c == '\n' {
        seq!['\\', 'n']
    } else if c == '\x0c' {
        seq!['\\', 'f']
    } else if c == '\r' {
        seq!['\\', 'r']
    } else if (c as u32) < 0x20 {
        seq!['\\', 'u', '0', '0', hex_digit((c as u32) / 16), hex_digit((c as u32) % 16)]
    } else {
        seq![c]
    }
}

/// The string-body text that stands for the character sequence `s`.
pub open spec fn esc(s: Seq<char>) -> Seq<char>
    decreases s.len(),
{
    if s.len() == 0 {
        Seq::empty()
    } else {
        esc_char(s[0]) + esc(s.drop_first())
    }
}

pub proof fn lemma_esc_concat(a: Seq<char>, b: Seq<char>)
    ensures
        esc(a + b) == esc(a) + esc(b),
    decreases a.len(),
{
    if a.len() == 0 {
        assert(a + b =~= b);
        assert(esc(a) =~= Seq::<char>::empty());
        assert(esc(a) + esc(b) =~= esc(b));
    } else {
        assert((a + b).drop_first() =~= a.drop_first() + b);
        lemma_esc_concat(a.drop_first(), b);
        assert((a + b)[0] == a[0]);
        assert(esc_char(a[0]) + (esc(a.drop_first()) + esc(b)) =~= (esc_char(a[0]) + esc(
            a.drop_first(),
        )) + esc(b));
    }
}

fn hex_digit_char(n: u32) -> (r: char)
    ensures
        r == hex_digit(n),
{
    if n == 0 {
        '0'
    } else if n == 1 {
        '1'
    } else if n == 2 {
        '2'
    } else if n == 3 {
        '3'
    } else if n == 4 {
        '4'
    } else if n == 5 {
        '5'
    } else if n == 6 {
        '6'
    } else if n == 7 {
        '7'
    } else if n == 8 {
        '8'
    } else if n == 9 {
        '9'
    } else if n == 10 {
        'a'
    } else if n == 11 {
        'b'
    } else if n == 12 {
        'c'
    } else if n == 13 {
        'd'
    } else if n == 14 {
        'e'
    } else {
        'f'
    }
}

/// Escapes a path string for embedding as a string body.
pub fn escape_text(s: &Vec<char>) -> (r: Vec<char>)
    ensures
        r@ == esc(s@),
{
    let mut r: Vec<char> = Vec::new();
    let mut p: usize = 0;
    proof {
        assert(s@.subrange(0, 0) =~= Seq::<char>::empty());
        assert(r@ =~= esc(s@.subrange(0, 0)));
    }
    while p < s.len()
        invariant
            p <= s.len(),
            r@ == esc(s@.subrange(0, p as int)),
        decreases s.len() - p,
    {
        let c = s[p];
        if c == '"' {
            r.push('\\');
            r.push('"');
        } else if c == '\\' {
            r.push('\\');
            r.push('\\');
        } else if c == '\x08' {
            r.push('\\');
            r.push('b');
        } else if c == '\t' {
            r.push('\\');
            r.push('t');
        } else if c == '\n' {
            r.push('\\');
            r.push('n');
        } else if c == '\x0c' {
            r.push('\\');
            r.push('f');
        } else if c == '\r' {
            r.push('\\');
            r.push('r');
        } else if (c as u32) < 0x20 {
            r.push('\\');
            r.push('u');
            r.push('0');
            r.push('0');
            r.push(hex_digit_char((c as u32) / 16));
            r.push(hex_digit_char((c as u32) % 16));
        } else {
            r.push(c);
        }
        proof {
            lemma_esc_concat(s@.subrange(0, p as int), seq![s@[p as int]]);
            assert(s@.subrange(0, p + 1) =~= s@.subrange(0, p as int) + seq![s@[p as int]]);
            assert(esc(seq![s@[p as int]]) =~= esc_char(s@[p as int]) + esc(
                seq![s@[p as int]].drop_first(),
            ));
            assert(seq![s@[p as int]].drop_first() =~= Seq::<char>::empty());
            assert(esc(Seq::<char>::empty()) =~= Seq::<char>::empty());
            assert(esc(seq![s@[p as int]]) =~= esc_char(s@[p as int]));
            assert(r@ =~= esc(s@.subrange(0, p + 1)));
        }
        p = p + 1;
    }
    proof {
        assert(s@.subrange(0, s@.len() as int) =~= s@);
    }
    r
}

pub open spec fn two_spaces() -> Seq<char> {
    seq![' ', ' ']
}

/// The pretty-printed text of a value placed at indentation `pad`.
pub open spec fn render(v: JsonV, pad: Seq<char>) -> Seq<char>
    decreases v, 0int,
{
    match v {
        JsonV::Null => seq!['n', 'u', 'l', 'l'],
        JsonV::Bool(b) => if b {
            seq!['t', 'r', 'u', 'e']
        } else {
            seq!['f', 'a', 'l', 's', 'e']
        },
        JsonV::Num(tok) => tok,
        JsonV::Str(body) => seq!['"'] + body + seq!['"'],
        JsonV::Arr(items) => if items.len() == 0 {
            seq!['[', ']']
        } else {
            seq!['['] + render_items(items, pad + two_spaces()) + seq!['\n'] + pad + seq![']']
        },
        JsonV::Obj(ms) => if ms.len() == 0 {
            seq!['{', '}']
        } else {
            seq!['{'] + render_members(ms, pad + two_spaces()) + seq!['\n'] + pad + seq!['}']
        },
    }
}

/// Array elements: each on its own indented line, separated by commas.
pub open spec fn render_items(items: Seq<JsonV>, pad: Seq<char>) -> Seq<char>
    decreases items, 1int,
{
    if items.len() == 0 {
        Seq::empty()
    } else {
        let first = seq!['\n'] + pad + render(items[0], pad);
        if items.len() == 1 {
            first
        } else {
            first + seq![','] + render_items(items.drop_first(), pad)
        }
    }
}

/// Object members: each `"key": value` on its own indented line, separated
/// by commas.
pub open spec fn render_members(ms: Seq<(Seq<char>, JsonV)>, pad: Seq<char>) -> Seq<char>
    decreases ms, 1int,
{
    if ms.len() == 0 {
        Seq::empty()
    } else {
        let first = seq!['\n'] + pad + seq!['"'] + ms[0].0 + seq!['"', ':', ' '] + render(
            ms[0].1,
            pad,
        );
        if ms.len() == 1 {
            first
        } else {
            first + seq![','] + render_members(ms.drop_first(), pad)
        }
    }
}

/// Appends every character of `s`.
fn push_all(out: &mut Vec<char>, s: &Vec<char>)
    ensures
        final(out)@ == old(out)@ + s@,
{
    let mut p: usize = 0;
    proof {
        assert(out@ =~= old(out)@ + s@.subrange(0, 0));
    }
    while p < s.len()
        invariant
            p <= s.len(),
            out@ == old(out)@ + s@.subrange(0, p as int),
        decreases s.len() - p,
    {
        out.push(s[p]);
        proof {
            assert(old(out)@ + s@.subrange(0, p + 1) =~= (old(out)@ + s@.subrange(0, p as int)).push(
                s@[p as int],
            ));
        }
        p = p + 1;
    }
    proof {
        assert(s@.subrange(0, s@.len() as int) =~= s@);
    }
}

/// Writes the pretty-printed text of `j` at indentation `pad`.
fn write_value(out: &mut Vec<char>, j: &Json, pad: &Vec<char>)
    ensures
        final(out)@ == old(out)@ + render(jv(*j), pad@),
    decreases *j, 0int,
{
    match j {
        Json::Null => {
            out.push('n');
            out.push('u');
            out.push('l');
            out.push('l');
            proof {
                assert(out@ =~= old(out)@ + render(jv(*j), pad@));
            }
        },
        Json::Bool(b) => {
            if *b {
                out.push('t');
                out.push('r');
                out.push('u');
                out.push('e');
            } else {
                out.push('f');
                out.push('a');
                out.push('l');
                out.push('s');
                out.push('e');
            }
            proof {
                assert(out@ =~= old(out)@ + render(jv(*j), pad@));
            }
        },
        Json::Num(tok) => {
            push_all(out, tok);
            proof {
                assert(out@ =~= old(out)@ + render(jv(*j), pad@));
            }
        },
        Json::Str(body) => {
            out.push('"');
            push_all(out, body);
            out.push('"');
            proof {
                assert(out@ =~= old(out)@ + (seq!['"'] + body@ + seq!['"']));
            }
        },
        Json::Arr(items) => {
            if items.len() == 0 {
                out.push('[');
                out.push(']');
                proof {
                    assert(jv_seq(items@).len() == 0) by {
                        crate::json::lemma_jv_seq_len(items@);
                    }
                    assert(out@ =~= old(out)@ + render(jv(*j), pad@));
                }
            } else {
                let pad2 = extend_pad(pad);
                out.push('[');
                write_items(out, items, 0, &pad2);
                out.push('\n');
                push_all(out, pad);
                out.push(']');
                proof {
                    crate::json::lemma_jv_seq_len(items@);
                    assert(jv_seq(items@).subrange(0, jv_seq(items@).len() as int) =~= jv_seq(
                        items@,
                    ));
                    assert(out@ =~= old(out)@ + (seq!['['] + render_items(
                        jv_seq(items@),
                        pad@ + two_spaces(),
                    ) + seq!['\n'] + pad@ + seq![']']));
                }
            }
        },
        Json::Obj(ms) => {
            if ms.len() == 0 {
                out.push('{');
                out.push('}');
                proof {
                    assert(jv_members(ms@).len() == 0) by {
                        crate::json::lemma_jv_members_len(ms@);
                    }
                    assert(out@ =~= old(out)@ + render(jv(*j), pad@));
                }
            } else {
                let pad2 = extend_pad(pad);
                out.push('{');
                write_members(out, ms, 0, &pad2);
                out.push('\n');
                push_all(out, pad);
                out.push('}');
                proof {
                    crate::json::lemma_jv_members_len(ms@);
                    assert(jv_members(ms@).subrange(0, jv_members(ms@).len() as int) =~= jv_members(
                        ms@,
                    ));
                    assert(out@ =~= old(out)@ + (seq!['{'] + render_members(
                        jv_members(ms@),
                        pad@ + two_spaces(),
                    ) + seq!['\n'] + pad@ + seq!['}']));
                }
            }
        },
    }
}

/// Writes elements `idx..` of an array body.
fn write_items(out: &mut Vec<char>, items: &Vec<Json>, idx: usize, pad: &Vec<char>)
    requires
        idx < items.len(),
    ensures
        final(out)@ == old(out)@ + render_items(
            jv_seq(items@).subrange(idx as int, items@.len() as int),
            pad@,
        ),
    decreases *items, 1int, items.len() - idx,
{
    proof {
        crate::json::lemma_jv_seq_len(items@);
        crate::json::lemma_jv_seq_index(items@, idx as int);
    }
    let ghost sub = jv_seq(items@).subrange(idx as int, items@.len() as int);
    out.push('\n');
    push_all(out, pad);
    write_value(out, &items[idx], pad);
    if idx + 1 < items.len() {
        out.push(',');
        write_items(out, items, idx + 1, pad);
        proof {
            assert(sub[0] == jv(items@[idx as int]));
            assert(sub.drop_first() =~= jv_seq(items@).subrange(
                idx as int + 1,
                items@.len() as int,
            ));
            assert(render_items(sub, pad@) == (seq!['\n'] + pad@ + render(sub[0], pad@)) + seq![',']
                + render_items(sub.drop_first(), pad@));
            assert(out@ =~= old(out)@ + render_items(sub, pad@));
        }
    } else {
        proof {
            assert(sub.len() == 1);
            assert(sub[0] == jv(items@[idx as int]));
            assert(render_items(sub, pad@) == seq!['\n'] + pad@ + render(sub[0], pad@));
            assert(out@ =~= old(out)@ + render_items(sub, pad@));
        }
    }
}

/// Writes members `idx..` of an object body.
fn write_members(out: &mut Vec<char>, ms: &Vec<(Vec<char>, Json)>, idx: usize, pad: &Vec<char>)
    requires
        idx < ms.len(),
    ensures
        final(out)@ == old(out)@ + render_members(
            jv_members(ms@).subrange(idx as int, ms@.len() as int),
            pad@,
        ),
    decreases *ms, 1int, ms.len() - idx,
{
    proof {
        crate::json::lemma_jv_members_len(ms@);
        crate::json::lemma_jv_members_index(ms@, idx as int);
    }
    let ghost sub = jv_members(ms@).subrange(idx as int, ms@.len() as int);
    out.push('\n');
    push_all(out, pad);
    out.push('"');
    push_all(out, &ms[idx].0);
    out.push('"');
    out.push(':');
    out.push(' ');
    write_value(out, &ms[idx].1, pad);
    if idx + 1 < ms.len() {
        out.push(',');
        write_members(out, ms, idx + 1, pad);
        proof {
            assert(sub[0] == (ms@[idx as int].0@, jv(ms@[idx as int].1)));
            assert(sub.drop_first() =~= jv_members(ms@).subrange(idx as int + 1, ms@.len() as int));
            assert(render_members(sub, pad@) == (seq!['\n'] + pad@ + seq!['"'] + sub[0].0 + seq![
                '"',
                ':',
                ' ',
            ] + render(sub[0].1, pad@)) + seq![','] + render_members(sub.drop_first(), pad@));
            assert(out@ =~= old(out)@ + render_members(sub, pad@));
        }
    } else {
        proof {
            assert(sub.len() == 1);
            assert(sub[0] == (ms@[idx as int].0@, jv(ms@[idx as int].1)));
            assert(render_members(sub, pad@) == seq!['\n'] + pad@ + seq!['"'] + sub[0].0 + seq![
                '"',
                ':',
                ' ',
            ] + render(sub[0].1, pad@));
            assert(out@ =~= old(out)@ + render_members(sub, pad@));
        }
    }
}

/// A copy of `pad` grown by one indentation step.
fn extend_pad(pad: &Vec<char>) -> (r: Vec<char>)
    ensures
        r@ == pad@ + two_spaces(),
{
    let mut r: Vec<char> = Vec::new();
    push_all(&mut r, pad);
    r.push(' ');
    r.push(' ');
    proof {
        assert(Seq::<char>::empty() + pad@ =~= pad@);
        assert(r@ =~= pad@ + two_spaces());
    }
    r
}

/// The pretty-printed text of a whole document.
pub fn render_doc(j: &Json) -> (r: Vec<char>)
    ensures
        r@ == render(jv(*j), Seq::empty()),
{
    let mut out: Vec<char> = Vec::new();
    let pad: Vec<char> = Vec::new();
    write_value(&mut out, j, &pad);
    proof {
        assert(Seq::<char>::empty() + render(jv(*j), pad@) =~= render(jv(*j), Seq::empty()));
    }
    out
}

} // verus!
