//! The document grammar and its parser.
//!
//! The spec functions in this module are the grammar: they define, character
//! by character, which texts are valid documents and which value each text
//! denotes. The executable parser mirrors them and is proved to return
//! exactly what they prescribe. String bodies and number tokens are kept in
//! source form and validated, not decoded.

use vstd::prelude::*;

use crate::json::{
    jv, jv_members, jv_seq, lemma_obj_get_objs_sorted, lemma_objs_sorted_members_drop_last,
    lemma_objs_sorted_members_put, lemma_put_sorted, objs_sorted, objs_sorted_members,
    objs_sorted_seq, put, sorted_members, Json, JsonV,
};

verus! {

pub open spec fn is_ws(c: char) -> bool {
    c == ' ' || c == '\n' || c == '\r' || c == '\t'
}

pub open spec fn is_digit(c: char) -> bool {
    ('0' as u32) <= (c as u32) && (c as u32) <= ('9' as u32)
}

pub open spec fn is_hex(c: char) -> bool {
    is_digit(c) || (('a' as u32) <= (c as u32) && (c as u32) <= ('f' as u32)) || (('A' as u32) <= (
    c as u32) && (c as u32) <= ('F' as u32))
}

pub open spec fn is_escape_char(c: char) -> bool {
    c == '"' || c == '\\' || c == '/' || c == 'b' || c == 'f' || c == 'n' || c == 'r' || c == 't'
        || c == 'u'
}

/// Length of the whitespace run starting at `i`.
pub open spec fn ws_len(t: Seq<char>, i: int) -> nat
    decreases t.len() - i,
{
    if 0 <= i < t.len() && is_ws(t[i]) {
        (1 + ws_len(t, i + 1)) as nat
    } else {
        0
    }
}

/// Length of the digit run starting at `i`.
pub open spec fn digits_len(t: Seq<char>, i: int) -> nat
    decreases t.len() - i,
{
    if 0 <= i < t.len() && is_digit(t[i]) {
        (1 + digits_len(t, i + 1)) as nat
    } else {
        0
    }
}

/// The body of a string literal, read from just after the opening quote:
/// returns the raw body text and the position after the closing quote.
pub open spec fn scan_string(t: Seq<char>, i: int) -> Option<(Seq<char>, int)>
    decreases t.len() - i,
{
    if 0 <= i < t.len() {
        let c = t[i];
        if c == '"' {
            Some((Seq::empty(), i + 1))
        } else if c == '\\' {
            if i + 1 < t.len() && is_escape_char(t[i + 1]) {
                if t[i + 1] == 'u' {
                    if i + 5 < t.len() && is_hex(t[i + 2]) && is_hex(t[i + 3]) && is_hex(t[i + 4])
                        && is_hex(t[i + 5]) {
                        match scan_string(t, i + 6) {
                            Some((rest, j)) => Some((t.subrange(i, i + 6) + rest, j)),
                            None => None,
                        }
                    } else {
                        None
                    }
                } else {
                    match scan_string(t, i + 2) {
                        Some((rest, j)) => Some((seq![c, t[i + 1]] + rest, j)),
                        None => None,
                    }
                }
            } else {
                None
            }
        } else if (c as u32) < 0x20 {
            None
        } else {
            match scan_string(t, i + 1) {
                Some((rest, j)) => Some((seq![c] + rest, j)),
                None => None,
            }
        }
    } else {
        None
    }
}

/// A number token starting at `i`: optional minus, integer part, optional
/// fraction, optional exponent. Returns the raw token and the position after
/// it.
pub open spec fn scan_number(t: Seq<char>, i: int) -> Option<(Seq<char>, int)> {
    if 0 <= i <= t.len() {
        let s = if i < t.len() && t[i] == '-' {
            i + 1
        } else {
            i
        };
        if s < t.len() && is_digit(t[s]) {
            let ie = if t[s] == '0' {
                s + 1
            } else {
                s + digits_len(t, s)
            };
            let fe = if ie < t.len() && t[ie] == '.' {
                if digits_len(t, ie + 1) > 0 {
                    ie + 1 + digits_len(t, ie + 1)
                } else {
                    -1
                }
            } else {
                ie
            };
            if fe < 0 {
                None
            } else {
                let ee = if fe < t.len() && (t[fe] == 'e' || t[fe] == 'E') {
                    let es = if fe + 1 < t.len() && (t[fe + 1] == '+' || t[fe + 1] == '-') {
                        fe + 2
                    } else {
                        fe + 1
                    };
                    if digits_len(t, es) > 0 {
                        es + digits_len(t, es)
                    } else {
                        -1
                    }
                } else {
                    fe
                };
                if ee < 0 {
                    None
                } else {
                    Some((t.subrange(i, ee), ee))
                }
            }
        } else {
            None
        }
    } else {
        None
    }
}

/// Members parsed in source order, folded into an ordered member list;
/// a repeated key keeps the later value.
pub open spec fn obj_of(ms: Seq<(Seq<char>, JsonV)>) -> Seq<(Seq<char>, JsonV)>
    decreases ms.len(),
{
    if ms.len() == 0 {
        Seq::empty()
    } else {
        put(obj_of(ms.drop_last()), ms.last().0, ms.last().1)
    }
}

/// A value starting at `i`, leading whitespace allowed.
pub open spec fn parse_value(t: Seq<char>, i: int) -> Option<(JsonV, int)>
    decreases t.len() - i, 1int,
{
    if 0 <= i <= t.len() {
        let j = i + ws_len(t, i);
        if j < t.len() {
            let c = t[j];
            if c == '{' {
                parse_obj_rest(t, j + 1)
            } else if c == '[' {
                parse_arr_rest(t, j + 1)
            } else if c == '"' {
                match scan_string(t, j + 1) {
                    Some((body, e)) => Some((JsonV::Str(body), e)),
                    None => None,
                }
            } else if c == '-' || is_digit(c) {
                match scan_number(t, j) {
                    Some((tok, e)) => Some((JsonV::Num(tok), e)),
                    None => None,
                }
            } else if c == 't' {
                if j + 3 < t.len() && t[j + 1] == 'r' && t[j + 2] == 'u' && t[j + 3] == 'e' {
                    Some((JsonV::Bool(true), j + 4))
                } else {
                    None
                }
            } else if c == 'f' {
                if j + 4 < t.len() && t[j + 1] == 'a' && t[j + 2] == 'l' && t[j + 3] == 's' && t[j
                    + 4] == 'e' {
                    Some((JsonV::Bool(false), j + 5))
                } else {
                    None
                }
            } else if c == 'n' {
                if j + 3 < t.len() && t[j + 1] == 'u' && t[j + 2] == 'l' && t[j + 3] == 'l' {
                    Some((JsonV::Null, j + 4))
                } else {
                    None
                }
            } else {
                None
            }
        } else {
            None
        }
    } else {
        None
    }
}

/// The remainder of an array, read from just after the opening bracket.
pub open spec fn parse_arr_rest(t: Seq<char>, i: int) -> Option<(JsonV, int)>
    decreases t.len() - i, 3int,
{
    if 0 <= i <= t.len() {
        let j = i + ws_len(t, i);
        if j < t.len() && t[j] == ']' {
            Some((JsonV::Arr(Seq::empty()), j + 1))
        } else {
            match parse_items(t, i) {
                Some((elems, e)) => Some((JsonV::Arr(elems), e)),
                None => None,
            }
        }
    } else {
        None
    }
}

/// One or more comma-separated array elements followed by the closing
/// bracket. Positions in the recursion are clamped forward, which both
/// matches the parser's progress and gives termination.
pub open spec fn parse_items(t: Seq<char>, i: int) -> Option<(Seq<JsonV>, int)>
    decreases t.len() - i, 2int,
{
    if 0 <= i <= t.len() {
        match parse_value(t, i) {
            None => None,
            Some((v, e0)) => {
                let e = if e0 < i + 1 {
                    i + 1
                } else {
                    e0
                };
                let j = e + ws_len(t, e);
                if j < t.len() && t[j] == ',' {
                    match parse_items(t, j + 1) {
                        Some((rest, e2)) => Some((seq![v] + rest, e2)),
                        None => None,
                    }
                } else if j < t.len() && t[j] == ']' {
                    Some((seq![v], j + 1))
                } else {
                    None
                }
            },
        }
    } else {
        None
    }
}

/// The remainder of an object, read from just after the opening brace.
pub open spec fn parse_obj_rest(t: Seq<char>, i: int) -> Option<(JsonV, int)>
    decreases t.len() - i, 3int,
{
    if 0 <= i <= t.len() {
        let j = i + ws_len(t, i);
        if j < t.len() && t[j] == '}' {
            Some((JsonV::Obj(Seq::empty()), j + 1))
        } else {
            match parse_members(t, i) {
                Some((ms, e)) => Some((JsonV::Obj(obj_of(ms)), e)),
                None => None,
            }
        }
    } else {
        None
    }
}

/// One or more `"key": value` members followed by the closing brace, in
/// source order.
pub open spec fn parse_members(t: Seq<char>, i: int) -> Option<(Seq<(Seq<char>, JsonV)>, int)>
    decreases t.len() - i, 2int,
{
    if 0 <= i <= t.len() {
        let j = i + ws_len(t, i);
        if j < t.len() && t[j] == '"' {
            match scan_string(t, j + 1) {
                None => None,
                Some((key, e0)) => {
                    let e = if e0 < j + 2 {
                        j + 2
                    } else {
                        e0
                    };
                    let jc = e + ws_len(t, e);
                    if jc < t.len() && t[jc] == ':' {
                        match parse_value(t, jc + 1) {
                            None => None,
                            Some((v, f0)) => {
                                let f = if f0 < jc + 2 {
                                    jc + 2
                                } else {
                                    f0
                                };
                                let j2 = f + ws_len(t, f);
                                if j2 < t.len() && t[j2] == ',' {
                                    match parse_members(t, j2 + 1) {
                                        Some((rest, e2)) => Some((seq![(key, v)] + rest, e2)),
                                        None => None,
                                    }
                                } else if j2 < t.len() && t[j2] == '}' {
                                    Some((seq![(key, v)], j2 + 1))
                                } else {
                                    None
                                }
                            },
                        }
                    } else {
                        None
                    }
                },
            }
        } else {
            None
        }
    } else {
        None
    }
}

/// A whole document: one value with nothing but whitespace around it.
pub open spec fn parse_doc(t: Seq<char>) -> Option<JsonV> {
    match parse_value(t, 0) {
        None => None,
        Some((v, e)) => {
            if 0 <= e <= t.len() && e + ws_len(t, e) == t.len() {
                Some(v)
            } else {
                None
            }
        },
    }
}

// ---------------------------------------------------------------------------
// The executable parser, proved to agree with the grammar above.
// ---------------------------------------------------------------------------

/// First position at or after `i` that does not hold whitespace.
fn skip_ws(t: &Vec<char>, i: usize) -> (j: usize)
    requires
        i <= t.len(),
    ensures
        i <= j <= t.len(),
        j == i + ws_len(t@, i as int),
{
    let mut j = i;
    while j < t.len() && (t[j] == ' ' || t[j] == '\n' || t[j] == '\r' || t[j] == '\t')
        invariant
            i <= j <= t.len(),
            i + ws_len(t@, i as int) == j + ws_len(t@, j as int),
        decreases t.len() - j,
    {
        j = j + 1;
    }
    j
}

/// First position at or after `i` that does not hold a decimal digit.
fn skip_digits(t: &Vec<char>, i: usize) -> (j: usize)
    requires
        i <= t.len(),
    ensures
        i <= j <= t.len(),
        j == i + digits_len(t@, i as int),
{
    let mut j = i;
    while j < t.len() && ('0' as u32) <= (t[j] as u32) && (t[j] as u32) <= ('9' as u32)
        invariant
            i <= j <= t.len(),
            i + digits_len(t@, i as int) == j + digits_len(t@, j as int),
        decreases t.len() - j,
    {
        j = j + 1;
    }
    j
}

fn hex_char(c: char) -> (r: bool)
    ensures
        r == is_hex(c),
{
    let u = c as u32;
    (('0' as u32) <= u && u <= ('9' as u32)) || (('a' as u32) <= u && u <= ('f' as u32)) || (('A'
        as u32) <= u && u <= ('F' as u32))
}

fn escape_char_ok(c: char) -> (r: bool)
    ensures
        r == is_escape_char(c),
{
    c == '"' || c == '\\' || c == '/' || c == 'b' || c == 'f' || c == 'n' || c == 'r' || c == 't'
        || c == 'u'
}

/// Reads a string body from just after the opening quote.
fn lex_string(t: &Vec<char>, i: usize) -> (r: Option<(Vec<char>, usize)>)
    requires
        i <= t.len(),
    ensures
        match r {
            None => scan_string(t@, i as int) is None,
            Some((b, j)) => scan_string(t@, i as int) == Some((b@, j as int)) && i < j <= t.len(),
        },
    decreases t.len() - i,
{
    if i < t.len() {
        let c = t[i];
        if c == '"' {
            let b: Vec<char> = Vec::new();
            proof {
                assert(b@ =~= Seq::<char>::empty());
            }
            Some((b, i + 1))
        } else if c == '\\' {
            if i + 1 < t.len() && escape_char_ok(t[i + 1]) {
                if t[i + 1] == 'u' {
                    if t.len() - i > 5 && hex_char(t[i + 2]) && hex_char(t[i + 3]) && hex_char(
                        t[i + 4],
                    ) && hex_char(t[i + 5]) {
                        match lex_string(t, i + 6) {
                            Some((rest, j)) => {
                                let ghost restv = rest@;
                                let mut b: Vec<char> = Vec::new();
                                b.push(t[i]);
                                b.push(t[i + 1]);
                                b.push(t[i + 2]);
                                b.push(t[i + 3]);
                                b.push(t[i + 4]);
                                b.push(t[i + 5]);
                                let mut rest = rest;
                                b.append(&mut rest);
                                proof {
                                    assert(b@ =~= t@.subrange(i as int, i + 6) + restv);
                                }
                                Some((b, j))
                            },
                            None => None,
                        }
                    } else {
                        None
                    }
                } else {
                    match lex_string(t, i + 2) {
                        Some((rest, j)) => {
                            let ghost restv = rest@;
                            let mut b: Vec<char> = Vec::new();
                            b.push(t[i]);
                            b.push(t[i + 1]);
                            let mut rest = rest;
                            b.append(&mut rest);
                            proof {
                                assert(b@ =~= seq![t@[i as int], t@[i as int + 1]] + restv);
                            }
                            Some((b, j))
                        },
                        None => None,
                    }
                }
            } else {
                None
            }
        } else if (c as u32) < 0x20 {
            None
        } else {
            match lex_string(t, i + 1) {
                Some((rest, j)) => {
                    let ghost restv = rest@;
                    let mut b: Vec<char> = Vec::new();
                    b.push(c);
                    let mut rest = rest;
                    b.append(&mut rest);
                    proof {
                        assert(b@ =~= seq![t@[i as int]] + restv);
                    }
                    Some((b, j))
                },
                None => None,
            }
        }
    } else {
        None
    }
}

/// Reads a number token starting at `i`.
fn lex_number(t: &Vec<char>, i: usize) -> (r: Option<(Vec<char>, usize)>)
    requires
        i <= t.len(),
    ensures
        match r {
            None => scan_number(t@, i as int) is None,
            Some((b, j)) => scan_number(t@, i as int) == Some((b@, j as int)) && i < j <= t.len(),
        },
{
    let s = if i < t.len() && t[i] == '-' {
        i + 1
    } else {
        i
    };
    if s < t.len() && ('0' as u32) <= (t[s] as u32) && (t[s] as u32) <= ('9' as u32) {
        let ie = if t[s] == '0' {
            s + 1
        } else {
            skip_digits(t, s)
        };
        let mut fe = ie;
        if ie < t.len() && t[ie] == '.' {
            let d = skip_digits(t, ie + 1);
            if d > ie + 1 {
                fe = d;
            } else {
                return None;
            }
        }
        let mut ee = fe;
        if fe < t.len() && (t[fe] == 'e' || t[fe] == 'E') {
            let es = if fe + 1 < t.len() && (t[fe + 1] == '+' || t[fe + 1] == '-') {
                fe + 2
            } else {
                fe + 1
            };
            let d2 = skip_digits(t, es);
            if d2 > es {
                ee = d2;
            } else {
                return None;
            }
        }
        let mut b: Vec<char> = Vec::new();
        let mut p = i;
        while p < ee
            invariant
                i <= p <= ee <= t.len(),
                b@ == t@.subrange(i as int, p as int),
            decreases ee - p,
        {
            b.push(t[p]);
            proof {
                assert(b@ =~= t@.subrange(i as int, p as int + 1));
            }
            p = p + 1;
        }
        Some((b, ee))
    } else {
        None
    }
}

/// Reads one value, leading whitespace allowed.
fn value_at(t: &Vec<char>, i: usize) -> (r: Option<(Json, usize)>)
    requires
        i <= t.len(),
    ensures
        match r {
            None => parse_value(t@, i as int) is None,
            Some((v, j)) => parse_value(t@, i as int) == Some((jv(v), j as int)) && i < j
                <= t.len(),
        },
    decreases t.len() - i, 1int,
{
    let j = skip_ws(t, i);
    if j < t.len() {
        let c = t[j];
        if c == '{' {
            obj_rest_at(t, j + 1)
        } else if c == '[' {
            arr_rest_at(t, j + 1)
        } else if c == '"' {
            match lex_string(t, j + 1) {
                Some((b, e)) => Some((Json::Str(b), e)),
                None => None,
            }
        } else if c == '-' || (('0' as u32) <= (c as u32) && (c as u32) <= ('9' as u32)) {
            match lex_number(t, j) {
                Some((b, e)) => Some((Json::Num(b), e)),
                None => None,
            }
        } else if c == 't' {
            if t.len() - j > 3 && t[j + 1] == 'r' && t[j + 2] == 'u' && t[j + 3] == 'e' {
                Some((Json::Bool(true), j + 4))
            } else {
                None
            }
        } else if c == 'f' {
            if t.len() - j > 4 && t[j + 1] == 'a' && t[j + 2] == 'l' && t[j + 3] == 's' && t[j + 4]
                == 'e' {
                Some((Json::Bool(false), j + 5))
            } else {
                None
            }
        } else if c == 'n' {
            if t.len() - j > 3 && t[j + 1] == 'u' && t[j + 2] == 'l' && t[j + 3] == 'l' {
                Some((Json::Null, j + 4))
            } else {
                None
            }
        } else {
            None
        }
    } else {
        None
    }
}

/// Reads the remainder of an array from just after the opening bracket.
fn arr_rest_at(t: &Vec<char>, i: usize) -> (r: Option<(Json, usize)>)
    requires
        i <= t.len(),
    ensures
        match r {
            None => parse_arr_rest(t@, i as int) is None,
            Some((v, j)) => parse_arr_rest(t@, i as int) == Some((jv(v), j as int)) && i < j
                <= t.len(),
        },
    decreases t.len() - i, 3int,
{
    let j = skip_ws(t, i);
    if j < t.len() && t[j] == ']' {
        let items: Vec<Json> = Vec::new();
        proof {
            assert(jv_seq(items@) =~= Seq::<JsonV>::empty());
        }
        Some((Json::Arr(items), j + 1))
    } else {
        match items_at(t, i) {
            Some((items, e)) => Some((Json::Arr(items), e)),
            None => None,
        }
    }
}

/// Reads comma-separated array elements and the closing bracket.
fn items_at(t: &Vec<char>, i: usize) -> (r: Option<(Vec<Json>, usize)>)
    requires
        i <= t.len(),
    ensures
        match r {
            None => parse_items(t@, i as int) is None,
            Some((vs, j)) => parse_items(t@, i as int) == Some((jv_seq(vs@), j as int)) && i < j
                <= t.len(),
        },
    decreases t.len() - i, 2int,
{
    match value_at(t, i) {
        None => None,
        Some((v, e)) => {
            let ghost vv = jv(v);
            let j = skip_ws(t, e);
            if j < t.len() && t[j] == ',' {
                match items_at(t, j + 1) {
                    Some((rest, e2)) => {
                        let ghost restv = rest@;
                        let mut vs = rest;
                        vs.insert(0, v);
                        proof {
                            assert(vs@.drop_first() =~= restv);
                            assert(jv_seq(vs@) =~= seq![vv] + jv_seq(restv));
                        }
                        Some((vs, e2))
                    },
                    None => None,
                }
            } else if j < t.len() && t[j] == ']' {
                let mut vs: Vec<Json> = Vec::new();
                vs.push(v);
                proof {
                    assert(vs@.drop_first() =~= Seq::<Json>::empty());
                    assert(jv_seq(Seq::<Json>::empty()) =~= Seq::<JsonV>::empty());
                    assert(jv_seq(vs@) =~= seq![vv]);
                }
                Some((vs, j + 1))
            } else {
                None
            }
        },
    }
}

/// Reads the remainder of an object from just after the opening brace.
fn obj_rest_at(t: &Vec<char>, i: usize) -> (r: Option<(Json, usize)>)
    requires
        i <= t.len(),
    ensures
        match r {
            None => parse_obj_rest(t@, i as int) is None,
            Some((v, j)) => parse_obj_rest(t@, i as int) == Some((jv(v), j as int)) && i < j
                <= t.len(),
        },
    decreases t.len() - i, 3int,
{
    let j = skip_ws(t, i);
    if j < t.len() && t[j] == '}' {
        let ms: Vec<(Vec<char>, Json)> = Vec::new();
        proof {
            assert(jv_members(ms@) =~= Seq::<(Seq<char>, JsonV)>::empty());
        }
        Some((Json::Obj(ms), j + 1))
    } else {
        match members_at(t, i) {
            Some((ms, e)) => Some((Json::Obj(build_obj(ms)), e)),
            None => None,
        }
    }
}

/// Reads `"key": value` members and the closing brace, in source order.
fn members_at(t: &Vec<char>, i: usize) -> (r: Option<(Vec<(Vec<char>, Json)>, usize)>)
    requires
        i <= t.len(),
    ensures
        match r {
            None => parse_members(t@, i as int) is None,
            Some((ms, j)) => parse_members(t@, i as int) == Some((jv_members(ms@), j as int)) && i
                < j <= t.len(),
        },
    decreases t.len() - i, 2int,
{
    let j = skip_ws(t, i);
    if j < t.len() && t[j] == '"' {
        match lex_string(t, j + 1) {
            None => None,
            Some((key, e)) => {
                let ghost keyv = key@;
                let jc = skip_ws(t, e);
                if jc < t.len() && t[jc] == ':' {
                    match value_at(t, jc + 1) {
                        None => None,
                        Some((v, f)) => {
                            let ghost vv = jv(v);
                            let j2 = skip_ws(t, f);
                            if j2 < t.len() && t[j2] == ',' {
                                match members_at(t, j2 + 1) {
                                    Some((rest, e2)) => {
                                        let ghost restv = rest@;
                                        let mut ms = rest;
                                        ms.insert(0, (key, v));
                                        proof {
                                            assert(ms@.drop_first() =~= restv);
                                            assert(jv_members(ms@) =~= seq![(keyv, vv)]
                                                + jv_members(restv));
                                        }
                                        Some((ms, e2))
                                    },
                                    None => None,
                                }
                            } else if j2 < t.len() && t[j2] == '}' {
                                let mut ms: Vec<(Vec<char>, Json)> = Vec::new();
                                ms.push((key, v));
                                proof {
                                    assert(ms@.drop_first() =~= Seq::<(Vec<char>, Json)>::empty());
                                    assert(jv_members(Seq::<(Vec<char>, Json)>::empty()) =~= Seq::<
                                        (Seq<char>, JsonV),
                                    >::empty());
                                    assert(jv_members(ms@) =~= seq![(keyv, vv)]);
                                }
                                Some((ms, j2 + 1))
                            } else {
                                None
                            }
                        },
                    }
                } else {
                    None
                }
            },
        }
    } else {
        None
    }
}

/// Folds parsed members into an ordered member vector, mirroring `obj_of`.
fn build_obj(ms: Vec<(Vec<char>, Json)>) -> (r: Vec<(Vec<char>, Json)>)
    ensures
        jv_members(r@) == obj_of(jv_members(ms@)),
    decreases ms.len(),
{
    let ghost msv = ms@;
    if ms.len() == 0 {
        let r: Vec<(Vec<char>, Json)> = Vec::new();
        proof {
            assert(jv_members(msv) =~= Seq::<(Seq<char>, JsonV)>::empty());
            assert(jv_members(r@) =~= Seq::<(Seq<char>, JsonV)>::empty());
        }
        r
    } else {
        let mut ms = ms;
        let m = ms.pop().unwrap();
        proof {
            crate::json::lemma_jv_members_len(msv);
            crate::json::lemma_jv_members_index(msv, msv.len() - 1);
            assert(ms@ =~= msv.drop_last());
            assert forall|n: int| 0 <= n < msv.len() - 1 implies #[trigger] jv_members(ms@)[n]
                == jv_members(msv).drop_last()[n] by {
                crate::json::lemma_jv_members_index(ms@, n);
                crate::json::lemma_jv_members_index(msv, n);
                assert(ms@[n] == msv[n]);
            }
            crate::json::lemma_jv_members_len(ms@);
            assert(jv_members(ms@) =~= jv_members(msv).drop_last());
            assert(jv_members(msv).last() == (m.0@, jv(m.1)));
        }
        let base = build_obj(ms);
        crate::json::obj_put(base, m.0, m.1)
    }
}

/// Parses a whole document text.
pub fn parse_text(t: &Vec<char>) -> (r: Option<Json>)
    ensures
        match r {
            None => parse_doc(t@) is None,
            Some(v) => parse_doc(t@) == Some(jv(v)),
        },
{
    match value_at(t, 0) {
        None => None,
        Some((v, e)) => {
            let j = skip_ws(t, e);
            if j == t.len() {
                Some(v)
            } else {
                None
            }
        },
    }
}

// ---------------------------------------------------------------------------
// Every parsed document is canonical: all of its objects have sorted keys.
// ---------------------------------------------------------------------------

/// Folded member lists are sorted, and in shape when their sources are.
pub proof fn lemma_obj_of_sorted(ms: Seq<(Seq<char>, JsonV)>)
    ensures
        sorted_members(obj_of(ms)),
        objs_sorted_members(ms) ==> objs_sorted_members(obj_of(ms)),
    decreases ms.len(),
{
    if ms.len() == 0 {
        assert(objs_sorted_members(obj_of(ms)));
    } else {
        lemma_obj_of_sorted(ms.drop_last());
        lemma_put_sorted(obj_of(ms.drop_last()), ms.last().0, ms.last().1);
        if objs_sorted_members(ms) {
            lemma_objs_sorted_members_drop_last(ms);
            lemma_objs_sorted_members_put(obj_of(ms.drop_last()), ms.last().0, ms.last().1);
        }
    }
}

pub proof fn lemma_value_objs_sorted(t: Seq<char>, i: int)
    ensures
        parse_value(t, i) matches Some((v, e)) ==> objs_sorted(v),
    decreases t.len() - i, 1int,
{
    if 0 <= i <= t.len() {
        let j = i + ws_len(t, i);
        if j < t.len() {
            let c = t[j];
            if c == '{' {
                lemma_obj_rest_objs_sorted(t, j + 1);
            } else if c == '[' {
                lemma_arr_rest_objs_sorted(t, j + 1);
            }
        }
    }
}

pub proof fn lemma_arr_rest_objs_sorted(t: Seq<char>, i: int)
    ensures
        parse_arr_rest(t, i) matches Some((v, e)) ==> objs_sorted(v),
    decreases t.len() - i, 3int,
{
    if 0 <= i <= t.len() {
        let j = i + ws_len(t, i);
        if j < t.len() && t[j] == ']' {
            assert(objs_sorted_seq(Seq::<JsonV>::empty()));
        } else {
            lemma_items_objs_sorted(t, i);
        }
    }
}

pub proof fn lemma_items_objs_sorted(t: Seq<char>, i: int)
    ensures
        parse_items(t, i) matches Some((vs, e)) ==> objs_sorted_seq(vs),
    decreases t.len() - i, 2int,
{
    if 0 <= i <= t.len() {
        lemma_value_objs_sorted(t, i);
        match parse_value(t, i) {
            None => {},
            Some((v, e0)) => {
                let e = if e0 < i + 1 {
                    i + 1
                } else {
                    e0
                };
                let j = e + ws_len(t, e);
                if j < t.len() && t[j] == ',' {
                    lemma_items_objs_sorted(t, j + 1);
                    match parse_items(t, j + 1) {
                        Some((rest, e2)) => {
                            assert((seq![v] + rest).drop_first() =~= rest);
                        },
                        None => {},
                    }
                } else if j < t.len() && t[j] == ']' {
                    assert(seq![v].drop_first() =~= Seq::<JsonV>::empty());
                    assert(objs_sorted_seq(Seq::<JsonV>::empty()));
                }
            },
        }
    }
}

pub proof fn lemma_obj_rest_objs_sorted(t: Seq<char>, i: int)
    ensures
        parse_obj_rest(t, i) matches Some((v, e)) ==> objs_sorted(v),
    decreases t.len() - i, 3int,
{
    if 0 <= i <= t.len() {
        let j = i + ws_len(t, i);
        if j < t.len() && t[j] == '}' {
            assert(sorted_members(Seq::<(Seq<char>, JsonV)>::empty()));
            assert(objs_sorted_members(Seq::<(Seq<char>, JsonV)>::empty()));
        } else {
            lemma_members_objs_sorted(t, i);
            match parse_members(t, i) {
                Some((ms, e)) => {
                    lemma_obj_of_sorted(ms);
                },
                None => {},
            }
        }
    }
}

pub proof fn lemma_members_objs_sorted(t: Seq<char>, i: int)
    ensures
        parse_members(t, i) matches Some((ms, e)) ==> objs_sorted_members(ms),
    decreases t.len() - i, 2int,
{
    if 0 <= i <= t.len() {
        let j = i + ws_len(t, i);
        if j < t.len() && t[j] == '"' {
            match scan_string(t, j + 1) {
                None => {},
                Some((key, e0)) => {
                    let e = if e0 < j + 2 {
                        j + 2
                    } else {
                        e0
                    };
                    let jc = e + ws_len(t, e);
                    if jc < t.len() && t[jc] == ':' {
                        lemma_value_objs_sorted(t, jc + 1);
                        match parse_value(t, jc + 1) {
                            None => {},
                            Some((v, f0)) => {
                                let f = if f0 < jc + 2 {
                                    jc + 2
                                } else {
                                    f0
                                };
                                let j2 = f + ws_len(t, f);
                                if j2 < t.len() && t[j2] == ',' {
                                    lemma_members_objs_sorted(t, j2 + 1);
                                    match parse_members(t, j2 + 1) {
                                        Some((rest, e2)) => {
                                            assert((seq![(key, v)] + rest).drop_first() =~= rest);
                                        },
                                        None => {},
                                    }
                                } else if j2 < t.len() && t[j2] == '}' {
                                    assert(seq![(key, v)].drop_first() =~= Seq::<
                                        (Seq<char>, JsonV),
                                    >::empty());
                                    assert(objs_sorted_members(
                                        Seq::<(Seq<char>, JsonV)>::empty(),
                                    ));
                                }
                            },
                        }
                    }
                },
            }
        }
    }
}

/// Every parsed document is canonical.
pub proof fn lemma_parse_doc_objs_sorted(t: Seq<char>)
    ensures
        parse_doc(t) matches Some(v) ==> objs_sorted(v),
{
    lemma_value_objs_sorted(t, 0);
}

} // verus!
