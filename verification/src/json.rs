//! The document model: a tagged-union value type for configuration
//! documents, a ghost deep view of it, and the ordered-object operations
//! (lookup, keyed insert, keyed removal) that the merge is specified with.
//!
//! Strings and numbers are kept in their source form: a `Str` holds the raw
//! text between the quotes (escape sequences included), a `Num` holds the
//! number token exactly as written, so unrelated content passes through the
//! merge byte for byte.

use vstd::prelude::*;

verus! {

/// A configuration document value. Object members are kept as a vector of
/// key/value pairs; the parser and the merge keep each object's keys in
/// strictly increasing lexicographic order.
pub enum Json {
    Null,
    Bool(bool),
    Num(Vec<char>),
    Str(Vec<char>),
    Arr(Vec<Json>),
    Obj(Vec<(Vec<char>, Json)>),
}

/// The ghost counterpart of `Json`, with mathematical sequences throughout;
/// all contracts are stated over this type.
pub enum JsonV {
    Null,
    Bool(bool),
    Num(Seq<char>),
    Str(Seq<char>),
    Arr(Seq<JsonV>),
    Obj(Seq<(Seq<char>, JsonV)>),
}

/// The deep view of an executable document value.
pub open spec fn jv(j: Json) -> JsonV
    decreases j,
{
    match j {
        Json::Null => JsonV::Null,
        Json::Bool(b) => JsonV::Bool(b),
        Json::Num(t) => JsonV::Num(t@),
        Json::Str(t) => JsonV::Str(t@),
        Json::Arr(items) => JsonV::Arr(jv_seq(items@)),
        Json::Obj(members) => JsonV::Obj(jv_members(members@)),
    }
}

pub open spec fn jv_seq(items: Seq<Json>) -> Seq<JsonV>
    decreases items,
{
    if items.len() == 0 {
        Seq::empty()
    } else {
        seq![jv(items[0])] + jv_seq(items.drop_first())
    }
}

pub open spec fn jv_members(ms: Seq<(Vec<char>, Json)>) -> Seq<(Seq<char>, JsonV)>
    decreases ms,
{
    if ms.len() == 0 {
        Seq::empty()
    } else {
        seq![(ms[0].0@, jv(ms[0].1))] + jv_members(ms.drop_first())
    }
}

pub broadcast proof fn lemma_jv_seq_index(items: Seq<Json>, i: int)
    requires
        0 <= i < items.len(),
    ensures
        jv_seq(items).len() == items.len(),
        #[trigger] jv_seq(items)[i] == jv(items[i]),
    decreases items,
{
    lemma_jv_seq_len(items);
    if i > 0 {
        lemma_jv_seq_index(items.drop_first(), i - 1);
        assert(items.drop_first()[i - 1] == items[i]);
    }
}

pub broadcast proof fn lemma_jv_seq_len(items: Seq<Json>)
    ensures
        #[trigger] jv_seq(items).len() == items.len(),
    decreases items,
{
    if items.len() > 0 {
        lemma_jv_seq_len(items.drop_first());
    }
}

pub broadcast proof fn lemma_jv_members_index(ms: Seq<(Vec<char>, Json)>, i: int)
    requires
        0 <= i < ms.len(),
    ensures
        jv_members(ms).len() == ms.len(),
        #[trigger] jv_members(ms)[i] == (ms[i].0@, jv(ms[i].1)),
    decreases ms,
{
    lemma_jv_members_len(ms);
    if i > 0 {
        lemma_jv_members_index(ms.drop_first(), i - 1);
        assert(ms.drop_first()[i - 1] == ms[i]);
    }
}

pub broadcast proof fn lemma_jv_members_len(ms: Seq<(Vec<char>, Json)>)
    ensures
        #[trigger] jv_members(ms).len() == ms.len(),
    decreases ms,
{
    if ms.len() > 0 {
        lemma_jv_members_len(ms.drop_first());
    }
}

// The keys and values that the merge manages.

pub open spec fn compiler_options_key() -> Seq<char> {
    seq!['c', 'o', 'm', 'p', 'i', 'l', 'e', 'r', 'O', 'p', 't', 'i', 'o', 'n', 's']
}

pub open spec fn base_url_key() -> Seq<char> {
    seq!['b', 'a', 's', 'e', 'U', 'r', 'l']
}

pub open spec fn paths_key() -> Seq<char> {
    seq!['p', 'a', 't', 'h', 's']
}

pub open spec fn plugins_key() -> Seq<char> {
    seq!['p', 'l', 'u', 'g', 'i', 'n', 's']
}

pub open spec fn deno_key() -> Seq<char> {
    seq!['d', 'e', 'n', 'o']
}

pub open spec fn http_key() -> Seq<char> {
    seq!['h', 't', 't', 'p', ':', '/', '/', '*']
}

pub open spec fn https_key() -> Seq<char> {
    seq!['h', 't', 't', 'p', 's', ':', '/', '/', '*']
}

pub open spec fn name_key() -> Seq<char> {
    seq!['n', 'a', 'm', 'e']
}

pub open spec fn dot_value() -> Seq<char> {
    seq!['.']
}

pub open spec fn plugin_name() -> Seq<char> {
    seq![
        't', 'y', 'p', 'e', 's', 'c', 'r', 'i', 'p', 't', '-', 'd', 'e', 'n', 'o', '-', 'p', 'l',
        'u', 'g', 'i', 'n',
    ]
}

/// The plugin descriptor `{"name": "typescript-deno-plugin"}` that every
/// merge appends to `compilerOptions.plugins`.
pub open spec fn plugin_entry() -> JsonV {
    JsonV::Obj(seq![(name_key(), JsonV::Str(plugin_name()))])
}

/// Strict lexicographic order on key text by code point, which for UTF-8
/// encoded text agrees with byte order.
pub open spec fn lex_lt(a: Seq<char>, b: Seq<char>) -> bool
    decreases a.len(),
{
    if b.len() == 0 {
        false
    } else if a.len() == 0 {
        true
    } else if (a[0] as u32) < (b[0] as u32) {
        true
    } else if (b[0] as u32) < (a[0] as u32) {
        false
    } else {
        lex_lt(a.drop_first(), b.drop_first())
    }
}

pub proof fn lemma_lex_total(a: Seq<char>, b: Seq<char>)
    ensures
        lex_lt(a, b) || lex_lt(b, a) || a == b,
        lex_lt(a, b) ==> !lex_lt(b, a) && a != b,
    decreases a.len(),
{
    if b.len() == 0 || a.len() == 0 {
        if a.len() == 0 && b.len() == 0 {
            assert(a =~= b);
        }
    } else if (a[0] as u32) < (b[0] as u32) || (b[0] as u32) < (a[0] as u32) {
    } else {
        lemma_lex_total(a.drop_first(), b.drop_first());
        if a.drop_first() == b.drop_first() {
            assert forall|i: int| 0 <= i < a.len() implies a[i] == b[i] by {
                if i == 0 {
                    vstd::utf8::char_u32_cast(a[0], a[0] as u32);
                    vstd::utf8::char_u32_cast(b[0], b[0] as u32);
                } else if i > 0 {
                    assert(a[i] == a.drop_first()[i - 1]);
                    assert(b[i] == b.drop_first()[i - 1]);
                }
            }
            assert(a =~= b);
        }
        if a == b {
            assert(a.drop_first() =~= b.drop_first());
        }
    }
}

pub proof fn lemma_lex_trans(a: Seq<char>, b: Seq<char>, c: Seq<char>)
    requires
        lex_lt(a, b),
        lex_lt(b, c),
    ensures
        lex_lt(a, c),
    decreases a.len(),
{
    if a.len() == 0 {
        assert(b.len() > 0);
        assert(c.len() > 0);
    } else {
        assert(b.len() > 0 && c.len() > 0);
        if (a[0] as u32) == (b[0] as u32) && (b[0] as u32) == (c[0] as u32) {
            lemma_lex_trans(a.drop_first(), b.drop_first(), c.drop_first());
        }
    }
}

/// First entry under a key, if any.
pub open spec fn obj_get(ms: Seq<(Seq<char>, JsonV)>, k: Seq<char>) -> Option<JsonV>
    decreases ms.len(),
{
    if ms.len() == 0 {
        None
    } else if ms[0].0 == k {
        Some(ms[0].1)
    } else {
        obj_get(ms.drop_first(), k)
    }
}

/// Keyed insert that keeps sorted member lists sorted: replaces the entry
/// when the key is already present, else inserts at the ordered position.
pub open spec fn put(ms: Seq<(Seq<char>, JsonV)>, k: Seq<char>, v: JsonV) -> Seq<(Seq<char>, JsonV)>
    decreases ms.len(),
{
    if ms.len() == 0 {
        seq![(k, v)]
    } else if lex_lt(k, ms[0].0) {
        seq![(k, v)] + ms
    } else if ms[0].0 == k {
        seq![(k, v)] + ms.drop_first()
    } else {
        seq![ms[0]] + put(ms.drop_first(), k, v)
    }
}

/// Removal of the first entry under a key, if any.
pub open spec fn del(ms: Seq<(Seq<char>, JsonV)>, k: Seq<char>) -> Seq<(Seq<char>, JsonV)>
    decreases ms.len(),
{
    if ms.len() == 0 {
        ms
    } else if ms[0].0 == k {
        ms.drop_first()
    } else {
        seq![ms[0]] + del(ms.drop_first(), k)
    }
}

pub proof fn lemma_put_get(ms: Seq<(Seq<char>, JsonV)>, k: Seq<char>, v: JsonV, k2: Seq<char>)
    ensures
        obj_get(put(ms, k, v), k2) == if k2 == k {
            Some(v)
        } else {
            obj_get(ms, k2)
        },
    decreases ms.len(),
{
    lemma_lex_total(k, k2);
    if ms.len() == 0 {
        assert(put(ms, k, v).drop_first() =~= Seq::<(Seq<char>, JsonV)>::empty());
        assert(obj_get(put(ms, k, v), k2) == if k2 == k { Some(v) } else { obj_get(ms, k2) });
    } else if lex_lt(k, ms[0].0) {
        assert((seq![(k, v)] + ms).drop_first() =~= ms);
        assert(obj_get(put(ms, k, v), k2) == if k2 == k { Some(v) } else { obj_get(ms, k2) });
    } else if ms[0].0 == k {
        assert((seq![(k, v)] + ms.drop_first()).drop_first() =~= ms.drop_first());
        assert(obj_get(put(ms, k, v), k2) == if k2 == k { Some(v) } else { obj_get(ms, k2) });
    } else {
        lemma_put_get(ms.drop_first(), k, v, k2);
        assert((seq![ms[0]] + put(ms.drop_first(), k, v)).drop_first() =~= put(
            ms.drop_first(),
            k,
            v,
        ));
    }
}

pub proof fn lemma_del_get(ms: Seq<(Seq<char>, JsonV)>, k: Seq<char>, k2: Seq<char>)
    requires
        k2 != k,
    ensures
        obj_get(del(ms, k), k2) == obj_get(ms, k2),
    decreases ms.len(),
{
    if ms.len() == 0 {
    } else if ms[0].0 == k {
    } else {
        lemma_del_get(ms.drop_first(), k, k2);
        assert((seq![ms[0]] + del(ms.drop_first(), k)).drop_first() =~= del(ms.drop_first(), k));
    }
}

/// Some entry carries this key.
pub open spec fn has_key(ms: Seq<(Seq<char>, JsonV)>, key: Seq<char>) -> bool {
    exists|j: int| 0 <= j < ms.len() && (#[trigger] ms[j].0) == key
}

/// Keys strictly increasing, hence also unique.
pub open spec fn sorted_members(ms: Seq<(Seq<char>, JsonV)>) -> bool {
    forall|i: int, j: int| 0 <= i < j < ms.len() ==> lex_lt(#[trigger] ms[i].0, #[trigger] ms[j].0)
}

pub proof fn lemma_put_sorted(ms: Seq<(Seq<char>, JsonV)>, k: Seq<char>, v: JsonV)
    requires
        sorted_members(ms),
    ensures
        sorted_members(put(ms, k, v)),
        forall|i: int|
            0 <= i < put(ms, k, v).len() ==> #[trigger] put(ms, k, v)[i].0 == k || has_key(
                ms,
                put(ms, k, v)[i].0,
            ),
    decreases ms.len(),
{
    let r = put(ms, k, v);
    if ms.len() == 0 {
    } else if lex_lt(k, ms[0].0) {
        assert forall|i: int, j: int| 0 <= i < j < r.len() implies lex_lt(r[i].0, r[j].0) by {
            if i == 0 {
                if j > 1 {
                    lemma_lex_trans(k, ms[0].0, ms[j - 1].0);
                }
            }
        }
        assert forall|i: int| 0 <= i < r.len() implies r[i].0 == k || has_key(ms, r[i].0) by {
            if i > 0 {
                assert(ms[i - 1].0 == r[i].0);
            }
        }
    } else if ms[0].0 == k {
        assert forall|i: int, j: int| 0 <= i < j < r.len() implies lex_lt(r[i].0, r[j].0) by {
            if i == 0 {
                assert(r[j].0 == ms[j].0);
            } else {
                assert(r[i].0 == ms[i].0 && r[j].0 == ms[j].0);
            }
        }
        assert forall|i: int| 0 <= i < r.len() implies r[i].0 == k || has_key(ms, r[i].0) by {
            if i > 0 {
                assert(ms[i].0 == r[i].0);
            }
        }
    } else {
        assert(sorted_members(ms.drop_first())) by {
            assert forall|i: int, j: int|
                0 <= i < j < ms.drop_first().len() implies lex_lt(
                ms.drop_first()[i].0,
                ms.drop_first()[j].0,
            ) by {
                assert(ms.drop_first()[i] == ms[i + 1]);
                assert(ms.drop_first()[j] == ms[j + 1]);
            }
        }
        lemma_put_sorted(ms.drop_first(), k, v);
        lemma_lex_total(k, ms[0].0);
        let rr = put(ms.drop_first(), k, v);
        assert forall|i: int, j: int| 0 <= i < j < r.len() implies lex_lt(r[i].0, r[j].0) by {
            if i == 0 {
                assert(r[j].0 == rr[j - 1].0);
                if rr[j - 1].0 == k {
                    assert(lex_lt(ms[0].0, k));
                } else {
                    assert(has_key(ms.drop_first(), rr[j - 1].0));
                    let w = choose|w: int|
                        0 <= w < ms.drop_first().len() && (#[trigger] ms.drop_first()[w].0) == rr[j
                            - 1].0;
                    assert(ms.drop_first()[w] == ms[w + 1]);
                    assert(lex_lt(ms[0].0, ms[w + 1].0));
                }
            } else {
                assert(r[i].0 == rr[i - 1].0 && r[j].0 == rr[j - 1].0);
            }
        }
        assert forall|i: int| 0 <= i < r.len() implies r[i].0 == k || has_key(ms, r[i].0) by {
            if i == 0 {
                assert(ms[0].0 == r[0].0);
            } else {
                assert(r[i].0 == rr[i - 1].0);
                if rr[i - 1].0 != k {
                    assert(has_key(ms.drop_first(), rr[i - 1].0));
                    let w = choose|w: int|
                        0 <= w < ms.drop_first().len() && (#[trigger] ms.drop_first()[w].0) == rr[i
                            - 1].0;
                    assert(ms[w + 1].0 == r[i].0);
                }
            }
        }
    }
}

pub proof fn lemma_del_sorted(ms: Seq<(Seq<char>, JsonV)>, k: Seq<char>)
    requires
        sorted_members(ms),
    ensures
        sorted_members(del(ms, k)),
        forall|i: int| 0 <= i < del(ms, k).len() ==> has_key(ms, #[trigger] del(ms, k)[i].0),
    decreases ms.len(),
{
    let r = del(ms, k);
    if ms.len() == 0 {
    } else if ms[0].0 == k {
        assert forall|i: int, j: int| 0 <= i < j < r.len() implies lex_lt(r[i].0, r[j].0) by {
            assert(r[i] == ms[i + 1] && r[j] == ms[j + 1]);
        }
        assert forall|i: int| 0 <= i < r.len() implies has_key(ms, r[i].0) by {
            assert(ms[i + 1].0 == r[i].0);
        }
    } else {
        assert(sorted_members(ms.drop_first())) by {
            assert forall|i: int, j: int|
                0 <= i < j < ms.drop_first().len() implies lex_lt(
                ms.drop_first()[i].0,
                ms.drop_first()[j].0,
            ) by {
                assert(ms.drop_first()[i] == ms[i + 1]);
                assert(ms.drop_first()[j] == ms[j + 1]);
            }
        }
        lemma_del_sorted(ms.drop_first(), k);
        let rr = del(ms.drop_first(), k);
        assert forall|i: int, j: int| 0 <= i < j < r.len() implies lex_lt(r[i].0, r[j].0) by {
            if i == 0 {
                assert(r[j].0 == rr[j - 1].0);
                assert(has_key(ms.drop_first(), rr[j - 1].0));
                let w = choose|w: int|
                    0 <= w < ms.drop_first().len() && (#[trigger] ms.drop_first()[w].0) == rr[j
                        - 1].0;
                assert(ms.drop_first()[w] == ms[w + 1]);
                assert(lex_lt(ms[0].0, ms[w + 1].0));
            } else {
                assert(r[i].0 == rr[i - 1].0 && r[j].0 == rr[j - 1].0);
            }
        }
        assert forall|i: int| 0 <= i < r.len() implies has_key(ms, r[i].0) by {
            if i == 0 {
                assert(ms[0].0 == r[0].0);
            } else {
                assert(r[i].0 == rr[i - 1].0);
                assert(has_key(ms.drop_first(), rr[i - 1].0));
                let w = choose|w: int|
                    0 <= w < ms.drop_first().len() && (#[trigger] ms.drop_first()[w].0) == rr[i
                        - 1].0;
                assert(ms[w + 1].0 == r[i].0);
            }
        }
    }
}

/// A sorted member list is unchanged by re-inserting a value it already holds.
pub proof fn lemma_put_same(ms: Seq<(Seq<char>, JsonV)>, k: Seq<char>, v: JsonV)
    requires
        sorted_members(ms),
        obj_get(ms, k) == Some(v),
    ensures
        put(ms, k, v) == ms,
    decreases ms.len(),
{
    if ms.len() == 0 {
    } else if lex_lt(k, ms[0].0) {
        assert forall|j: int| 0 <= j < ms.len() implies ms[j].0 != k by {
            lemma_lex_total(k, ms[j].0);
            if j > 0 {
                lemma_lex_trans(k, ms[0].0, ms[j].0);
            }
        }
        lemma_obj_get_absent(ms, k);
        assert(false);
    } else if ms[0].0 == k {
        assert((k, v) == ms[0]);
        assert(seq![(k, v)] + ms.drop_first() =~= ms);
    } else {
        assert(sorted_members(ms.drop_first())) by {
            assert forall|i: int, j: int|
                0 <= i < j < ms.drop_first().len() implies lex_lt(
                ms.drop_first()[i].0,
                ms.drop_first()[j].0,
            ) by {
                assert(ms.drop_first()[i] == ms[i + 1]);
                assert(ms.drop_first()[j] == ms[j + 1]);
            }
        }
        lemma_put_same(ms.drop_first(), k, v);
        assert(seq![ms[0]] + ms.drop_first() =~= ms);
    }
}

/// A key that no entry carries is not found.
pub proof fn lemma_obj_get_absent(ms: Seq<(Seq<char>, JsonV)>, k: Seq<char>)
    requires
        forall|j: int| 0 <= j < ms.len() ==> (#[trigger] ms[j].0) != k,
    ensures
        obj_get(ms, k) is None,
    decreases ms.len(),
{
    if ms.len() > 0 {
        assert forall|j: int| 0 <= j < ms.drop_first().len() implies (#[trigger] ms.drop_first()[j].0)
            != k by {
            assert(ms.drop_first()[j] == ms[j + 1]);
        }
        lemma_obj_get_absent(ms.drop_first(), k);
    }
}

/// Outcome of a three-way key comparison.
pub enum Cmp {
    Lt,
    Eq,
    Gt,
}

fn key_cmp_at(a: &Vec<char>, b: &Vec<char>, i: usize) -> (r: Cmp)
    requires
        i <= a.len(),
        i <= b.len(),
    ensures
        (r is Lt) == lex_lt(a@.skip(i as int), b@.skip(i as int)),
        (r is Eq) == (a@.skip(i as int) == b@.skip(i as int)),
        (r is Gt) == lex_lt(b@.skip(i as int), a@.skip(i as int)),
    decreases a.len() - i,
{
    if i == b.len() {
        if i == a.len() {
            proof {
                assert(a@.skip(i as int) =~= b@.skip(i as int));
            }
            Cmp::Eq
        } else {
            proof {
                assert(a@.skip(i as int).len() > 0);
                assert(b@.skip(i as int).len() == 0);
            }
            Cmp::Gt
        }
    } else if i == a.len() {
        proof {
            assert(a@.skip(i as int).len() == 0);
            assert(b@.skip(i as int).len() > 0);
        }
        Cmp::Lt
    } else {
        let ca = a[i];
        let cb = b[i];
        proof {
            assert(a@.skip(i as int)[0] == a@[i as int]);
            assert(b@.skip(i as int)[0] == b@[i as int]);
        }
        if (ca as u32) < (cb as u32) {
            Cmp::Lt
        } else if (cb as u32) < (ca as u32) {
            Cmp::Gt
        } else {
            proof {
                vstd::utf8::char_u32_cast(ca, ca as u32);
                vstd::utf8::char_u32_cast(cb, cb as u32);
                assert(ca == cb);
            }
            let r = key_cmp_at(a, b, i + 1);
            proof {
                assert(a@.skip(i as int).drop_first() =~= a@.skip(i as int + 1));
                assert(b@.skip(i as int).drop_first() =~= b@.skip(i as int + 1));
                assert(a@.skip(i as int) =~= seq![a@[i as int]] + a@.skip(i as int + 1));
                assert(b@.skip(i as int) =~= seq![b@[i as int]] + b@.skip(i as int + 1));
            }
            r
        }
    }
}

/// Three-way lexicographic comparison of two key texts.
pub fn key_cmp(a: &Vec<char>, b: &Vec<char>) -> (r: Cmp)
    ensures
        (r is Lt) == lex_lt(a@, b@),
        (r is Eq) == (a@ == b@),
        (r is Gt) == lex_lt(b@, a@),
{
    let r = key_cmp_at(a, b, 0);
    proof {
        assert(a@.skip(0) =~= a@);
        assert(b@.skip(0) =~= b@);
    }
    r
}

/// Keyed insert on a member vector, mirroring `put`.
pub fn obj_put(ms: Vec<(Vec<char>, Json)>, k: Vec<char>, v: Json) -> (r: Vec<(Vec<char>, Json)>)
    ensures
        jv_members(r@) == put(jv_members(ms@), k@, jv(v)),
    decreases ms.len(),
{
    broadcast use lemma_jv_members_index, lemma_jv_members_len;

    let ghost m0 = jv_members(ms@);
    if ms.len() == 0 {
        let mut r: Vec<(Vec<char>, Json)> = Vec::new();
        r.push((k, v));
        proof {
            assert(m0 =~= Seq::<(Seq<char>, JsonV)>::empty());
            assert(jv_members(r@) =~= seq![(r@[0].0@, jv(r@[0].1))]);
            assert(jv_members(r@) =~= put(m0, r@[0].0@, jv(r@[0].1)));
        }
        r
    } else {
        proof {
            assert(m0[0] == (ms@[0].0@, jv(ms@[0].1)));
        }
        match key_cmp(&k, &ms[0].0) {
            Cmp::Lt => {
                let ghost kv = k@;
                let ghost vv = jv(v);
                let mut r = ms;
                r.insert(0, (k, v));
                proof {
                    assert forall|n: int| 0 <= n < r@.len() implies #[trigger] jv_members(r@)[n]
                        == (seq![(kv, vv)] + m0)[n] by {
                        if n > 0 {
                            assert(r@[n] == ms@[n - 1]);
                        }
                    }
                    assert(jv_members(r@) =~= seq![(kv, vv)] + m0);
                }
                r
            },
            Cmp::Eq => {
                let ghost kv = k@;
                let ghost vv = jv(v);
                let mut r = ms;
                let _old_head = r.remove(0);
                r.insert(0, (k, v));
                proof {
                    assert forall|n: int| 0 <= n < r@.len() implies #[trigger] jv_members(r@)[n]
                        == (seq![(kv, vv)] + m0.drop_first())[n] by {
                        if n > 0 {
                            assert(r@[n] == ms@[n]);
                        }
                    }
                    assert(jv_members(r@) =~= seq![(kv, vv)] + m0.drop_first());
                }
                r
            },
            Cmp::Gt => {
                let ghost kv = k@;
                let ghost vv = jv(v);
                let mut rest = ms;
                let head = rest.remove(0);
                proof {
                    assert(rest@ =~= ms@.drop_first());
                    assert(jv_members(rest@) =~= m0.drop_first());
                }
                let tail = obj_put(rest, k, v);
                let mut r = tail;
                let ghost tailv = jv_members(r@);
                r.insert(0, head);
                proof {
                    assert((head.0@, jv(head.1)) == m0[0]);
                    assert forall|n: int| 0 <= n < r@.len() implies #[trigger] jv_members(r@)[n]
                        == (seq![m0[0]] + tailv)[n] by {
                        assert(0 <= n < r@.len());
                    }
                    assert(jv_members(r@) =~= seq![m0[0]] + tailv);
                    assert(jv_members(r@) =~= put(m0, kv, vv));
                }
                r
            },
        }
    }
}

proof fn lemma_find_at(ms: Seq<(Seq<char>, JsonV)>, k: Seq<char>, idx: int)
    requires
        0 <= idx < ms.len(),
        forall|n: int| 0 <= n < idx ==> (#[trigger] ms[n].0) != k,
        ms[idx].0 == k,
    ensures
        obj_get(ms, k) == Some(ms[idx].1),
        del(ms, k) == ms.remove(idx),
    decreases idx,
{
    if idx == 0 {
        assert(ms.drop_first() =~= ms.remove(0));
    } else {
        assert forall|n: int| 0 <= n < idx - 1 implies (#[trigger] ms.drop_first()[n].0) != k by {
            assert(ms.drop_first()[n] == ms[n + 1]);
        }
        assert(ms.drop_first()[idx - 1] == ms[idx]);
        lemma_find_at(ms.drop_first(), k, idx - 1);
        assert(seq![ms[0]] + ms.drop_first().remove(idx - 1) =~= ms.remove(idx));
    }
}

proof fn lemma_del_absent(ms: Seq<(Seq<char>, JsonV)>, k: Seq<char>)
    requires
        forall|n: int| 0 <= n < ms.len() ==> (#[trigger] ms[n].0) != k,
    ensures
        del(ms, k) == ms,
    decreases ms.len(),
{
    if ms.len() > 0 {
        assert forall|n: int| 0 <= n < ms.drop_first().len() implies (#[trigger] ms.drop_first()[n].0)
            != k by {
            assert(ms.drop_first()[n] == ms[n + 1]);
        }
        lemma_del_absent(ms.drop_first(), k);
        assert(seq![ms[0]] + ms.drop_first() =~= ms);
    }
}

/// Removes and returns the entry under a key, mirroring `del` and `obj_get`.
pub fn obj_take(ms: &mut Vec<(Vec<char>, Json)>, k: &Vec<char>) -> (r: Option<Json>)
    ensures
        jv_members(final(ms)@) == del(jv_members(old(ms)@), k@),
        match r {
            None => obj_get(jv_members(old(ms)@), k@) is None,
            Some(v) => obj_get(jv_members(old(ms)@), k@) == Some(jv(v)),
        },
{
    broadcast use lemma_jv_members_index, lemma_jv_members_len;

    let ghost m0 = jv_members(old(ms)@);
    let mut idx: usize = 0;
    while idx < ms.len()
        invariant
            idx <= ms.len(),
            ms@ == old(ms)@,
            m0 == jv_members(old(ms)@),
            forall|n: int| 0 <= n < idx ==> (#[trigger] m0[n].0) != k@,
        decreases ms.len() - idx,
    {
        proof {
            lemma_jv_members_len(old(ms)@);
            lemma_jv_members_index(old(ms)@, idx as int);
        }
        let c = key_cmp(&ms[idx].0, k);
        if let Cmp::Eq = c {
            let entry = ms.remove(idx);
            proof {
                assert(m0[idx as int].0 == k@);
                lemma_find_at(m0, k@, idx as int);
                lemma_jv_members_len(ms@);
                assert forall|n: int| 0 <= n < ms@.len() implies #[trigger] jv_members(ms@)[n]
                    == m0.remove(idx as int)[n] by {
                    lemma_jv_members_index(ms@, n);
                    if n < idx {
                        assert(ms@[n] == old(ms)@[n]);
                        lemma_jv_members_index(old(ms)@, n);
                    } else {
                        assert(ms@[n] == old(ms)@[n + 1]);
                        lemma_jv_members_index(old(ms)@, n + 1);
                    }
                }
                assert(jv_members(ms@) =~= m0.remove(idx as int));
                assert(jv(entry.1) == m0[idx as int].1);
            }
            return Some(entry.1);
        }
        proof {
            assert(m0[idx as int].0 == ms@[idx as int].0@);
        }
        idx = idx + 1;
    }
    proof {
        lemma_del_absent(m0, k@);
        lemma_obj_get_absent(m0, k@);
    }
    None
}

/// Every object in the value, at every depth, has its keys in order: the
/// shape of every parsed document.
pub open spec fn objs_sorted(v: JsonV) -> bool
    decreases v, 0int,
{
    match v {
        JsonV::Arr(items) => objs_sorted_seq(items),
        JsonV::Obj(ms) => sorted_members(ms) && objs_sorted_members(ms),
        _ => true,
    }
}

pub open spec fn objs_sorted_seq(items: Seq<JsonV>) -> bool
    decreases items, 1int,
{
    if items.len() == 0 {
        true
    } else {
        objs_sorted(items[0]) && objs_sorted_seq(items.drop_first())
    }
}

pub open spec fn objs_sorted_members(ms: Seq<(Seq<char>, JsonV)>) -> bool
    decreases ms, 1int,
{
    if ms.len() == 0 {
        true
    } else {
        objs_sorted(ms[0].1) && objs_sorted_members(ms.drop_first())
    }
}

/// A keyed insert of an in-shape value keeps every member value in shape.
pub proof fn lemma_objs_sorted_members_put(ms: Seq<(Seq<char>, JsonV)>, k: Seq<char>, v: JsonV)
    requires
        objs_sorted_members(ms),
        objs_sorted(v),
    ensures
        objs_sorted_members(put(ms, k, v)),
    decreases ms.len(),
{
    if ms.len() == 0 {
        assert(put(ms, k, v).drop_first() =~= Seq::<(Seq<char>, JsonV)>::empty());
        assert(objs_sorted_members(Seq::<(Seq<char>, JsonV)>::empty()));
    } else if lex_lt(k, ms[0].0) {
        assert((seq![(k, v)] + ms).drop_first() =~= ms);
    } else if ms[0].0 == k {
        assert((seq![(k, v)] + ms.drop_first()).drop_first() =~= ms.drop_first());
    } else {
        lemma_objs_sorted_members_put(ms.drop_first(), k, v);
        assert((seq![ms[0]] + put(ms.drop_first(), k, v)).drop_first() =~= put(
            ms.drop_first(),
            k,
            v,
        ));
    }
}

/// Looking an entry up in an in-shape member list yields an in-shape value.
pub proof fn lemma_obj_get_objs_sorted(ms: Seq<(Seq<char>, JsonV)>, k: Seq<char>)
    requires
        objs_sorted_members(ms),
    ensures
        obj_get(ms, k) matches Some(x) ==> objs_sorted(x),
    decreases ms.len(),
{
    if ms.len() > 0 && ms[0].0 != k {
        lemma_obj_get_objs_sorted(ms.drop_first(), k);
    }
}

/// Dropping the last member keeps the list in shape, and the dropped value
/// is in shape.
pub proof fn lemma_objs_sorted_members_drop_last(ms: Seq<(Seq<char>, JsonV)>)
    requires
        objs_sorted_members(ms),
        ms.len() > 0,
    ensures
        objs_sorted_members(ms.drop_last()),
        objs_sorted(ms.last().1),
    decreases ms.len(),
{
    if ms.len() == 1 {
        assert(ms.drop_last() =~= Seq::<(Seq<char>, JsonV)>::empty());
        assert(objs_sorted_members(Seq::<(Seq<char>, JsonV)>::empty()));
        assert(ms.last() == ms[0]);
    } else {
        lemma_objs_sorted_members_drop_last(ms.drop_first());
        assert(ms.drop_first().last() == ms.last());
        assert(ms.drop_first().drop_last() =~= ms.drop_last().drop_first());
        assert(ms.drop_last()[0] == ms[0]);
    }
}

} // verus!
