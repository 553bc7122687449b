//! The structural merge: guarantees `compilerOptions` with its managed
//! entries while preserving everything else in the document.

use vstd::prelude::*;

use crate::json::{
    base_url_key, compiler_options_key, del, deno_key, dot_value, http_key, https_key, jv,
    jv_members, jv_seq, lemma_del_get, lemma_jv_seq_index, lemma_jv_seq_len,
    name_key, obj_get, obj_put, obj_take, paths_key, plugin_entry, plugin_name, plugins_key, put,
    Json, JsonV,
};
use crate::render::{esc, escape_text};

verus! {

/// The `paths` member list after the merge: the prior entries with the three
/// managed keys set to the freshly supplied, escaped path strings.
pub open spec fn merged_paths(
    p0: Seq<(Seq<char>, JsonV)>,
    deno: Seq<char>,
    http: Seq<char>,
    https: Seq<char>,
) -> Seq<(Seq<char>, JsonV)> {
    put(
        put(put(p0, deno_key(), JsonV::Str(esc(deno))), http_key(), JsonV::Str(esc(http))),
        https_key(),
        JsonV::Str(esc(https)),
    )
}

/// A section that must be an object if present: absent and `null` both mean
/// an empty one; any other value is a structure fault.
pub open spec fn section_members(
    ms: Seq<(Seq<char>, JsonV)>,
    k: Seq<char>,
) -> Option<Seq<(Seq<char>, JsonV)>> {
    match obj_get(ms, k) {
        None => Some(Seq::empty()),
        Some(JsonV::Null) => Some(Seq::empty()),
        Some(JsonV::Obj(m)) => Some(m),
        Some(_) => None,
    }
}

/// A section that must be an array if present, with the same conventions.
pub open spec fn section_items(ms: Seq<(Seq<char>, JsonV)>, k: Seq<char>) -> Option<Seq<JsonV>> {
    match obj_get(ms, k) {
        None => Some(Seq::empty()),
        Some(JsonV::Null) => Some(Seq::empty()),
        Some(JsonV::Arr(items)) => Some(items),
        Some(_) => None,
    }
}

/// The `compilerOptions` member list after the merge.
pub open spec fn merged_options(
    co0: Seq<(Seq<char>, JsonV)>,
    p0: Seq<(Seq<char>, JsonV)>,
    pl0: Seq<JsonV>,
    deno: Seq<char>,
    http: Seq<char>,
    https: Seq<char>,
) -> Seq<(Seq<char>, JsonV)> {
    let co1 = del(del(del(co0, base_url_key()), paths_key()), plugins_key());
    put(
        put(
            put(co1, base_url_key(), JsonV::Str(dot_value())),
            paths_key(),
            JsonV::Obj(merged_paths(p0, deno, http, https)),
        ),
        plugins_key(),
        JsonV::Arr(pl0.push(plugin_entry())),
    )
}

/// The whole merge. `None` is the structure fault: the root, an existing
/// `compilerOptions`, an existing `paths` or an existing `plugins` is not
/// the kind of container the merge needs.
pub open spec fn merge_spec(v: JsonV, deno: Seq<char>, http: Seq<char>, https: Seq<char>) -> Option<
    JsonV,
> {
    match v {
        JsonV::Obj(root) => match section_members(root, compiler_options_key()) {
            None => None,
            Some(co0) => match (section_members(co0, paths_key()), section_items(
                co0,
                plugins_key(),
            )) {
                (Some(p0), Some(pl0)) => Some(
                    JsonV::Obj(
                        put(
                            del(root, compiler_options_key()),
                            compiler_options_key(),
                            JsonV::Obj(merged_options(co0, p0, pl0, deno, http, https)),
                        ),
                    ),
                ),
                _ => None,
            },
        },
        _ => None,
    }
}

pub fn compiler_options_key_vec() -> (r: Vec<char>)
    ensures
        r@ == compiler_options_key(),
{
    let mut r: Vec<char> = Vec::new();
    r.push('c');
    r.push('o');
    r.push('m');
    r.push('p');
    r.push('i');
    r.push('l');
    r.push('e');
    r.push('r');
    r.push('O');
    r.push('p');
    r.push('t');
    r.push('i');
    r.push('o');
    r.push('n');
    r.push('s');
    proof {
        assert(r@ =~= compiler_options_key());
    }
    r
}

pub fn base_url_key_vec() -> (r: Vec<char>)
    ensures
        r@ == base_url_key(),
{
    let mut r: Vec<char> = Vec::new();
    r.push('b');
    r.push('a');
    r.push('s');
    r.push('e');
    r.push('U');
    r.push('r');
    r.push('l');
    proof {
        assert(r@ =~= base_url_key());
    }
    r
}

pub fn paths_key_vec() -> (r: Vec<char>)
    ensures
        r@ == paths_key(),
{
    let mut r: Vec<char> = Vec::new();
    r.push('p');
    r.push('a');
    r.push('t');
    r.push('h');
    r.push('s');
    proof {
        assert(r@ =~= paths_key());
    }
    r
}

pub fn plugins_key_vec() -> (r: Vec<char>)
    ensures
        r@ == plugins_key(),
{
    let mut r: Vec<char> = Vec::new();
    r.push('p');
    r.push('l');
    r.push('u');
    r.push('g');
    r.push('i');
    r.push('n');
    r.push('s');
    proof {
        assert(r@ =~= plugins_key());
    }
    r
}

pub fn deno_key_vec() -> (r: Vec<char>)
    ensures
        r@ == deno_key(),
{
    let mut r: Vec<char> = Vec::new();
    r.push('d');
    r.push('e');
    r.push('n');
    r.push('o');
    proof {
        assert(r@ =~= deno_key());
    }
    r
}

pub fn http_key_vec() -> (r: Vec<char>)
    ensures
        r@ == http_key(),
{
    let mut r: Vec<char> = Vec::new();
    r.push('h');
    r.push('t');
    r.push('t');
    r.push('p');
    r.push(':');
    r.push('/');
    r.push('/');
    r.push('*');
    proof {
        assert(r@ =~= http_key());
    }
    r
}

pub fn https_key_vec() -> (r: Vec<char>)
    ensures
        r@ == https_key(),
{
    let mut r: Vec<char> = Vec::new();
    r.push('h');
    r.push('t');
    r.push('t');
    r.push('p');
    r.push('s');
    r.push(':');
    r.push('/');
    r.push('/');
    r.push('*');
    proof {
        assert(r@ =~= https_key());
    }
    r
}

fn dot_vec() -> (r: Vec<char>)
    ensures
        r@ == dot_value(),
{
    let mut r: Vec<char> = Vec::new();
    r.push('.');
    proof {
        assert(r@ =~= dot_value());
    }
    r
}

fn name_key_vec() -> (r: Vec<char>)
    ensures
        r@ == name_key(),
{
    let mut r: Vec<char> = Vec::new();
    r.push('n');
    r.push('a');
    r.push('m');
    r.push('e');
    proof {
        assert(r@ =~= name_key());
    }
    r
}

fn plugin_name_vec() -> (r: Vec<char>)
    ensures
        r@ == plugin_name(),
{
    let mut r: Vec<char> = Vec::new();
    r.push('t');
    r.push('y');
    r.push('p');
    r.push('e');
    r.push('s');
    r.push('c');
    r.push('r');
    r.push('i');
    r.push('p');
    r.push('t');
    r.push('-');
    r.push('d');
    r.push('e');
    r.push('n');
    r.push('o');
    r.push('-');
    r.push('p');
    r.push('l');
    r.push('u');
    r.push('g');
    r.push('i');
    r.push('n');
    proof {
        assert(r@ =~= plugin_name());
    }
    r
}

/// The managed keys are pairwise distinct.
pub proof fn lemma_managed_keys_distinct()
    ensures
        base_url_key() != paths_key(),
        base_url_key() != plugins_key(),
        paths_key() != plugins_key(),
        deno_key() != http_key(),
        deno_key() != https_key(),
        http_key() != https_key(),
{
    assert(base_url_key().len() != paths_key().len());
    assert(base_url_key()[0] != plugins_key()[0]);
    assert(paths_key().len() != plugins_key().len());
    assert(deno_key().len() != http_key().len());
    assert(deno_key().len() != https_key().len());
    assert(http_key().len() != https_key().len());
}

/// The plugin descriptor that every run appends.
fn plugin_entry_val() -> (r: Json)
    ensures
        jv(r) == plugin_entry(),
{
    let name_k = name_key_vec();
    let pn = plugin_name_vec();
    let mut ms: Vec<(Vec<char>, Json)> = Vec::new();
    ms.push((name_k, Json::Str(pn)));
    proof {
        assert(ms@.drop_first() =~= Seq::<(Vec<char>, Json)>::empty());
        assert(jv_members(Seq::<(Vec<char>, Json)>::empty()) =~= Seq::<(Seq<char>, JsonV)>::empty());
        assert(ms@[0].0@ == name_key());
        assert(jv(ms@[0].1) == JsonV::Str(plugin_name()));
        assert(jv_members(ms@) =~= seq![(ms@[0].0@, jv(ms@[0].1))] + jv_members(ms@.drop_first()));
        assert(jv_members(ms@) =~= seq![(name_key(), JsonV::Str(plugin_name()))]);
    }
    Json::Obj(ms)
}

/// Performs the merge on a parsed document; `None` is the structure fault.
pub fn merge_doc(v: Json, deno: &Vec<char>, http: &Vec<char>, https: &Vec<char>) -> (r: Option<
    Json,
>)
    ensures
        match r {
            Some(m) => merge_spec(jv(v), deno@, http@, https@) == Some(jv(m)),
            None => merge_spec(jv(v), deno@, http@, https@) is None,
        },
{
    let mut root = match v {
        Json::Obj(ms) => ms,
        _ => {
            return None;
        },
    };
    let ghost rootv = jv_members(root@);

    let co_key = compiler_options_key_vec();
    let co_taken = obj_take(&mut root, &co_key);
    let co: Vec<(Vec<char>, Json)> = match co_taken {
        None => Vec::new(),
        Some(Json::Null) => Vec::new(),
        Some(Json::Obj(m)) => m,
        Some(_) => {
            return None;
        },
    };
    let ghost co0 = jv_members(co@);
    proof {
        assert(section_members(rootv, compiler_options_key()) == Some(co0)) by {
            if co_taken is None || co_taken == Some(Json::Null) {
                assert(co@ =~= Seq::<(Vec<char>, Json)>::empty());
                assert(jv_members(co@) =~= Seq::<(Seq<char>, JsonV)>::empty());
            }
        }
    }

    let mut co = co;
    let bu_key = base_url_key_vec();
    let _prior_base_url = obj_take(&mut co, &bu_key);
    let ghost co_a = jv_members(co@);

    let p_key = paths_key_vec();
    proof {
        lemma_managed_keys_distinct();
        lemma_del_get(co0, base_url_key(), paths_key());
    }
    let p_taken = obj_take(&mut co, &p_key);
    let paths_ms: Vec<(Vec<char>, Json)> = match p_taken {
        None => Vec::new(),
        Some(Json::Null) => Vec::new(),
        Some(Json::Obj(m)) => m,
        Some(_) => {
            return None;
        },
    };
    let ghost p0 = jv_members(paths_ms@);
    proof {
        assert(section_members(co0, paths_key()) == Some(p0)) by {
            if p_taken is None || p_taken == Some(Json::Null) {
                assert(paths_ms@ =~= Seq::<(Vec<char>, Json)>::empty());
                assert(jv_members(paths_ms@) =~= Seq::<(Seq<char>, JsonV)>::empty());
            }
        }
    }

    let pl_key = plugins_key_vec();
    proof {
        lemma_managed_keys_distinct();
        lemma_del_get(co0, base_url_key(), plugins_key());
        lemma_del_get(co_a, paths_key(), plugins_key());
    }
    let pl_taken = obj_take(&mut co, &pl_key);
    let ghost co1 = jv_members(co@);
    let plugins: Vec<Json> = match pl_taken {
        None => Vec::new(),
        Some(Json::Null) => Vec::new(),
        Some(Json::Arr(a)) => a,
        Some(_) => {
            return None;
        },
    };
    let ghost pl0 = jv_seq(plugins@);
    proof {
        assert(section_items(co0, plugins_key()) == Some(pl0)) by {
            if pl_taken is None || pl_taken == Some(Json::Null) {
                assert(plugins@ =~= Seq::<Json>::empty());
                assert(jv_seq(plugins@) =~= Seq::<JsonV>::empty());
            }
        }
        assert(co1 == del(del(del(co0, base_url_key()), paths_key()), plugins_key()));
    }

    // Rebuild the managed sections.
    let co = obj_put(co, bu_key, Json::Str(dot_vec()));
    let paths_ms = obj_put(paths_ms, deno_key_vec(), Json::Str(escape_text(deno)));
    let paths_ms = obj_put(paths_ms, http_key_vec(), Json::Str(escape_text(http)));
    let paths_ms = obj_put(paths_ms, https_key_vec(), Json::Str(escape_text(https)));
    proof {
        assert(jv_members(paths_ms@) == merged_paths(p0, deno@, http@, https@));
    }
    let co = obj_put(co, p_key, Json::Obj(paths_ms));
    let entry = plugin_entry_val();
    let mut plugins = plugins;
    let ghost plv = plugins@;
    plugins.push(entry);
    proof {
        lemma_jv_seq_len(plugins@);
        lemma_jv_seq_len(plv);
        assert forall|n: int| 0 <= n < plugins@.len() implies #[trigger] jv_seq(plugins@)[n]
            == pl0.push(plugin_entry())[n] by {
            lemma_jv_seq_index(plugins@, n);
            if n < plv.len() {
                lemma_jv_seq_index(plv, n);
                assert(plugins@[n] == plv[n]);
            }
        }
        assert(jv_seq(plugins@) =~= pl0.push(plugin_entry()));
    }
    let co = obj_put(co, pl_key, Json::Arr(plugins));
    proof {
        assert(jv_members(co@) == merged_options(co0, p0, pl0, deno@, http@, https@));
    }
    let root = obj_put(root, co_key, Json::Obj(co));
    proof {
        assert(jv_members(root@) == put(
            del(rootv, compiler_options_key()),
            compiler_options_key(),
            JsonV::Obj(merged_options(co0, p0, pl0, deno@, http@, https@)),
        ));
    }
    Some(Json::Obj(root))
}

} // verus!
