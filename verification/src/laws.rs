//! The guarantees of the merge, stated and proved once and for all over
//! `merge_spec`, which `deno_init`'s contract ties to its output text.

use vstd::prelude::*;

use crate::json::{
    base_url_key, compiler_options_key, del, deno_key, dot_value, http_key, https_key,
    lemma_del_get, lemma_obj_get_objs_sorted, lemma_put_get, lemma_put_same, lemma_put_sorted,
    lex_lt, obj_get, paths_key, plugin_entry, plugins_key, put, sorted_members, JsonV,
};
use crate::merge::{
    lemma_managed_keys_distinct, merge_spec, merged_options, merged_paths, section_items,
    section_members,
};
use crate::render::esc;

verus! {

/// Inversion of a successful merge: the input is an object document whose
/// managed sections are containers of the right kind, and the output is
/// exactly the merged document built from them.
pub proof fn lemma_merge_parts(v: JsonV, d: Seq<char>, h: Seq<char>, s: Seq<char>, m: JsonV)
    requires
        merge_spec(v, d, h, s) == Some(m),
    ensures
        v matches JsonV::Obj(root0) && section_members(root0, compiler_options_key()) matches Some(
            co0,
        ) && section_members(co0, paths_key()) matches Some(p0) && section_items(
            co0,
            plugins_key(),
        ) matches Some(pl0) && m == JsonV::Obj(
            put(
                del(root0, compiler_options_key()),
                compiler_options_key(),
                JsonV::Obj(merged_options(co0, p0, pl0, d, h, s)),
            ),
        ),
{
}

/// Every successful merge leaves `compilerOptions` in place, with
/// `baseUrl` set to the string `"."`, the merged `paths` object, and the
/// extended `plugins` array under it.
pub proof fn lemma_merged_sections(v: JsonV, d: Seq<char>, h: Seq<char>, s: Seq<char>, m: JsonV)
    requires
        merge_spec(v, d, h, s) == Some(m),
    ensures
        v matches JsonV::Obj(root0) && section_members(root0, compiler_options_key()) matches Some(
            co0,
        ) && section_members(co0, paths_key()) matches Some(p0) && section_items(
            co0,
            plugins_key(),
        ) matches Some(pl0) && m matches JsonV::Obj(root1) && {
            &&& obj_get(root1, compiler_options_key()) == Some(
                JsonV::Obj(merged_options(co0, p0, pl0, d, h, s)),
            )
            &&& obj_get(merged_options(co0, p0, pl0, d, h, s), base_url_key()) == Some(
                JsonV::Str(dot_value()),
            )
            &&& obj_get(merged_options(co0, p0, pl0, d, h, s), paths_key()) == Some(
                JsonV::Obj(merged_paths(p0, d, h, s)),
            )
            &&& obj_get(merged_options(co0, p0, pl0, d, h, s), plugins_key()) == Some(
                JsonV::Arr(pl0.push(plugin_entry())),
            )
        },
{
    lemma_merge_parts(v, d, h, s, m);
    lemma_managed_keys_distinct();
    let root0 = v->Obj_0;
    let co0 = section_members(root0, compiler_options_key())->Some_0;
    let p0 = section_members(co0, paths_key())->Some_0;
    let pl0 = section_items(co0, plugins_key())->Some_0;
    let co2 = merged_options(co0, p0, pl0, d, h, s);
    lemma_put_get(
        del(root0, compiler_options_key()),
        compiler_options_key(),
        JsonV::Obj(co2),
        compiler_options_key(),
    );
    let co1 = del(del(del(co0, base_url_key()), paths_key()), plugins_key());
    let step1 = put(co1, base_url_key(), JsonV::Str(dot_value()));
    let step2 = put(step1, paths_key(), JsonV::Obj(merged_paths(p0, d, h, s)));
    lemma_put_get(step2, plugins_key(), JsonV::Arr(pl0.push(plugin_entry())), base_url_key());
    lemma_put_get(step1, paths_key(), JsonV::Obj(merged_paths(p0, d, h, s)), base_url_key());
    lemma_put_get(co1, base_url_key(), JsonV::Str(dot_value()), base_url_key());
    lemma_put_get(step2, plugins_key(), JsonV::Arr(pl0.push(plugin_entry())), paths_key());
    lemma_put_get(step1, paths_key(), JsonV::Obj(merged_paths(p0, d, h, s)), paths_key());
    lemma_put_get(step2, plugins_key(), JsonV::Arr(pl0.push(plugin_entry())), plugins_key());
}

/// After any merge, `paths` holds exactly the freshly supplied values under
/// the three managed keys, whatever stood there before.
pub proof fn lemma_merged_paths_fresh(
    p0: Seq<(Seq<char>, JsonV)>,
    d: Seq<char>,
    h: Seq<char>,
    s: Seq<char>,
)
    ensures
        obj_get(merged_paths(p0, d, h, s), deno_key()) == Some(JsonV::Str(esc(d))),
        obj_get(merged_paths(p0, d, h, s), http_key()) == Some(JsonV::Str(esc(h))),
        obj_get(merged_paths(p0, d, h, s), https_key()) == Some(JsonV::Str(esc(s))),
{
    lemma_managed_keys_distinct();
    let step1 = put(p0, deno_key(), JsonV::Str(esc(d)));
    let step2 = put(step1, http_key(), JsonV::Str(esc(h)));
    lemma_put_get(step2, https_key(), JsonV::Str(esc(s)), deno_key());
    lemma_put_get(step1, http_key(), JsonV::Str(esc(h)), deno_key());
    lemma_put_get(p0, deno_key(), JsonV::Str(esc(d)), deno_key());
    lemma_put_get(step2, https_key(), JsonV::Str(esc(s)), http_key());
    lemma_put_get(step1, http_key(), JsonV::Str(esc(h)), http_key());
    lemma_put_get(step2, https_key(), JsonV::Str(esc(s)), https_key());
}

/// `paths` entries under keys other than the three managed ones come through
/// the merge unmodified.
pub proof fn lemma_merged_paths_preserved(
    p0: Seq<(Seq<char>, JsonV)>,
    d: Seq<char>,
    h: Seq<char>,
    s: Seq<char>,
    k: Seq<char>,
)
    requires
        k != deno_key(),
        k != http_key(),
        k != https_key(),
    ensures
        obj_get(merged_paths(p0, d, h, s), k) == obj_get(p0, k),
{
    let step1 = put(p0, deno_key(), JsonV::Str(esc(d)));
    let step2 = put(step1, http_key(), JsonV::Str(esc(h)));
    lemma_put_get(step2, https_key(), JsonV::Str(esc(s)), k);
    lemma_put_get(step1, http_key(), JsonV::Str(esc(h)), k);
    lemma_put_get(p0, deno_key(), JsonV::Str(esc(d)), k);
}

/// `compilerOptions` entries other than the three managed ones come through
/// the merge unmodified.
pub proof fn lemma_merged_options_preserved(
    co0: Seq<(Seq<char>, JsonV)>,
    p0: Seq<(Seq<char>, JsonV)>,
    pl0: Seq<JsonV>,
    d: Seq<char>,
    h: Seq<char>,
    s: Seq<char>,
    k: Seq<char>,
)
    requires
        k != base_url_key(),
        k != paths_key(),
        k != plugins_key(),
    ensures
        obj_get(merged_options(co0, p0, pl0, d, h, s), k) == obj_get(co0, k),
{
    let co1 = del(del(del(co0, base_url_key()), paths_key()), plugins_key());
    let step1 = put(co1, base_url_key(), JsonV::Str(dot_value()));
    let step2 = put(step1, paths_key(), JsonV::Obj(merged_paths(p0, d, h, s)));
    lemma_put_get(step2, plugins_key(), JsonV::Arr(pl0.push(plugin_entry())), k);
    lemma_put_get(step1, paths_key(), JsonV::Obj(merged_paths(p0, d, h, s)), k);
    lemma_put_get(co1, base_url_key(), JsonV::Str(dot_value()), k);
    lemma_del_get(del(del(co0, base_url_key()), paths_key()), plugins_key(), k);
    lemma_del_get(del(co0, base_url_key()), paths_key(), k);
    lemma_del_get(co0, base_url_key(), k);
}

/// Root entries other than `compilerOptions` come through the merge
/// unmodified.
pub proof fn lemma_merged_root_preserved(
    v: JsonV,
    d: Seq<char>,
    h: Seq<char>,
    s: Seq<char>,
    m: JsonV,
    k: Seq<char>,
)
    requires
        merge_spec(v, d, h, s) == Some(m),
        k != compiler_options_key(),
    ensures
        v matches JsonV::Obj(root0) && m matches JsonV::Obj(root1) && obj_get(root1, k) == obj_get(
            root0,
            k,
        ),
{
    lemma_merge_parts(v, d, h, s, m);
    let root0 = v->Obj_0;
    let co0 = section_members(root0, compiler_options_key())->Some_0;
    let p0 = section_members(co0, paths_key())->Some_0;
    let pl0 = section_items(co0, plugins_key())->Some_0;
    lemma_put_get(
        del(root0, compiler_options_key()),
        compiler_options_key(),
        JsonV::Obj(merged_options(co0, p0, pl0, d, h, s)),
        k,
    );
    lemma_del_get(root0, compiler_options_key(), k);
}

/// The input's `paths` section, where it exists, has its keys in order: the
/// shape every parsed document and every merged document has.
pub open spec fn paths_section_sorted(v: JsonV) -> bool {
    match v {
        JsonV::Obj(root) => match section_members(root, compiler_options_key()) {
            Some(co0) => match section_members(co0, paths_key()) {
                Some(p0) => sorted_members(p0),
                None => true,
            },
            None => true,
        },
        _ => true,
    }
}

/// Feeding a merged document through the merge again succeeds, changes
/// nothing about `baseUrl` or `paths` or the unmanaged root entries, and
/// appends exactly one more managed plugin descriptor per run.
pub proof fn lemma_merge_idempotent(v: JsonV, d: Seq<char>, h: Seq<char>, s: Seq<char>, m: JsonV)
    requires
        merge_spec(v, d, h, s) == Some(m),
        paths_section_sorted(v),
    ensures
        merge_spec(m, d, h, s) matches Some(m2) && m matches JsonV::Obj(rm) && m2 matches JsonV::Obj(
            rm2,
        ) && obj_get(rm, compiler_options_key()) matches Some(JsonV::Obj(cm)) && obj_get(
            rm2,
            compiler_options_key(),
        ) matches Some(JsonV::Obj(cm2)) && {
            &&& obj_get(cm2, paths_key()) == obj_get(cm, paths_key())
            &&& obj_get(cm2, base_url_key()) == obj_get(cm, base_url_key())
            &&& obj_get(cm, plugins_key()) matches Some(JsonV::Arr(pl1)) && obj_get(
                cm2,
                plugins_key(),
            ) == Some(JsonV::Arr(pl1.push(plugin_entry())))
            &&& forall|k: Seq<char>|
                k != compiler_options_key() ==> #[trigger] obj_get(rm2, k) == obj_get(rm, k)
        },
{
    lemma_merge_parts(v, d, h, s, m);
    lemma_merged_sections(v, d, h, s, m);
    lemma_managed_keys_distinct();
    let root0 = v->Obj_0;
    let co0 = section_members(root0, compiler_options_key())->Some_0;
    let p0 = section_members(co0, paths_key())->Some_0;
    let pl0 = section_items(co0, plugins_key())->Some_0;
    let cm = merged_options(co0, p0, pl0, d, h, s);
    let rm = m->Obj_0;
    let pm = merged_paths(p0, d, h, s);
    let pl1 = pl0.push(plugin_entry());

    // The second run sees the merged sections.
    assert(section_members(rm, compiler_options_key()) == Some(cm));
    assert(section_members(cm, paths_key()) == Some(pm));
    assert(section_items(cm, plugins_key()) == Some(pl1));
    let m2 = JsonV::Obj(
        put(
            del(rm, compiler_options_key()),
            compiler_options_key(),
            JsonV::Obj(merged_options(cm, pm, pl1, d, h, s)),
        ),
    );
    assert(merge_spec(m, d, h, s) == Some(m2));
    lemma_merged_sections(m, d, h, s, m2);

    // The re-merged paths object is the very same member list.
    lemma_put_sorted(p0, deno_key(), JsonV::Str(esc(d)));
    lemma_put_sorted(put(p0, deno_key(), JsonV::Str(esc(d))), http_key(), JsonV::Str(esc(h)));
    lemma_put_sorted(
        put(put(p0, deno_key(), JsonV::Str(esc(d))), http_key(), JsonV::Str(esc(h))),
        https_key(),
        JsonV::Str(esc(s)),
    );
    lemma_merged_paths_fresh(p0, d, h, s);
    lemma_put_same(pm, deno_key(), JsonV::Str(esc(d)));
    lemma_put_same(pm, http_key(), JsonV::Str(esc(h)));
    lemma_put_same(pm, https_key(), JsonV::Str(esc(s)));
    assert(merged_paths(pm, d, h, s) == pm);

    assert forall|k: Seq<char>| k != compiler_options_key() implies #[trigger] obj_get(
        m2->Obj_0,
        k,
    ) == obj_get(rm, k) by {
        lemma_merged_root_preserved(m, d, h, s, m2, k);
    }
}

/// The empty document merges into exactly the minimal document: one
/// `compilerOptions` object holding `baseUrl`, the three managed `paths`
/// entries, and the one managed plugin descriptor, and nothing else.
pub proof fn lemma_merge_empty(d: Seq<char>, h: Seq<char>, s: Seq<char>)
    ensures
        merge_spec(JsonV::Obj(Seq::empty()), d, h, s) == Some(
            JsonV::Obj(
                seq![
                    (
                        compiler_options_key(),
                        JsonV::Obj(
                            seq![
                                (base_url_key(), JsonV::Str(dot_value())),
                                (
                                    paths_key(),
                                    JsonV::Obj(
                                        seq![
                                            (deno_key(), JsonV::Str(esc(d))),
                                            (http_key(), JsonV::Str(esc(h))),
                                            (https_key(), JsonV::Str(esc(s))),
                                        ],
                                    ),
                                ),
                                (plugins_key(), JsonV::Arr(seq![plugin_entry()])),
                            ],
                        ),
                    ),
                ],
            ),
        ),
{
    reveal_with_fuel(lex_lt, 7);
    reveal_with_fuel(put, 5);
    reveal_with_fuel(del, 5);
    reveal_with_fuel(obj_get, 5);
    lemma_managed_keys_distinct();
    let root0 = Seq::<(Seq<char>, JsonV)>::empty();
    assert(section_members(root0, compiler_options_key()) == Some(root0));
    assert(section_members(root0, paths_key()) == Some(root0));
    assert(section_items(root0, plugins_key()) == Some(Seq::<JsonV>::empty()));

    // paths: the three managed entries, in order.
    let x = JsonV::Str(esc(d));
    let y = JsonV::Str(esc(h));
    let z = JsonV::Str(esc(s));
    let p1 = put(root0, deno_key(), x);
    assert(p1 =~= seq![(deno_key(), x)]);
    assert(!lex_lt(http_key(), deno_key()));
    let p2 = put(p1, http_key(), y);
    assert(p1.drop_first() =~= root0);
    assert(p2 =~= seq![(deno_key(), x), (http_key(), y)]);
    assert(!lex_lt(https_key(), deno_key()));
    assert(!lex_lt(https_key(), http_key()));
    let p3 = put(p2, https_key(), z);
    assert(p2.drop_first() =~= seq![(http_key(), y)]);
    assert(p2.drop_first().drop_first() =~= root0);
    assert(put(p2.drop_first(), https_key(), z) =~= seq![(http_key(), y), (https_key(), z)]);
    assert(p3 =~= seq![(deno_key(), x), (http_key(), y), (https_key(), z)]);
    assert(merged_paths(root0, d, h, s) == p3);

    // compilerOptions: baseUrl, paths, plugins, in order.
    let pv = JsonV::Obj(p3);
    let lv = JsonV::Arr(Seq::<JsonV>::empty().push(plugin_entry()));
    assert(Seq::<JsonV>::empty().push(plugin_entry()) =~= seq![plugin_entry()]);
    assert(del(root0, base_url_key()) =~= root0);
    assert(del(root0, paths_key()) =~= root0);
    assert(del(root0, plugins_key()) =~= root0);
    let c1 = put(root0, base_url_key(), JsonV::Str(dot_value()));
    assert(c1 =~= seq![(base_url_key(), JsonV::Str(dot_value()))]);
    assert(!lex_lt(paths_key(), base_url_key()));
    let c2 = put(c1, paths_key(), pv);
    assert(c1.drop_first() =~= root0);
    assert(c2 =~= seq![(base_url_key(), JsonV::Str(dot_value())), (paths_key(), pv)]);
    assert(!lex_lt(plugins_key(), base_url_key()));
    assert(!lex_lt(plugins_key(), paths_key()));
    let c3 = put(c2, plugins_key(), lv);
    assert(c2.drop_first() =~= seq![(paths_key(), pv)]);
    assert(c2.drop_first().drop_first() =~= root0);
    assert(put(c2.drop_first(), plugins_key(), lv) =~= seq![(paths_key(), pv), (plugins_key(), lv)]);
    assert(c3 =~= seq![
        (base_url_key(), JsonV::Str(dot_value())),
        (paths_key(), pv),
        (plugins_key(), lv),
    ]);
    assert(merged_options(root0, root0, Seq::<JsonV>::empty(), d, h, s) == c3);

    // the root: just compilerOptions.
    let rootm = put(del(root0, compiler_options_key()), compiler_options_key(), JsonV::Obj(c3));
    assert(del(root0, compiler_options_key()) =~= root0);
    assert(rootm =~= seq![(compiler_options_key(), JsonV::Obj(c3))]);
    assert(merge_spec(JsonV::Obj(root0), d, h, s) == Some(JsonV::Obj(rootm)));
}

/// Every document that an input text denotes meets the idempotence law's
/// hypothesis: where it has a `paths` section, that section's keys are in
/// order.
pub proof fn lemma_doc_of_sorted(text: Seq<char>)
    ensures
        crate::doc_of(text) matches Some(v) ==> paths_section_sorted(v),
{
    if text.len() == 0 {
        let empty = Seq::<(Seq<char>, JsonV)>::empty();
        assert(sorted_members(empty));
        assert(obj_get(empty, compiler_options_key()) is None);
        assert(paths_section_sorted(JsonV::Obj(empty)));
    } else {
        crate::parse::lemma_parse_doc_objs_sorted(text);
        match crate::parse::parse_doc(text) {
            Some(v) => match v {
                JsonV::Obj(root) => {
                    lemma_obj_get_objs_sorted(root, compiler_options_key());
                    match obj_get(root, compiler_options_key()) {
                        Some(JsonV::Obj(co0)) => {
                            lemma_obj_get_objs_sorted(co0, paths_key());
                        },
                        _ => {},
                    }
                },
                _ => {},
            },
            None => {},
        }
    }
}

} // verus!
