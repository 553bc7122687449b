//! Patches a TypeScript configuration document so that a language server can
//! resolve Deno's URL-based imports: the merge guarantees `compilerOptions`
//! with a `baseUrl` of `"."`, three managed `paths` entries pointing at the
//! local cache, and an appended `typescript-deno-plugin` descriptor, while
//! preserving everything else in the document.

mod json;
mod parse;
mod render;
mod merge;
mod laws;

use vstd::prelude::*;

verus! {

use vstd::string::StrSliceExecFns;
use vstd::string::StringExecFns;

use crate::json::{jv, jv_members, Json, JsonV};
use crate::merge::merge_spec;
use crate::render::render;

/// The three externally computed cache paths that the merge embeds into
/// `compilerOptions.paths`.
pub struct ConfigInfo {
    pub deno: String,
    pub deps_http: String,
    pub deps_https: String,
}

impl ConfigInfo {
    /// Packs three already-computed path strings; the caller is responsible
    /// for locating the cache directory and relativizing the paths.
    pub fn from_paths(deno: String, deps_http: String, deps_https: String) -> (r: ConfigInfo)
        ensures
            r.deno@ == deno@,
            r.deps_http@ == deps_http@,
            r.deps_https@ == deps_https@,
    {
        ConfigInfo { deno, deps_http, deps_https }
    }
}

/// The fixed `ConfigInfo` that the tests run the merge with.
pub fn config_gen() -> (r: ConfigInfo)
    ensures
        r.deno@ == "../../this/is/deno/path"@,
        r.deps_http@ == "../../this/is/http/path"@,
        r.deps_https@ == "../../this/is/https/path"@,
{
    ConfigInfo {
        deno: String::from_str("../../this/is/deno/path"),
        deps_http: String::from_str("../../this/is/http/path"),
        deps_https: String::from_str("../../this/is/https/path"),
    }
}

/// Why a merge run failed: the input text is not a well-formed document, or
/// a container that the merge must extend has the wrong kind.
#[derive(Debug, PartialEq, Eq, Structural)]
pub enum InitError {
    Parse,
    Structure,
}

/// The document that an input text denotes: the empty text is the sentinel
/// for "no existing file" and denotes the empty object document.
pub open spec fn doc_of(text: Seq<char>) -> Option<JsonV> {
    if text.len() == 0 {
        Some(JsonV::Obj(Seq::empty()))
    } else {
        crate::parse::parse_doc(text)
    }
}

/// The characters of a text, as a vector.
fn str_to_chars(s: &str) -> (r: Vec<char>)
    ensures
        r@ == s@,
{
    let n = s.unicode_len();
    let mut r: Vec<char> = Vec::new();
    let mut i: usize = 0;
    while i < n
        invariant
            i <= n,
            n == s@.len(),
            r@ == s@.subrange(0, i as int),
        decreases n - i,
    {
        let c = s.get_char(i);
        r.push(c);
        proof {
            assert(r@ =~= s@.subrange(0, i + 1));
        }
        i = i + 1;
    }
    proof {
        assert(s@.subrange(0, s@.len() as int) =~= s@);
    }
    r
}

/// Relies on `String: FromIterator<&char>`: collecting characters yields the
/// string of exactly those characters in order.
#[verifier::external_body]
fn chars_to_string(v: &Vec<char>) -> (r: String)
    ensures
        r@ == v@,
{
    v.iter().collect()
}

/// Merges the managed entries into the document text and pretty-prints the
/// result: `compilerOptions.baseUrl` becomes `"."`, the three managed
/// `paths` entries are set to the supplied path strings, one plugin
/// descriptor is appended to `compilerOptions.plugins`, and everything else
/// is preserved.
pub fn deno_init(json_str: String, config_info: &ConfigInfo) -> (r: Result<String, InitError>)
    ensures
        ({
            let doc = doc_of(json_str@);
            match r {
                Ok(out) => doc matches Some(v) && merge_spec(
                    v,
                    config_info.deno@,
                    config_info.deps_http@,
                    config_info.deps_https@,
                ) matches Some(m) && out@ == render(m, Seq::empty()),
                Err(InitError::Parse) => doc is None,
                Err(InitError::Structure) => doc matches Some(v) && merge_spec(
                    v,
                    config_info.deno@,
                    config_info.deps_http@,
                    config_info.deps_https@,
                ) is None,
            }
        }),
{
    let chars = str_to_chars(json_str.as_str());
    let parsed: Json = if chars.len() == 0 {
        let ms: Vec<(Vec<char>, Json)> = Vec::new();
        proof {
            assert(jv_members(ms@) =~= Seq::<(Seq<char>, JsonV)>::empty());
        }
        Json::Obj(ms)
    } else {
        match crate::parse::parse_text(&chars) {
            Some(v) => v,
            None => {
                return Err(InitError::Parse);
            },
        }
    };
    let deno_chars = str_to_chars(config_info.deno.as_str());
    let http_chars = str_to_chars(config_info.deps_http.as_str());
    let https_chars = str_to_chars(config_info.deps_https.as_str());
    let merged = match crate::merge::merge_doc(parsed, &deno_chars, &http_chars, &https_chars) {
        Some(m) => m,
        None => {
            return Err(InitError::Structure);
        },
    };
    let out = crate::render::render_doc(&merged);
    Ok(chars_to_string(&out))
}

} // verus!
