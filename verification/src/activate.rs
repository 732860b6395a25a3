//! The activation manager: normalizes a profile document, merges the
//! result into the live settings document without touching unrelated
//! fields, and re-derives which stored profile is currently active by
//! structural comparison.

use vstd::prelude::*;

verus! {

use crate::json::{
    Json, JsonV, as_arr, elems_view, fields_view, get_field, jeq, jget, json_clone, json_eq,
    json_view, obj_get, seq_jeq,
};
use crate::normalize::{convert_models, spec_convert_models};
use crate::parse::{parse_json, parse_of};
use crate::strings::str_eq;

/// What can go wrong around an activation: a file that cannot be read, a
/// text that is not valid JSON (or not a usable settings document), or a
/// file that cannot be written.
#[derive(Clone, Copy, Debug, PartialEq, Eq, Structural)]
pub enum ConfigError {
    ReadError,
    ParseError,
    WriteError,
}

/// The field list with the first binding of `k` replaced by `v`, or with
/// `(k, v)` appended when no binding carries `k`.
pub open spec fn set_key(f: Seq<(Seq<char>, JsonV)>, k: Seq<char>, v: JsonV) -> Seq<(Seq<char>, JsonV)>
    decreases f.len(),
{
    if f.len() == 0 {
        seq![(k, v)]
    } else if f[0].0 == k {
        seq![(k, v)] + f.drop_first()
    } else {
        seq![f[0]] + set_key(f.drop_first(), k, v)
    }
}

/// The live document after an activation: an object keeps all its fields
/// but `customModels`, which now holds the list; anything else becomes a
/// fresh document holding only the list.
pub open spec fn spec_apply(live: JsonV, models: Seq<JsonV>) -> JsonV {
    match live {
        JsonV::Obj(f) => JsonV::Obj(set_key(f, "customModels"@, JsonV::Arr(models))),
        _ => JsonV::Obj(seq![("customModels"@, JsonV::Arr(models))]),
    }
}

/// Setting a key makes it hold the new value.
pub proof fn lemma_set_key_get(f: Seq<(Seq<char>, JsonV)>, k: Seq<char>, v: JsonV)
    ensures
        obj_get(set_key(f, k, v), k) == Some(v),
    decreases f.len(),
{
    if f.len() == 0 {
    } else if f[0].0 == k {
    } else {
        lemma_set_key_get(f.drop_first(), k, v);
        assert(set_key(f, k, v).drop_first() =~= set_key(f.drop_first(), k, v));
    }
}

/// Setting a key leaves every other key's value alone.
pub proof fn lemma_set_key_other(f: Seq<(Seq<char>, JsonV)>, k: Seq<char>, v: JsonV, k2: Seq<char>)
    requires
        k2 != k,
    ensures
        obj_get(set_key(f, k, v), k2) == obj_get(f, k2),
    decreases f.len(),
{
    if f.len() == 0 {
        assert(set_key(f, k, v)[0] == (k, v));
        assert(set_key(f, k, v).drop_first() =~= Seq::<(Seq<char>, JsonV)>::empty());
        assert(obj_get(set_key(f, k, v), k2) == obj_get(set_key(f, k, v).drop_first(), k2));
    } else if f[0].0 == k {
        assert(set_key(f, k, v).drop_first() =~= f.drop_first());
        assert(set_key(f, k, v)[0] == (k, v));
        assert(obj_get(set_key(f, k, v), k2) == obj_get(f.drop_first(), k2));
        assert(obj_get(f, k2) == obj_get(f.drop_first(), k2));
    } else {
        lemma_set_key_other(f.drop_first(), k, v, k2);
        assert(set_key(f, k, v).drop_first() =~= set_key(f.drop_first(), k, v));
        assert(set_key(f, k, v)[0] == f[0]);
        if f[0].0 == k2 {
            assert(obj_get(set_key(f, k, v), k2) == Some(f[0].1));
            assert(obj_get(f, k2) == Some(f[0].1));
        } else {
            assert(obj_get(set_key(f, k, v), k2) == obj_get(set_key(f.drop_first(), k, v), k2));
            assert(obj_get(f, k2) == obj_get(f.drop_first(), k2));
        }
    }
}

/// When the key first occurs at position `i`, setting it replaces exactly
/// that binding.
proof fn lemma_set_key_found(f: Seq<(Seq<char>, JsonV)>, k: Seq<char>, v: JsonV, i: int)
    requires
        0 <= i < f.len(),
        f[i].0 == k,
        forall|j: int| 0 <= j < i ==> (#[trigger] f[j]).0 != k,
    ensures
        set_key(f, k, v) == f.take(i) + seq![(k, v)] + f.skip(i + 1),
    decreases i,
{
    if i == 0 {
        assert(set_key(f, k, v) =~= f.take(0) + seq![(k, v)] + f.skip(1));
    } else {
        lemma_set_key_found(f.drop_first(), k, v, i - 1);
        assert(f[0].0 != k);
        assert(set_key(f, k, v) =~= f.take(i) + seq![(k, v)] + f.skip(i + 1));
    }
}

/// When no binding carries the key, setting it appends one.
proof fn lemma_set_key_absent(f: Seq<(Seq<char>, JsonV)>, k: Seq<char>, v: JsonV)
    requires
        forall|j: int| 0 <= j < f.len() ==> (#[trigger] f[j]).0 != k,
    ensures
        set_key(f, k, v) == f + seq![(k, v)],
    decreases f.len(),
{
    if f.len() == 0 {
        assert(set_key(f, k, v) =~= f + seq![(k, v)]);
    } else {
        assert(f[0].0 != k);
        lemma_set_key_absent(f.drop_first(), k, v);
        assert(set_key(f, k, v) =~= f + seq![(k, v)]);
    }
}

/// Activation sets `customModels` to the list and leaves every other
/// top-level field of the live document unchanged.
pub proof fn lemma_apply_preserves(live: JsonV, models: Seq<JsonV>)
    ensures
        jget(spec_apply(live, models), "customModels"@) == Some(JsonV::Arr(models)),
        live is Obj ==> forall|k: Seq<char>|
            k != "customModels"@ ==> jget(spec_apply(live, models), k) == jget(live, k),
{
    match live {
        JsonV::Obj(f) => {
            lemma_set_key_get(f, "customModels"@, JsonV::Arr(models));
            assert forall|k: Seq<char>| k != "customModels"@ implies jget(spec_apply(live, models), k)
                == jget(live, k) by {
                lemma_set_key_other(f, "customModels"@, JsonV::Arr(models), k);
            }
        },
        _ => {},
    }
}

/// Merges a normalized list into a live document, replacing only the
/// `customModels` field.
#[verifier::loop_isolation(false)]
pub fn apply_models(live: &Json, models: Vec<Json>) -> (r: Json)
    requires
        live@ is Obj || live@ is Null,
    ensures
        r@ == spec_apply(live@, elems_view(models@)),
        jget(r@, "customModels"@) == Some(JsonV::Arr(elems_view(models@))),
        live@ is Obj ==> forall|k: Seq<char>|
            k != "customModels"@ ==> jget(r@, k) == jget(live@, k),
{
    proof {
        lemma_apply_preserves(live@, elems_view(models@));
    }
    let ghost mseq = elems_view(models@);
    let ghost varr = JsonV::Arr(mseq);
    let new_arr = Json::Arr(models);
    match live {
        Json::Obj(fields) => {
            let ghost fv = fields_view(fields@);
            let mut idx: usize = 0;
            let mut found = false;
            while !found && idx < fields.len()
                invariant
                    0 <= idx <= fields.len(),
                    forall|j: int| 0 <= j < idx ==> (#[trigger] fv[j]).0 != "customModels"@,
                    found ==> idx < fields.len() && fv[idx as int].0 == "customModels"@,
                decreases fields.len() - idx, (if found { 0int } else { 1int }),
            {
                if str_eq(&fields[idx].0, "customModels") {
                    found = true;
                } else {
                    idx = idx + 1;
                }
            }
            let mut out: Vec<(String, Json)> = Vec::new();
            let mut i: usize = 0;
            while i < idx
                invariant
                    0 <= i <= idx,
                    out.len() == i,
                    forall|m: int|
                        0 <= m < i ==> (#[trigger] out@[m]).0@ == fv[m].0 && json_view(out@[m].1) == fv[m].1,
                decreases idx - i,
            {
                let key = fields[i].0.clone();
                let val = json_clone(&fields[i].1);
                out.push((key, val));
                i = i + 1;
            }
            out.push(("customModels".to_owned(), new_arr));
            if found {
                let mut i2: usize = idx + 1;
                while i2 < fields.len()
                    invariant
                        idx + 1 <= i2 <= fields.len(),
                        out.len() == i2,
                        forall|m: int|
                            0 <= m < idx ==> (#[trigger] out@[m]).0@ == fv[m].0 && json_view(out@[m].1)
                                == fv[m].1,
                        out@[idx as int].0@ == "customModels"@ && json_view(out@[idx as int].1) == varr,
                        forall|m: int|
                            idx < m < i2 ==> (#[trigger] out@[m]).0@ == fv[m].0 && json_view(out@[m].1)
                                == fv[m].1,
                    decreases fields.len() - i2,
                {
                    let key = fields[i2].0.clone();
                    let val = json_clone(&fields[i2].1);
                    out.push((key, val));
                    i2 = i2 + 1;
                }
            }
            let ghost ov = out@;
            let r = Json::Obj(out);
            proof {
                if found {
                    lemma_set_key_found(fv, "customModels"@, varr, idx as int);
                    assert(fields_view(ov) =~= fv.take(idx as int) + seq![("customModels"@, varr)] + fv.skip(
                        idx as int + 1,
                    ));
                } else {
                    lemma_set_key_absent(fv, "customModels"@, varr);
                    assert(fields_view(ov) =~= fv + seq![("customModels"@, varr)]);
                }
            }
            r
        },
        _ => {
            let mut out: Vec<(String, Json)> = Vec::new();
            out.push(("customModels".to_owned(), new_arr));
            let ghost ov = out@;
            let r = Json::Obj(out);
            proof {
                assert(fields_view(ov) =~= seq![("customModels"@, varr)]);
            }
            r
        },
    }
}

/// Whether a parsed live document can take an activation in place: it must
/// be a JSON object, or `null`, which becomes a fresh object.
pub open spec fn mergeable(d: JsonV) -> bool {
    d is Obj || d is Null
}

/// The outcome of activating a profile text onto a live text: the new live
/// document, or the error. `Err(ParseError)` comes exactly when the
/// profile text is malformed, or the live text is malformed or not a
/// mergeable document.
pub open spec fn spec_apply_outcome(profile: Seq<char>, live: Option<Seq<char>>) -> Result<
    JsonV,
    ConfigError,
> {
    match parse_of(profile) {
        Some(p) => match live {
            Some(lt) => match parse_of(lt) {
                Some(ld) => if mergeable(ld) {
                    Ok(spec_apply(ld, spec_convert_models(p)))
                } else {
                    Err(ConfigError::ParseError)
                },
                None => Err(ConfigError::ParseError),
            },
            None => Ok(spec_apply(JsonV::Null, spec_convert_models(p))),
        },
        None => Err(ConfigError::ParseError),
    }
}

/// Computes the live document that activating a profile text yields, from
/// the profile's text and the current live text (`None` when no live
/// document exists yet). Reading and writing the files stays with the
/// caller.
pub fn apply_config(profile: &str, live: Option<&String>) -> (r: Result<Json, ConfigError>)
    ensures
        ({
            let lt = match live {
                Some(t) => Some(t@),
                None => None,
            };
            match r {
                Ok(j) => spec_apply_outcome(profile@, lt) == Ok::<JsonV, ConfigError>(j@),
                Err(e) => spec_apply_outcome(profile@, lt) == Err::<JsonV, ConfigError>(e),
            }
        }),
{
    let parsed = match parse_json(profile) {
        Some(p) => p,
        None => {
            return Err(ConfigError::ParseError);
        },
    };
    proof {
        crate::normalize::lemma_models_list_bounded(parsed@);
    }
    let models = convert_models(&parsed);
    match live {
        Some(t) => {
            let live_doc = match parse_json(t.as_str()) {
                Some(d) => d,
                None => {
                    return Err(ConfigError::ParseError);
                },
            };
            let ok = match &live_doc {
                Json::Obj(_) => true,
                Json::Null => true,
                _ => false,
            };
            if !ok {
                return Err(ConfigError::ParseError);
            }
            Ok(apply_models(&live_doc, models))
        },
        None => {
            let fresh = Json::Null;
            Ok(apply_models(&fresh, models))
        },
    }
}

/// The list a live document holds under `customModels`, if it is an
/// object carrying an array there.
pub open spec fn live_list(d: JsonV) -> Option<Seq<JsonV>> {
    match jget(d, "customModels"@) {
        Some(v) => as_arr(v),
        None => None,
    }
}

/// Whether a candidate profile text normalizes to exactly the live list.
/// A malformed candidate matches nothing.
pub open spec fn cand_matches(live: Seq<JsonV>, text: Seq<char>) -> bool {
    match parse_of(text) {
        Some(d) => seq_jeq(spec_convert_models(d), live),
        None => false,
    }
}

/// Decides element-by-element structural equality of two JSON lists.
fn lists_jeq(a: &Vec<Json>, b: &Vec<Json>) -> (r: bool)
    ensures
        r == seq_jeq(elems_view(a@), elems_view(b@)),
{
    if a.len() != b.len() {
        return false;
    }
    let mut i: usize = 0;
    while i < a.len()
        invariant
            0 <= i <= a.len(),
            a.len() == b.len(),
            forall|m: int| 0 <= m < i ==> jeq(#[trigger] elems_view(a@)[m], elems_view(b@)[m]),
        decreases a.len() - i,
    {
        let eqi = json_eq(&a[i], &b[i]);
        proof {
            assert(elems_view(a@)[i as int] == json_view(a@[i as int]));
            assert(elems_view(b@)[i as int] == json_view(b@[i as int]));
        }
        if !eqi {
            return false;
        }
        i = i + 1;
    }
    true
}

/// Re-derives which stored profile is active: the live text is parsed and
/// its `customModels` array compared, structurally and in order, against
/// the normalization of each candidate `(path, content)` in turn; the
/// first match wins. An unusable live document, or no match, yields
/// `None`.
#[verifier::loop_isolation(false)]
pub fn get_current_config(live_text: Option<&String>, candidates: &Vec<(String, String)>) -> (r:
    Option<String>)
    ensures
        ({
            let ll = match live_text {
                Some(t) => match parse_of(t@) {
                    Some(d) => live_list(d),
                    None => None,
                },
                None => None,
            };
            match r {
                Some(p) => ll is Some && exists|i: int|
                    0 <= i < candidates@.len() && p@ == (#[trigger] candidates@[i]).0@ && cand_matches(
                        ll->0,
                        candidates@[i].1@,
                    ) && forall|j: int|
                        0 <= j < i ==> !cand_matches(ll->0, (#[trigger] candidates@[j]).1@),
                None => ll is None || forall|i: int|
                    0 <= i < candidates@.len() ==> !cand_matches(ll->0, (#[trigger] candidates@[i]).1@),
            }
        }),
{
    let lt = match live_text {
        Some(t) => t,
        None => {
            return None;
        },
    };
    let live_doc = match parse_json(lt.as_str()) {
        Some(d) => d,
        None => {
            return None;
        },
    };
    let live_arr = match get_field(&live_doc, "customModels") {
        Some(v) => match v {
            Json::Arr(a) => a,
            _ => {
                return None;
            },
        },
        None => {
            return None;
        },
    };
    let ghost ll = elems_view(live_arr@);
    let mut i: usize = 0;
    while i < candidates.len()
        invariant
            0 <= i <= candidates.len(),
            forall|j: int| 0 <= j < i ==> !cand_matches(ll, (#[trigger] candidates@[j]).1@),
        decreases candidates.len() - i,
    {
        match parse_json(candidates[i].1.as_str()) {
            Some(cfg) => {
                proof {
                    crate::normalize::lemma_models_list_bounded(cfg@);
                }
                let converted = convert_models(&cfg);
                if lists_jeq(&converted, live_arr) {
                    return Some(candidates[i].0.clone());
                }
            },
            None => {},
        }
        i = i + 1;
    }
    None
}

/// The profile document that captures the live document's current list:
/// only `customModels` is kept, defaulting to an empty array.
pub open spec fn spec_export(live: JsonV) -> JsonV {
    JsonV::Obj(
        seq![
            ("customModels"@, match jget(live, "customModels"@) {
                Some(v) => v,
                None => JsonV::Arr(Seq::empty()),
            }),
        ],
    )
}

/// Builds the profile document that captures a live document's current
/// list, for importing the active state as a new stored profile.
pub fn export_current(live: &Json) -> (r: Json)
    ensures
        r@ == spec_export(live@),
{
    let list = match get_field(live, "customModels") {
        Some(v) => json_clone(v),
        None => Json::Arr(Vec::new()),
    };
    let mut out: Vec<(String, Json)> = Vec::new();
    out.push(("customModels".to_owned(), list));
    let ghost ov = out@;
    let r = Json::Obj(out);
    proof {
        assert(elems_view(Seq::<Json>::empty()) =~= Seq::<JsonV>::empty());
        assert(fields_view(ov) =~= spec_export(live@)->Obj_0);
    }
    r
}

/// The empty profile document that a newly created profile starts from.
pub fn config_template() -> (r: Json)
    ensures
        r@ == JsonV::Obj(seq![("customModels"@, JsonV::Arr(Seq::empty()))]),
{
    let mut out: Vec<(String, Json)> = Vec::new();
    out.push(("customModels".to_owned(), Json::Arr(Vec::new())));
    let ghost ov = out@;
    let r = Json::Obj(out);
    proof {
        assert(elems_view(Seq::<Json>::empty()) =~= Seq::<JsonV>::empty());
        assert(fields_view(ov) =~= seq![("customModels"@, JsonV::Arr(Seq::<JsonV>::empty()))]);
    }
    r
}

/// Round trip of activation and reverse lookup: after activating the
/// profile text at position `n`, the live list equals that profile's
/// normalization, the candidate at `n` matches it, and, provided no
/// earlier candidate's normalization also matches, the first match is
/// exactly `n`.
pub proof fn lemma_reverse_lookup_round_trip(
    t: Seq<char>,
    old_live: JsonV,
    cands: Seq<(Seq<char>, Seq<char>)>,
    n: int,
)
    requires
        parse_of(t) is Some,
        mergeable(old_live),
        0 <= n < cands.len(),
        cands[n].1 == t,
        forall|j: int|
            0 <= j < n ==> !cand_matches(
                spec_convert_models(parse_of(t)->0),
                (#[trigger] cands[j]).1,
            ),
    ensures
        ({
            let models = spec_convert_models(parse_of(t)->0);
            let live2 = spec_apply(old_live, models);
            &&& live_list(live2) == Some(models)
            &&& cand_matches(models, cands[n].1)
            &&& forall|j: int| 0 <= j < n ==> !cand_matches(models, (#[trigger] cands[j]).1)
        }),
{
    let models = spec_convert_models(parse_of(t)->0);
    lemma_apply_preserves(old_live, models);
    crate::json::lemma_seq_jeq_refl(models);
}

/// A profile document with neither list key normalizes to the empty
/// sequence, and activating it merely empties the live document's
/// `customModels`, touching nothing else.
pub proof fn lemma_missing_list_key(d: JsonV, live: JsonV)
    requires
        jget(d, "customModels"@) is None,
        jget(d, "custom_models"@) is None,
    ensures
        spec_convert_models(d) == Seq::<JsonV>::empty(),
        jget(spec_apply(live, spec_convert_models(d)), "customModels"@) == Some(
            JsonV::Arr(Seq::<JsonV>::empty()),
        ),
        live is Obj ==> forall|k: Seq<char>|
            k != "customModels"@ ==> jget(spec_apply(live, spec_convert_models(d)), k) == jget(
                live,
                k,
            ),
{
    assert(spec_convert_models(d) =~= Seq::<JsonV>::empty());
    lemma_apply_preserves(live, spec_convert_models(d));
}

} // verus!
