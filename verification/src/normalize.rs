//! The normalizer: one model-profile entry, written in any of the accepted
//! historical shapes, becomes the canonical shape. An entry that already
//! carries `id`, `index` and `displayName` passes through untouched; any
//! other entry is rebuilt field by field, with snake_case keys taking
//! priority over camelCase ones and documented defaults filling the gaps.

use vstd::prelude::*;

verus! {

use crate::json::{
    json_view,
    Json, JsonV, as_arr, as_bool, as_int, as_str, elems_view, fields_view, get_field, jget, json_clone,
};
use crate::strings::{dec_str, push_dec, string_from_chars, string_to_chars};

/// An entry is canonical when it carries the keys `id`, `index` and
/// `displayName`, whatever their values.
pub open spec fn spec_is_canonical(j: JsonV) -> bool {
    &&& jget(j, "id"@) is Some
    &&& jget(j, "index"@) is Some
    &&& jget(j, "displayName"@) is Some
}

/// The value under `k1` if that key is present, else the value under `k2`.
/// Presence alone decides; a present key of the wrong type does not fall
/// through to the second key.
pub open spec fn first_key(e: JsonV, k1: Seq<char>, k2: Seq<char>) -> Option<JsonV> {
    match jget(e, k1) {
        Some(v) => Some(v),
        None => jget(e, k2),
    }
}

/// The string under `k1`-else-`k2`, or `d` when the chosen value is absent
/// or not a string.
pub open spec fn str_field2(e: JsonV, k1: Seq<char>, k2: Seq<char>, d: Seq<char>) -> Seq<char> {
    match first_key(e, k1, k2) {
        Some(v) => match as_str(v) {
            Some(s) => s,
            None => d,
        },
        None => d,
    }
}

/// The string under `k`, or `d` when absent or not a string.
pub open spec fn str_field(e: JsonV, k: Seq<char>, d: Seq<char>) -> Seq<char> {
    match jget(e, k) {
        Some(v) => match as_str(v) {
            Some(s) => s,
            None => d,
        },
        None => d,
    }
}

/// The integer under `k1`-else-`k2`, or `d` when the chosen value is
/// absent or not an integer.
pub open spec fn int_field2(e: JsonV, k1: Seq<char>, k2: Seq<char>, d: i64) -> i64 {
    match first_key(e, k1, k2) {
        Some(v) => match as_int(v) {
            Some(i) => i,
            None => d,
        },
        None => d,
    }
}

/// The boolean content of an optional value.
pub open spec fn opt_bool(o: Option<JsonV>) -> Option<bool> {
    match o {
        Some(v) => as_bool(v),
        None => None,
    }
}

/// Whether the entry denies image input: a boolean `supports_images` is
/// inverted; failing that, a boolean `noImageSupport` is taken verbatim;
/// failing both, images are assumed supported.
pub open spec fn no_image(e: JsonV) -> bool {
    match opt_bool(jget(e, "supports_images"@)) {
        Some(b) => !b,
        None => match opt_bool(jget(e, "noImageSupport"@)) {
            Some(b) => b,
            None => false,
        },
    }
}

/// The display name, with snake_case priority and `Unknown` as default.
pub open spec fn display_name_of(e: JsonV) -> Seq<char> {
    str_field2(e, "model_display_name"@, "displayName"@, "Unknown"@)
}

/// The display name with each space turned into a hyphen.
pub open spec fn clean_name(s: Seq<char>) -> Seq<char> {
    s.map_values(|c: char| if c == ' ' { '-' } else { c })
}

/// The synthetic identifier: `custom:`, the hyphenated display name, a
/// hyphen, and the position in decimal.
pub open spec fn synth_id(name: Seq<char>, idx: int) -> Seq<char> {
    "custom:"@ + clean_name(name) + seq!['-'] + dec_str(idx as nat)
}

/// The nine fields of a rebuilt canonical entry, in the order they are
/// emitted.
pub open spec fn canonical_fields(e: JsonV, idx: int) -> Seq<(Seq<char>, JsonV)> {
    seq![
        ("model"@, JsonV::Str(str_field(e, "model"@, ""@))),
        ("id"@, JsonV::Str(synth_id(display_name_of(e), idx))),
        ("index"@, JsonV::Int(idx as i64)),
        ("baseUrl"@, JsonV::Str(str_field2(e, "base_url"@, "baseUrl"@, ""@))),
        ("apiKey"@, JsonV::Str(str_field2(e, "api_key"@, "apiKey"@, ""@))),
        ("displayName"@, JsonV::Str(display_name_of(e))),
        ("maxOutputTokens"@, JsonV::Int(int_field2(e, "max_tokens"@, "maxOutputTokens"@, 8192))),
        ("noImageSupport"@, JsonV::Bool(no_image(e))),
        ("provider"@, JsonV::Str(str_field(e, "provider"@, "anthropic"@))),
    ]
}

/// Normalization of one entry at position `idx`: canonical entries pass
/// through unchanged, all others are rebuilt.
pub open spec fn spec_convert_model(e: JsonV, idx: int) -> JsonV {
    if spec_is_canonical(e) {
        e
    } else {
        JsonV::Obj(canonical_fields(e, idx))
    }
}

/// The source list of a profile document: the array under `customModels`,
/// else the one under `custom_models`; a missing key or a non-array value
/// yields the empty sequence.
pub open spec fn models_list(d: JsonV) -> Seq<JsonV> {
    match first_key(d, "customModels"@, "custom_models"@) {
        Some(v) => match as_arr(v) {
            Some(s) => s,
            None => Seq::empty(),
        },
        None => Seq::empty(),
    }
}

/// Normalization of a whole profile document: each source entry at its
/// 0-based source position, order preserved.
pub open spec fn spec_convert_models(d: JsonV) -> Seq<JsonV> {
    Seq::new(
        models_list(d).len(),
        |i: int| if 0 <= i < models_list(d).len() { spec_convert_model(models_list(d)[i], i) } else { JsonV::Null },
    )
}

/// A rebuilt entry carries the three canonical keys, so normalization
/// always yields a canonical entry.
pub proof fn lemma_converted_canonical(e: JsonV, idx: int)
    ensures
        spec_is_canonical(spec_convert_model(e, idx)),
{
    if !spec_is_canonical(e) {
        let f = canonical_fields(e, idx);
        reveal_strlit("model");
        reveal_strlit("id");
        reveal_strlit("index");
        reveal_strlit("baseUrl");
        reveal_strlit("apiKey");
        reveal_strlit("displayName");
        reveal_strlit("maxOutputTokens");
        reveal_strlit("noImageSupport");
        reveal_strlit("provider");
        assert(f[0].0 == "model"@ && f[1].0 == "id"@ && f[2].0 == "index"@);
        assert(f[3].0 == "baseUrl"@ && f[4].0 == "apiKey"@ && f[5].0 == "displayName"@);
        assert("model"@.len() == 5 && "id"@.len() == 2 && "index"@.len() == 5);
        assert("baseUrl"@.len() == 7 && "apiKey"@.len() == 6 && "displayName"@.len() == 11);
        assert("model"@[0] == 'm' && "index"@[0] == 'i' && "index"@[1] == 'n' && "id"@[1] == 'd');
        crate::json::lemma_obj_get_at(f, "id"@, 1);
        crate::json::lemma_obj_get_at(f, "index"@, 2);
        crate::json::lemma_obj_get_at(f, "displayName"@, 5);
    }
}

/// Normalization is idempotent: a document built from an already
/// normalized list normalizes to that very list, because every normalized
/// entry is canonical and passes through untouched.
pub proof fn lemma_normalize_idempotent(d: JsonV)
    ensures
        spec_convert_models(
            JsonV::Obj(seq![("customModels"@, JsonV::Arr(spec_convert_models(d)))]),
        ) == spec_convert_models(d),
{
    let inner = spec_convert_models(d);
    let wf = seq![("customModels"@, JsonV::Arr(inner))];
    let w = JsonV::Obj(wf);
    crate::json::lemma_obj_get_at(wf, "customModels"@, 0);
    assert(models_list(w) == inner);
    assert forall|i: int| 0 <= i < inner.len() implies spec_convert_model(#[trigger] inner[i], i)
        == inner[i] by {
        assert(inner[i] == spec_convert_model(models_list(d)[i], i));
        lemma_converted_canonical(models_list(d)[i], i);
    }
    assert(spec_convert_models(w) =~= inner);
}

/// In a bounded tree the source list of a profile document is bounded.
pub proof fn lemma_models_list_bounded(d: JsonV)
    requires
        crate::json::arrays_bounded(d),
    ensures
        models_list(d).len() <= 0x7fff_ffff_ffff_ffff,
{
    if jget(d, "customModels"@) is Some {
        crate::json::lemma_bounded_get(d, "customModels"@);
    } else if jget(d, "custom_models"@) is Some {
        crate::json::lemma_bounded_get(d, "custom_models"@);
    }
}

/// Decides whether an entry is already canonical.
pub fn is_factory_format(model: &Json) -> (r: bool)
    ensures
        r == spec_is_canonical(model@),
{
    let a = get_field(model, "id").is_some();
    let b = get_field(model, "index").is_some();
    let c = get_field(model, "displayName").is_some();
    a && b && c
}

fn get_str2(e: &Json, k1: &str, k2: &str, d: &str) -> (r: String)
    ensures
        r@ == str_field2(e@, k1@, k2@, d@),
{
    let first = match get_field(e, k1) {
        Some(v) => Some(v),
        None => get_field(e, k2),
    };
    match first {
        Some(v) => match v {
            Json::Str(s) => s.clone(),
            _ => d.to_owned(),
        },
        None => d.to_owned(),
    }
}

fn get_str1(e: &Json, k: &str, d: &str) -> (r: String)
    ensures
        r@ == str_field(e@, k@, d@),
{
    match get_field(e, k) {
        Some(v) => match v {
            Json::Str(s) => s.clone(),
            _ => d.to_owned(),
        },
        None => d.to_owned(),
    }
}

fn get_int2(e: &Json, k1: &str, k2: &str, d: i64) -> (r: i64)
    ensures
        r == int_field2(e@, k1@, k2@, d),
{
    let first = match get_field(e, k1) {
        Some(v) => Some(v),
        None => get_field(e, k2),
    };
    match first {
        Some(v) => match v {
            Json::Int(i) => *i,
            _ => d,
        },
        None => d,
    }
}

fn get_no_image(e: &Json) -> (r: bool)
    ensures
        r == no_image(e@),
{
    match get_field(e, "supports_images") {
        Some(v) => match v {
            Json::Bool(b) => return !*b,
            _ => {},
        },
        None => {},
    }
    match get_field(e, "noImageSupport") {
        Some(v) => match v {
            Json::Bool(b) => *b,
            _ => false,
        },
        None => false,
    }
}

/// Builds the synthetic identifier for a display name and a position.
#[verifier::loop_isolation(false)]
fn make_id(name: &String, index: usize) -> (r: String)
    requires
        index <= 0x7fff_ffff_ffff_ffff,
    ensures
        r@ == synth_id(name@, index as int),
{
    let mut idc = string_to_chars("custom:");
    let name_chars = string_to_chars(name.as_str());
    let ghost prefix = idc@;
    let mut i: usize = 0;
    while i < name_chars.len()
        invariant
            0 <= i <= name_chars.len(),
            idc@ == prefix + clean_name(name@).take(i as int),
        decreases name_chars.len() - i,
    {
        let c = name_chars[i];
        if c == ' ' {
            idc.push('-');
        } else {
            idc.push(c);
        }
        proof {
            assert(clean_name(name@)[i as int] == (if name@[i as int] == ' ' { '-' } else { name@[i as int] }));
            assert(idc@ =~= prefix + clean_name(name@).take(i as int + 1));
        }
        i = i + 1;
    }
    proof {
        assert(clean_name(name@).take(name@.len() as int) =~= clean_name(name@));
    }
    idc.push('-');
    push_dec(index as u64, &mut idc);
    proof {
        assert(index as u64 as nat == (index as int) as nat);
        assert(idc@ =~= synth_id(name@, index as int));
    }
    string_from_chars(&idc)
}

/// Normalizes one entry sitting at position `index` of its document.
pub fn convert_model(model: &Json, index: usize) -> (r: Json)
    requires
        index <= 0x7fff_ffff_ffff_ffff,
    ensures
        r@ == spec_convert_model(model@, index as int),
{
    if is_factory_format(model) {
        return json_clone(model);
    }
    let display_name = get_str2(model, "model_display_name", "displayName", "Unknown");
    let model_id = get_str1(model, "model", "");
    let base_url = get_str2(model, "base_url", "baseUrl", "");
    let api_key = get_str2(model, "api_key", "apiKey", "");
    let provider = get_str1(model, "provider", "anthropic");
    let max_tokens = get_int2(model, "max_tokens", "maxOutputTokens", 8192);
    let no_img = get_no_image(model);
    let id = make_id(&display_name, index);
    let mut fields: Vec<(String, Json)> = Vec::new();
    fields.push(("model".to_owned(), Json::Str(model_id)));
    fields.push(("id".to_owned(), Json::Str(id)));
    fields.push(("index".to_owned(), Json::Int(index as i64)));
    fields.push(("baseUrl".to_owned(), Json::Str(base_url)));
    fields.push(("apiKey".to_owned(), Json::Str(api_key)));
    fields.push(("displayName".to_owned(), Json::Str(display_name)));
    fields.push(("maxOutputTokens".to_owned(), Json::Int(max_tokens)));
    fields.push(("noImageSupport".to_owned(), Json::Bool(no_img)));
    fields.push(("provider".to_owned(), Json::Str(provider)));
    let ghost fv = fields@;
    let r = Json::Obj(fields);
    proof {
        assert(fields_view(fv) =~= canonical_fields(model@, index as int));
    }
    r
}

/// Normalizes every entry of a profile document, in source order.
#[verifier::loop_isolation(false)]
pub fn convert_models(config: &Json) -> (r: Vec<Json>)
    requires
        models_list(config@).len() <= 0x7fff_ffff_ffff_ffff,
    ensures
        elems_view(r@) == spec_convert_models(config@),
{
    let first = match get_field(config, "customModels") {
        Some(v) => Some(v),
        None => get_field(config, "custom_models"),
    };
    let mut out: Vec<Json> = Vec::new();
    match first {
        Some(v) => match v {
            Json::Arr(models) => {
                let mut i: usize = 0;
                while i < models.len()
                    invariant
                        0 <= i <= models.len(),
                        models_list(config@) == elems_view(models@),
                        out.len() == i,
                        forall|m: int|
                            0 <= m < i ==> elems_view(out@)[m] == spec_convert_model(
                                models_list(config@)[m],
                                m,
                            ),
                    decreases models.len() - i,
                {
                    proof {
                        assert(elems_view(models@)[i as int] == json_view(models@[i as int]));
                    }
                    let c = convert_model(&models[i], i);
                    let ghost prev = out@;
                    out.push(c);
                    proof {
                        assert forall|m: int|
                            0 <= m < i + 1 implies elems_view(out@)[m] == spec_convert_model(
                            models_list(config@)[m],
                            m,
                        ) by {
                            if m < i {
                                assert(out@[m] == prev[m]);
                                assert(elems_view(prev)[m] == json_view(prev[m]));
                            } else {
                                assert(out@[m] == c);
                                assert(elems_view(out@)[m] == json_view(out@[m]));
                            }
                        }
                    }
                    i = i + 1;
                }
                proof {
                    assert(elems_view(out@) =~= spec_convert_models(config@));
                }
                out
            },
            _ => {
                proof {
                    assert(elems_view(out@) =~= spec_convert_models(config@));
                }
                out
            },
        },
        None => {
            proof {
                assert(elems_view(out@) =~= spec_convert_models(config@));
            }
            out
        },
    }
}

} // verus!
