use dd_switch::activate::{
    apply_config, apply_models, config_template, export_current, get_current_config, ConfigError,
};
use dd_switch::json::{get_field, json_clone, json_eq, Json};
use dd_switch::normalize::{convert_model, convert_models, is_factory_format};
use dd_switch::parse::parse_json;

fn s(x: &str) -> String {
    x.to_string()
}

fn jstr(x: &str) -> Json {
    Json::Str(s(x))
}

fn obj(fields: Vec<(&str, Json)>) -> Json {
    Json::Obj(fields.into_iter().map(|(k, v)| (s(k), v)).collect())
}

fn to_value(j: &Json) -> serde_json::Value {
    match j {
        Json::Null => serde_json::Value::Null,
        Json::Bool(b) => serde_json::Value::Bool(*b),
        Json::Int(i) => serde_json::Value::from(*i),
        Json::Num(t) => serde_json::Value::Number(t.parse().unwrap()),
        Json::Str(t) => serde_json::Value::String(t.clone()),
        Json::Arr(v) => serde_json::Value::Array(v.iter().map(to_value).collect()),
        Json::Obj(v) => serde_json::Value::Object(
            v.iter().map(|(k, e)| (k.clone(), to_value(e))).collect(),
        ),
    }
}

fn canonical(
    model: &str,
    id: &str,
    index: i64,
    base_url: &str,
    api_key: &str,
    display_name: &str,
    max_tokens: i64,
    no_image: bool,
    provider: &str,
) -> Json {
    obj(vec![
        ("model", jstr(model)),
        ("id", jstr(id)),
        ("index", Json::Int(index)),
        ("baseUrl", jstr(base_url)),
        ("apiKey", jstr(api_key)),
        ("displayName", jstr(display_name)),
        ("maxOutputTokens", Json::Int(max_tokens)),
        ("noImageSupport", Json::Bool(no_image)),
        ("provider", jstr(provider)),
    ])
}

#[test]
fn canonical_passthrough() {
    let entry = obj(vec![
        ("id", Json::Int(7)),
        ("index", jstr("not a number")),
        ("displayName", Json::Null),
        ("garbage", obj(vec![("x", Json::Bool(true))])),
    ]);
    let copy = json_clone(&entry);
    assert!(is_factory_format(&entry));
    assert_eq!(convert_model(&entry, 42), copy);
}

#[test]
fn default_substitution() {
    let r = convert_model(&obj(vec![]), 2);
    let expected = canonical(
        "",
        "custom:Unknown-2",
        2,
        "",
        "",
        "Unknown",
        8192,
        false,
        "anthropic",
    );
    assert_eq!(r, expected);
}

#[test]
fn boolean_inversion() {
    let a = convert_model(&obj(vec![("supports_images", Json::Bool(true))]), 0);
    assert_eq!(get_field(&a, "noImageSupport"), Some(&Json::Bool(false)));
    let b = convert_model(&obj(vec![("supports_images", Json::Bool(false))]), 0);
    assert_eq!(get_field(&b, "noImageSupport"), Some(&Json::Bool(true)));
    let c = convert_model(&obj(vec![("noImageSupport", Json::Bool(true))]), 0);
    assert_eq!(get_field(&c, "noImageSupport"), Some(&Json::Bool(true)));
}

#[test]
fn field_priority() {
    let e = obj(vec![
        ("model_display_name", jstr("A")),
        ("displayName", jstr("B")),
    ]);
    let r = convert_model(&e, 0);
    assert_eq!(get_field(&r, "displayName"), Some(&jstr("A")));
    assert_eq!(get_field(&r, "id"), Some(&jstr("custom:A-0")));
}

#[test]
fn present_key_of_wrong_type_does_not_fall_through() {
    let e = obj(vec![
        ("model_display_name", Json::Int(5)),
        ("displayName", jstr("B")),
    ]);
    let r = convert_model(&e, 0);
    assert_eq!(get_field(&r, "displayName"), Some(&jstr("Unknown")));
}

#[test]
fn spaces_become_hyphens_in_id() {
    let e = obj(vec![("model_display_name", jstr("My Fast Model"))]);
    let r = convert_model(&e, 13);
    assert_eq!(get_field(&r, "id"), Some(&jstr("custom:My-Fast-Model-13")));
    assert_eq!(get_field(&r, "displayName"), Some(&jstr("My Fast Model")));
}

#[test]
fn positions_render_in_decimal() {
    let e = obj(vec![("model_display_name", jstr("X"))]);
    let r = convert_model(&e, 105);
    assert_eq!(get_field(&r, "id"), Some(&jstr("custom:X-105")));
    assert_eq!(get_field(&r, "index"), Some(&Json::Int(105)));
}

#[test]
fn legacy_fields_are_carried_over() {
    let e = obj(vec![
        ("model_display_name", jstr("GPT")),
        ("model", jstr("gpt-x")),
        ("base_url", jstr("https://example.test")),
        ("api_key", jstr("k")),
        ("provider", jstr("openai")),
        ("max_tokens", Json::Int(4096)),
        ("supports_images", Json::Bool(true)),
    ]);
    let r = convert_model(&e, 1);
    let expected = canonical(
        "gpt-x",
        "custom:GPT-1",
        1,
        "https://example.test",
        "k",
        "GPT",
        4096,
        false,
        "openai",
    );
    assert_eq!(r, expected);
}

#[test]
fn convert_models_assigns_source_positions() {
    let doc = obj(vec![(
        "custom_models",
        Json::Arr(vec![obj(vec![]), obj(vec![("displayName", jstr("B"))])]),
    )]);
    let r = convert_models(&doc);
    assert_eq!(r.len(), 2);
    assert_eq!(get_field(&r[0], "index"), Some(&Json::Int(0)));
    assert_eq!(get_field(&r[0], "id"), Some(&jstr("custom:Unknown-0")));
    assert_eq!(get_field(&r[1], "index"), Some(&Json::Int(1)));
    assert_eq!(get_field(&r[1], "id"), Some(&jstr("custom:B-1")));
}

#[test]
fn camel_list_key_wins_over_snake() {
    let doc = obj(vec![
        ("customModels", Json::Arr(vec![obj(vec![("displayName", jstr("C"))])])),
        ("custom_models", Json::Arr(vec![obj(vec![]), obj(vec![])])),
    ]);
    let r = convert_models(&doc);
    assert_eq!(r.len(), 1);
    assert_eq!(get_field(&r[0], "displayName"), Some(&jstr("C")));
}

#[test]
fn normalization_is_idempotent() {
    let doc = obj(vec![(
        "custom_models",
        Json::Arr(vec![
            obj(vec![("model_display_name", jstr("One Two")), ("max_tokens", Json::Int(9))]),
            obj(vec![("supports_images", Json::Bool(true))]),
        ]),
    )]);
    let first = convert_models(&doc);
    let wrapped = obj(vec![(
        "customModels",
        Json::Arr(first.iter().map(json_clone).collect()),
    )]);
    let second = convert_models(&wrapped);
    assert_eq!(first, second);
}

#[test]
fn missing_list_key_yields_empty() {
    assert_eq!(convert_models(&obj(vec![])).len(), 0);
    let non_list = obj(vec![("customModels", Json::Int(5))]);
    assert_eq!(convert_models(&non_list).len(), 0);
}

#[test]
fn activation_preserves_other_fields() {
    let profile = r#"{"customModels":[{"model_display_name":"A"}]}"#;
    let live = s(r#"{"customModels":[1,2],"other":{"x":1}}"#);
    let r = apply_config(profile, Some(&live)).unwrap();
    assert_eq!(
        get_field(&r, "other"),
        Some(&obj(vec![("x", Json::Int(1))]))
    );
    match get_field(&r, "customModels") {
        Some(Json::Arr(models)) => {
            assert_eq!(models.len(), 1);
            assert_eq!(get_field(&models[0], "id"), Some(&jstr("custom:A-0")));
        },
        other => panic!("unexpected customModels: {:?}", other),
    }
}

#[test]
fn activation_without_live_document_builds_a_fresh_one() {
    let profile = r#"{"custom_models":[]}"#;
    let r = apply_config(profile, None).unwrap();
    assert_eq!(r, obj(vec![("customModels", Json::Arr(vec![]))]));
}

#[test]
fn activation_on_null_live_document_builds_a_fresh_one() {
    let profile = r#"{"customModels":[]}"#;
    let live = s("null");
    let r = apply_config(profile, Some(&live)).unwrap();
    assert_eq!(r, obj(vec![("customModels", Json::Arr(vec![]))]));
}

#[test]
fn activation_with_empty_profile_empties_the_list() {
    let profile = r#"{"note":"no list here"}"#;
    let live = s(r#"{"customModels":[1],"keep":true}"#);
    let r = apply_config(profile, Some(&live)).unwrap();
    assert_eq!(get_field(&r, "customModels"), Some(&Json::Arr(vec![])));
    assert_eq!(get_field(&r, "keep"), Some(&Json::Bool(true)));
}

#[test]
fn activation_errors() {
    assert_eq!(
        apply_config("not json", None),
        Err(ConfigError::ParseError)
    );
    let bad_live = s("{\"customModels\":");
    assert_eq!(
        apply_config("{}", Some(&bad_live)),
        Err(ConfigError::ParseError)
    );
    let array_live = s("[]");
    assert_eq!(
        apply_config("{}", Some(&array_live)),
        Err(ConfigError::ParseError)
    );
}

#[test]
fn reverse_lookup_round_trip() {
    let profile = s(r#"{"custom_models":[{"model_display_name":"Round Trip","model":"m"}]}"#);
    let other = s(r#"{"custom_models":[{"model_display_name":"Different"}]}"#);
    let live_doc = apply_config(profile.as_str(), None).unwrap();
    let live_text = serde_json::to_string(&to_value(&live_doc)).unwrap();
    let candidates = vec![
        (s("/profiles/other.json"), other),
        (s("/profiles/mine.json"), profile),
    ];
    let r = get_current_config(Some(&live_text), &candidates);
    assert_eq!(r, Some(s("/profiles/mine.json")));
}

#[test]
fn reverse_lookup_ignores_field_order_of_live_entries() {
    let profile = s(r#"{"customModels":[{"id":"x","index":0,"displayName":"D","extra":1}]}"#);
    let live_text = s(r#"{"customModels":[{"extra":1,"displayName":"D","index":0,"id":"x"}]}"#);
    let candidates = vec![(s("p.json"), profile)];
    assert_eq!(
        get_current_config(Some(&live_text), &candidates),
        Some(s("p.json"))
    );
}

#[test]
fn reverse_lookup_miss() {
    let profile = s(r#"{"customModels":[{"id":"a","index":0,"displayName":"A"}]}"#);
    let live_text = s(r#"{"customModels":[{"id":"set","index":9,"displayName":"by hand"}]}"#);
    let candidates = vec![(s("p.json"), profile)];
    assert_eq!(get_current_config(Some(&live_text), &candidates), None);
}

#[test]
fn reverse_lookup_skips_malformed_candidates() {
    let live_text = s(r#"{"customModels":[]}"#);
    let candidates = vec![
        (s("broken.json"), s("{ this is not json")),
        (s("empty.json"), s(r#"{"customModels":[]}"#)),
    ];
    assert_eq!(
        get_current_config(Some(&live_text), &candidates),
        Some(s("empty.json"))
    );
}

#[test]
fn reverse_lookup_needs_a_usable_live_document() {
    let candidates = vec![(s("p.json"), s(r#"{"customModels":[]}"#))];
    assert_eq!(get_current_config(None, &candidates), None);
    let broken = s("{{{");
    assert_eq!(get_current_config(Some(&broken), &candidates), None);
    let no_list = s(r#"{"somethingElse":1}"#);
    assert_eq!(get_current_config(Some(&no_list), &candidates), None);
    let not_a_list = s(r#"{"customModels":"nope"}"#);
    assert_eq!(get_current_config(Some(&not_a_list), &candidates), None);
}

#[test]
fn export_keeps_only_the_list() {
    let live = obj(vec![
        ("customModels", Json::Arr(vec![Json::Int(1)])),
        ("other", Json::Bool(true)),
    ]);
    assert_eq!(
        export_current(&live),
        obj(vec![("customModels", Json::Arr(vec![Json::Int(1)]))])
    );
    assert_eq!(
        export_current(&obj(vec![("other", Json::Bool(true))])),
        obj(vec![("customModels", Json::Arr(vec![]))])
    );
}

#[test]
fn template_is_an_empty_profile() {
    assert_eq!(
        config_template(),
        obj(vec![("customModels", Json::Arr(vec![]))])
    );
}

#[test]
fn apply_models_replaces_in_place() {
    let live = obj(vec![
        ("alpha", Json::Int(1)),
        ("customModels", Json::Arr(vec![Json::Int(9)])),
        ("omega", Json::Int(2)),
    ]);
    let r = apply_models(&live, vec![Json::Bool(true)]);
    let expected = obj(vec![
        ("alpha", Json::Int(1)),
        ("customModels", Json::Arr(vec![Json::Bool(true)])),
        ("omega", Json::Int(2)),
    ]);
    assert_eq!(r, expected);
}

#[test]
fn json_eq_compares_objects_as_maps() {
    let a = obj(vec![("a", Json::Int(1)), ("b", Json::Int(2))]);
    let b = obj(vec![("b", Json::Int(2)), ("a", Json::Int(1))]);
    let c = obj(vec![("a", Json::Int(1)), ("b", Json::Int(3))]);
    assert!(json_eq(&a, &b));
    assert!(!json_eq(&a, &c));
    let x = Json::Arr(vec![Json::Int(1), Json::Int(2)]);
    let y = Json::Arr(vec![Json::Int(2), Json::Int(1)]);
    assert!(!json_eq(&x, &y));
    assert!(json_eq(&Json::Null, &Json::Null));
    assert!(!json_eq(&Json::Null, &Json::Bool(false)));
}

#[test]
fn parse_json_reads_every_shape() {
    let r = parse_json(r#"{"a":[1,true,null,"x",1.5],"n":-3}"#).unwrap();
    let expected = obj(vec![
        (
            "a",
            Json::Arr(vec![
                Json::Int(1),
                Json::Bool(true),
                Json::Null,
                jstr("x"),
                Json::Num(s("1.5")),
            ]),
        ),
        ("n", Json::Int(-3)),
    ]);
    assert_eq!(r, expected);
    assert_eq!(parse_json("{oops"), None);
}
