use dd_switch::json::Json;
use dd_switch::listing::{
    file_stem, is_json_name, menu_id, menu_id_path, sort_configs, tray_label, ConfigFile,
};
use dd_switch::paths::{
    app_settings_path, check_factory_path, config_file_path, config_path, configs_dir,
    factory_base_dir, get_default_factory_path, settings_path, sibling_path, target_path,
};
use dd_switch::settings::{app_settings_from_json, app_settings_to_json, AppSettings};

fn s(x: &str) -> String {
    x.to_string()
}

fn cfg(name: &str, path: &str) -> ConfigFile {
    ConfigFile { name: s(name), path: s(path) }
}

fn names(v: &[ConfigFile]) -> Vec<String> {
    v.iter().map(|c| c.name.clone()).collect()
}

#[test]
fn base_dir_prefers_a_non_empty_override() {
    let home = s("/home/u");
    assert_eq!(factory_base_dir(&Some(s("/opt/f")), &home), s("/opt/f"));
    assert_eq!(factory_base_dir(&Some(s("")), &home), s("/home/u/.factory"));
    assert_eq!(factory_base_dir(&None, &home), s("/home/u/.factory"));
}

#[test]
fn derived_paths() {
    let base = s("/home/u/.factory");
    assert_eq!(configs_dir(&base), s("/home/u/.factory/configs"));
    assert_eq!(settings_path(&base), s("/home/u/.factory/settings.json"));
    assert_eq!(config_path(&base), s("/home/u/.factory/config.json"));
    assert_eq!(target_path(&base, true), s("/home/u/.factory/settings.json"));
    assert_eq!(target_path(&base, false), s("/home/u/.factory/config.json"));
    assert_eq!(get_default_factory_path(&s("/home/u")), s("/home/u/.factory"));
    assert_eq!(
        app_settings_path(&Some(s("/home/u/.config")), &s("/home/u")),
        s("/home/u/.config/dd-switch/settings.json")
    );
    assert_eq!(
        app_settings_path(&None, &s("/home/u")),
        s("/home/u/dd-switch/settings.json")
    );
    assert_eq!(
        config_file_path(&s("/dir"), &s("work")),
        s("/dir/work.json")
    );
}

#[test]
fn factory_path_usability_check() {
    assert!(check_factory_path(true, true, false));
    assert!(check_factory_path(true, false, true));
    assert!(!check_factory_path(true, false, false));
    assert!(!check_factory_path(false, true, true));
}

#[test]
fn sibling_path_renames_in_place() {
    assert_eq!(
        sibling_path(&s("/dir/sub/old.json"), &s("new")),
        Some(s("/dir/sub/new.json"))
    );
    assert_eq!(sibling_path(&s("bare"), &s("new")), None);
}

#[test]
fn sorting_without_saved_order_goes_by_name() {
    let configs = vec![cfg("beta", "b"), cfg("alpha", "a"), cfg("gamma", "c")];
    let sorted = sort_configs(configs, &Vec::new());
    assert_eq!(names(&sorted), vec![s("alpha"), s("beta"), s("gamma")]);
}

#[test]
fn sorting_follows_the_saved_order() {
    let configs = vec![
        cfg("alpha", "a"),
        cfg("unknown", "u"),
        cfg("gamma", "c"),
        cfg("beta", "b"),
    ];
    let order = vec![s("gamma"), s("beta"), s("alpha")];
    let sorted = sort_configs(configs, &order);
    assert_eq!(
        names(&sorted),
        vec![s("gamma"), s("beta"), s("alpha"), s("unknown")]
    );
}

#[test]
fn sorting_keeps_every_entry() {
    let configs = vec![cfg("x", "1"), cfg("x", "2"), cfg("a", "3")];
    let sorted = sort_configs(configs, &Vec::new());
    assert_eq!(sorted.len(), 3);
    assert_eq!(sorted[0], cfg("a", "3"));
}

#[test]
fn profile_file_names() {
    assert!(is_json_name(&s("work.json")));
    assert!(!is_json_name(&s("work.toml")));
    assert!(!is_json_name(&s("son")));
    assert!(!is_json_name(&s(".json")));
    assert_eq!(file_stem(&s("work.json")), s("work"));
    assert_eq!(file_stem(&s("a.b.json")), s("a.b"));
}

#[test]
fn tray_labels_mark_the_active_profile() {
    assert_eq!(tray_label(&s("work"), true), s("\u{2713} work"));
    assert_eq!(tray_label(&s("work"), false), s("  work"));
}

#[test]
fn menu_identifiers_round_trip() {
    let id = menu_id(&s("/p/work.json"));
    assert_eq!(id, s("config:/p/work.json"));
    assert_eq!(menu_id_path(&id), Some(s("/p/work.json")));
    assert_eq!(menu_id_path(&s("quit")), None);
    assert_eq!(menu_id_path(&s("configs")), None);
}

#[test]
fn settings_document_round_trip() {
    let st = AppSettings {
        factory_path: Some(s("/opt/f")),
        config_order: vec![s("b"), s("a")],
    };
    let doc = app_settings_to_json(&st);
    let back = app_settings_from_json(&doc).unwrap();
    assert_eq!(back, st);
}

#[test]
fn settings_fields_default_when_absent() {
    let st = app_settings_from_json(&Json::Obj(vec![])).unwrap();
    assert_eq!(st, AppSettings::default());
    let with_null = Json::Obj(vec![(s("factory_path"), Json::Null)]);
    assert_eq!(
        app_settings_from_json(&with_null).unwrap().factory_path,
        None
    );
}

#[test]
fn malformed_settings_documents_are_rejected() {
    assert_eq!(app_settings_from_json(&Json::Arr(vec![])), None);
    let bad_path = Json::Obj(vec![(s("factory_path"), Json::Int(1))]);
    assert_eq!(app_settings_from_json(&bad_path), None);
    let bad_order = Json::Obj(vec![(
        s("config_order"),
        Json::Arr(vec![Json::Str(s("ok")), Json::Int(2)]),
    )]);
    assert_eq!(app_settings_from_json(&bad_order), None);
}

#[test]
fn setting_the_override() {
    let mut st = AppSettings::default();
    st.set_factory_path(s("/opt/f"));
    assert_eq!(st.factory_path, Some(s("/opt/f")));
    st.set_factory_path(s(""));
    assert_eq!(st.factory_path, None);
    st.set_config_order(vec![s("one")]);
    assert_eq!(st.config_order, vec![s("one")]);
}
