use fmcl_core::error::Error;
use fmcl_core::json::{Json, json_eq};
use fmcl_core::setting::{
    add_or_update_attr, add_or_update_default_setting, add_or_update_setting,
    generate_setting_json, get_or_create_settingitem, get_settingitem, list_children,
};
use fmcl_core::setting_item::SettingItem;
use fmcl_core::task::{TaskAttr, TaskTree};

fn root() -> SettingItem {
    SettingItem::new(String::from("root"))
}

fn num(s: &str) -> Json {
    Json::Num(String::from(s))
}

fn jstr(s: &str) -> Json {
    Json::Str(String::from(s))
}

#[test]
fn default_then_generate_excludes_unmodified_key() {
    // addOrUpdateDefault(k, v1) leaves k unmodified, so generateJson
    // excludes it; addOrUpdate(k, v2) with v2 != v1 includes k: v2.
    let mut s = root();
    add_or_update_default_setting(&mut s, &String::from("game.width"), num("1920")).unwrap();
    let fields = generate_setting_json(&s, &String::from("game")).unwrap();
    assert!(fields.is_empty());
    add_or_update_setting(&mut s, &String::from("game.width"), num("2560")).unwrap();
    let fields2 = generate_setting_json(&s, &String::from("game")).unwrap();
    assert_eq!(fields2.len(), 1);
    assert_eq!(fields2[0].0, String::from("width"));
    assert!(json_eq(&fields2[0].1, &num("2560")));
}

#[test]
fn default_update_preserves_explicit_override() {
    let mut s = root();
    add_or_update_setting(&mut s, &String::from("game.width"), num("800")).unwrap();
    add_or_update_default_setting(&mut s, &String::from("game.width"), num("1920")).unwrap();
    let d = get_settingitem(&s, &String::from("game.width")).unwrap();
    assert!(json_eq(&d.value, &num("800")));
    assert!(json_eq(&d.default_value, &num("1920")));
}

#[test]
fn generate_flattens_descendants_with_dotted_keys() {
    // A node and its descendant are emitted independently, dot-joined
    // relative to the queried key.
    let mut s = root();
    add_or_update_setting(&mut s, &String::from("cfg.a"), num("1")).unwrap();
    add_or_update_setting(&mut s, &String::from("cfg.a.b"), num("2")).unwrap();
    let fields = generate_setting_json(&s, &String::from("cfg")).unwrap();
    let keys: Vec<String> = fields.iter().map(|p| p.0.clone()).collect();
    assert_eq!(keys, vec![String::from("a"), String::from("a.b")]);
}

#[test]
fn generate_emits_levels_in_breadth_first_order() {
    // A whole level is emitted before any of its children.
    let mut s = root();
    add_or_update_setting(&mut s, &String::from("cfg.a"), num("1")).unwrap();
    add_or_update_setting(&mut s, &String::from("cfg.a.b"), num("2")).unwrap();
    add_or_update_setting(&mut s, &String::from("cfg.c"), num("3")).unwrap();
    let fields = generate_setting_json(&s, &String::from("cfg")).unwrap();
    let keys: Vec<String> = fields.iter().map(|p| p.0.clone()).collect();
    assert_eq!(
        keys,
        vec![String::from("a"), String::from("c"), String::from("a.b")]
    );
}

#[test]
fn null_values_are_not_materialized() {
    let mut s = root();
    add_or_update_setting(&mut s, &String::from("cfg.x"), Json::Null).unwrap();
    let fields = generate_setting_json(&s, &String::from("cfg")).unwrap();
    assert!(fields.is_empty());
}

#[test]
fn object_attributes_union_with_later_wins() {
    // Two object attribute updates union their keys; the later value wins
    // on conflicts.
    let mut s = root();
    let key = String::from("game.dirs");
    let attr = String::from("meta");
    let first = Json::Obj(vec![
        (String::from("a"), num("1")),
        (String::from("b"), num("2")),
    ]);
    let second = Json::Obj(vec![
        (String::from("b"), num("20")),
        (String::from("c"), num("30")),
    ]);
    add_or_update_attr(&mut s, &key, &attr, first).unwrap();
    add_or_update_attr(&mut s, &key, &attr, second).unwrap();
    let d = get_settingitem(&s, &key).unwrap();
    assert_eq!(d.attribute.len(), 1);
    assert_eq!(d.attribute[0].0, attr);
    let expected = Json::Obj(vec![
        (String::from("a"), num("1")),
        (String::from("b"), num("20")),
        (String::from("c"), num("30")),
    ]);
    assert!(json_eq(&d.attribute[0].1, &expected));
}

#[test]
fn array_attributes_concatenate_in_call_order() {
    let mut s = root();
    let key = String::from("game.dirs");
    let attr = String::from("tags");
    add_or_update_attr(&mut s, &key, &attr, Json::Arr(vec![jstr("a"), jstr("b")])).unwrap();
    add_or_update_attr(&mut s, &key, &attr, Json::Arr(vec![jstr("c")])).unwrap();
    let d = get_settingitem(&s, &key).unwrap();
    let expected = Json::Arr(vec![jstr("a"), jstr("b"), jstr("c")]);
    assert!(json_eq(&d.attribute[0].1, &expected));
}

#[test]
fn mixed_attribute_types_replace() {
    let mut s = root();
    let key = String::from("k");
    let attr = String::from("a");
    add_or_update_attr(&mut s, &key, &attr, Json::Arr(vec![jstr("a")])).unwrap();
    add_or_update_attr(&mut s, &key, &attr, jstr("plain")).unwrap();
    let d = get_settingitem(&s, &key).unwrap();
    assert!(json_eq(&d.attribute[0].1, &jstr("plain")));
}

#[test]
fn missing_setting_reports_segment_and_key() {
    let s = root();
    match get_settingitem(&s, &String::from("a.b")) {
        Err(Error::SettingNotExists(name, key)) => {
            assert_eq!(name, String::from("a"));
            assert_eq!(key, String::from("a.b"));
        }
        _ => panic!("expected SettingNotExists"),
    }
    let e = get_settingitem(&s, &String::from("a.b")).unwrap_err();
    assert_eq!(e.message(), String::from("'a' in 'a.b' does not exist"));
}

#[test]
fn list_children_reports_creation_order() {
    let mut s = root();
    get_or_create_settingitem(&mut s, &String::from("cfg.b")).unwrap();
    get_or_create_settingitem(&mut s, &String::from("cfg.a")).unwrap();
    let names = list_children(&s, &String::from("cfg")).unwrap();
    assert_eq!(names, vec![String::from("b"), String::from("a")]);
}

#[test]
fn key_join_strips_affix_dots_and_empties() {
    let joined = SettingItem::key_join(&vec![
        String::from(".settings_json."),
        String::from(""),
        String::from("game.dirs"),
    ]);
    assert_eq!(joined, String::from("settings_json.game.dirs"));
}

#[test]
fn duplicate_setting_creation_is_refused() {
    let mut s = root();
    let child = SettingItem::new(String::from("twin"));
    s.create(child).unwrap();
    let again = SettingItem::new(String::from("twin"));
    match s.create(again) {
        Err(Error::SettingItemExists(n)) => assert_eq!(n, String::from("twin")),
        _ => panic!("expected SettingItemExists"),
    }
}

#[test]
fn task_lifecycle_scenario() {
    // create("install", parent 0) yields id 1; modify progress 0.5;
    // get(1) reports the full record.
    let mut t = TaskTree::new();
    let id = t.create(String::from("install"), 0);
    assert_eq!(id, 1);
    t.modify(1, TaskAttr::Progress(String::from("0.5"))).unwrap();
    let tcb = t.get(1).unwrap();
    assert_eq!(tcb.id, 1);
    assert_eq!(tcb.name, String::from("install"));
    assert_eq!(tcb.progress, String::from("0.5"));
    assert_eq!(tcb.current_work, String::from(""));
    assert_eq!(tcb.parent, 0);
    assert!(tcb.children.is_empty());
}

#[test]
fn child_tasks_link_and_unlink() {
    let mut t = TaskTree::new();
    let a = t.create(String::from("install"), 0);
    let b = t.create(String::from("download"), a);
    let parent = t.get(a).unwrap();
    assert_eq!(parent.children, vec![b]);
    t.remove(b).unwrap();
    let parent2 = t.get(a).unwrap();
    assert!(parent2.children.is_empty());
}

#[test]
fn missing_task_reports_not_exists() {
    let mut t = TaskTree::new();
    match t.get(7) {
        Err(Error::TaskNotExists(id)) => assert_eq!(id, 7),
        _ => panic!("expected TaskNotExists"),
    }
    match t.modify(7, TaskAttr::Name(String::from("x"))) {
        Err(Error::TaskNotExists(_)) => {}
        _ => panic!("expected TaskNotExists"),
    }
    let e = t.remove(7).unwrap_err();
    assert_eq!(e.message(), String::from("Task 7 does not exist"));
}
