use license_report::records::PackageList;
use license_report::records::PackageRecord;
use license_report::render::render_json;
use license_report::render::render_yaml;

fn record(name: &str, license: Option<&str>, text: Option<&str>) -> PackageRecord {
    PackageRecord {
        name: name.to_string(),
        license_identifier: license.map(|s| s.to_string()),
        license_text: text.map(|s| s.to_string()),
    }
}

fn sample_list() -> PackageList {
    PackageList {
        records: vec![
            record("alpha", Some("MIT"), Some("MIT TEXT")),
            record("beta", Some("MIT"), None),
            record("gamma", None, None),
            record(
                "tricky \"quoted\\name\"",
                Some("line\nbreak\tand\rmore"),
                Some("control \u{1} char \u{1f} end"),
            ),
        ],
    }
}

fn json_field<'a>(v: &'a serde_json::Value, i: usize, key: &str) -> &'a serde_json::Value {
    &v.as_array().expect("array")[i][key]
}

fn same_as_json_opt(v: &serde_json::Value, field: &Option<String>) {
    match field {
        None => assert!(v.is_null()),
        Some(s) => assert_eq!(v.as_str().expect("string"), s),
    }
}

#[test]
fn json_render_round_trips_through_an_independent_parser() {
    let list = sample_list();
    let rendered = render_json(&list);
    let value: serde_json::Value = serde_json::from_str(&rendered).expect("valid JSON");
    let arr = value.as_array().expect("array");
    assert_eq!(arr.len(), list.records.len());
    for (i, rec) in list.records.iter().enumerate() {
        assert_eq!(json_field(&value, i, "name").as_str().expect("string"), rec.name);
        same_as_json_opt(json_field(&value, i, "license_identifier"), &rec.license_identifier);
        same_as_json_opt(json_field(&value, i, "license_text"), &rec.license_text);
    }
}

#[test]
fn json_render_of_empty_list_round_trips() {
    let rendered = render_json(&PackageList { records: vec![] });
    let value: serde_json::Value = serde_json::from_str(&rendered).expect("valid JSON");
    assert_eq!(value.as_array().expect("array").len(), 0);
}

fn same_as_yaml_opt(v: &serde_yml::Value, field: &Option<String>) {
    match field {
        None => assert!(v.is_null()),
        Some(s) => assert_eq!(v.as_str().expect("string"), s),
    }
}

#[test]
fn yaml_render_round_trips_through_an_independent_parser() {
    let list = sample_list();
    let rendered = render_yaml(&list);
    let value: serde_yml::Value = serde_yml::from_str(&rendered).expect("valid YAML");
    let arr = value.as_sequence().expect("sequence");
    assert_eq!(arr.len(), list.records.len());
    for (i, rec) in list.records.iter().enumerate() {
        assert_eq!(arr[i]["name"].as_str().expect("string"), rec.name);
        same_as_yaml_opt(&arr[i]["license_identifier"], &rec.license_identifier);
        same_as_yaml_opt(&arr[i]["license_text"], &rec.license_text);
    }
}

#[test]
fn yaml_render_of_empty_list_round_trips() {
    let rendered = render_yaml(&PackageList { records: vec![] });
    let value: serde_yml::Value = serde_yml::from_str(&rendered).expect("valid YAML");
    assert_eq!(value.as_sequence().expect("sequence").len(), 0);
}

#[test]
fn stripped_json_render_round_trips_to_the_stripped_list() {
    let list = sample_list().strip_license_texts();
    let rendered = render_json(&list);
    let value: serde_json::Value = serde_json::from_str(&rendered).expect("valid JSON");
    for (i, rec) in list.records.iter().enumerate() {
        assert_eq!(json_field(&value, i, "name").as_str().expect("string"), rec.name);
        assert!(json_field(&value, i, "license_text").is_null());
        same_as_json_opt(json_field(&value, i, "license_identifier"), &rec.license_identifier);
    }
}
