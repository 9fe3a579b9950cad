use license_report::aggregate::group_by_license;
use license_report::errors::ReportError;
use license_report::modes::select_mode;
use license_report::modes::ConfigError;
use license_report::modes::OutputMode;
use license_report::modes::RawFlags;
use license_report::records::PackageList;
use license_report::records::PackageRecord;
use license_report::render::render_full;
use license_report::render::render_json;
use license_report::render::render_report;
use license_report::render::render_short;
use license_report::render::render_stats;
use license_report::render::render_yaml;
use license_report::stats::compute_stats;
use license_report::stats::PercentageTier;
use license_report::stats::Stats;
use license_report::text::check_marker;
use license_report::text::escape_string;
use license_report::text::pad_right;
use license_report::text::u8_to_decimal;

fn record(name: &str, license: Option<&str>, text: Option<&str>) -> PackageRecord {
    PackageRecord {
        name: name.to_string(),
        license_identifier: license.map(|s| s.to_string()),
        license_text: text.map(|s| s.to_string()),
    }
}

fn scenario_list() -> PackageList {
    PackageList {
        records: vec![
            record("alpha", Some("MIT"), Some("MIT TEXT")),
            record("beta", Some("MIT"), None),
            record("gamma", None, None),
        ],
    }
}

fn flags() -> RawFlags {
    RawFlags {
        yaml: false,
        json: false,
        short: false,
        stats: false,
        license: false,
        omit_license_text: false,
        manifest_path_given: false,
    }
}

#[test]
fn default_mode_is_full() {
    assert_eq!(select_mode(&flags()), Ok(OutputMode::Full));
}

#[test]
fn each_single_mode_flag_selects_its_mode() {
    assert_eq!(
        select_mode(&RawFlags { yaml: true, ..flags() }),
        Ok(OutputMode::Yaml)
    );
    assert_eq!(
        select_mode(&RawFlags { json: true, ..flags() }),
        Ok(OutputMode::Json)
    );
    assert_eq!(
        select_mode(&RawFlags { short: true, ..flags() }),
        Ok(OutputMode::Short)
    );
    assert_eq!(
        select_mode(&RawFlags { stats: true, ..flags() }),
        Ok(OutputMode::Stats)
    );
    assert_eq!(
        select_mode(&RawFlags { license: true, ..flags() }),
        Ok(OutputMode::SelfLicense)
    );
}

#[test]
fn two_mode_flags_conflict() {
    assert_eq!(
        select_mode(&RawFlags { yaml: true, json: true, ..flags() }),
        Err(ConfigError::ConflictingModes)
    );
    assert_eq!(
        select_mode(&RawFlags { short: true, stats: true, ..flags() }),
        Err(ConfigError::ConflictingModes)
    );
}

#[test]
fn omit_text_with_short_is_rejected() {
    assert_eq!(
        select_mode(&RawFlags { short: true, omit_license_text: true, ..flags() }),
        Err(ConfigError::OmitTextWithShort)
    );
}

#[test]
fn omit_text_with_stats_is_rejected() {
    assert_eq!(
        select_mode(&RawFlags { stats: true, omit_license_text: true, ..flags() }),
        Err(ConfigError::OmitTextWithStats)
    );
}

#[test]
fn omit_text_with_yaml_is_accepted() {
    assert_eq!(
        select_mode(&RawFlags { yaml: true, omit_license_text: true, ..flags() }),
        Ok(OutputMode::Yaml)
    );
}

#[test]
fn self_license_with_path_is_rejected() {
    assert_eq!(
        select_mode(&RawFlags { license: true, manifest_path_given: true, ..flags() }),
        Err(ConfigError::PathWithSelfLicense)
    );
}

#[test]
fn config_error_messages_are_specific() {
    assert!(ConfigError::ConflictingModes
        .message()
        .contains("at most one output mode"));
    assert!(ConfigError::OmitTextWithShort.message().contains("--short"));
    assert!(ConfigError::OmitTextWithStats.message().contains("--stats"));
    assert!(ConfigError::PathWithSelfLicense
        .message()
        .contains("project path"));
    assert_eq!(
        ReportError::EmptyDataset.message(),
        "no licenses found: the package list is empty"
    );
}

#[test]
fn grouping_covers_exactly_the_licensed_records() {
    let list = scenario_list();
    let groups = group_by_license(&list);
    assert_eq!(groups.len(), 1);
    assert_eq!(groups[0].license, "MIT");
    assert_eq!(groups[0].members, vec!["alpha".to_string(), "beta".to_string()]);
    let member_total: usize = groups.iter().map(|g| g.members.len()).sum();
    let licensed = list
        .records
        .iter()
        .filter(|r| r.license_identifier.is_some())
        .count();
    assert_eq!(member_total, licensed);
}

#[test]
fn grouping_keeps_first_occurrence_and_input_order() {
    let list = PackageList {
        records: vec![
            record("x", Some("BSD-3-Clause"), None),
            record("y", Some("Apache-2.0"), None),
            record("z", Some("BSD-3-Clause"), None),
        ],
    };
    let groups = group_by_license(&list);
    assert_eq!(groups.len(), 2);
    assert_eq!(groups[0].license, "BSD-3-Clause");
    assert_eq!(groups[0].members, vec!["x".to_string(), "z".to_string()]);
    assert_eq!(groups[1].license, "Apache-2.0");
    assert_eq!(groups[1].members, vec!["y".to_string()]);
}

#[test]
fn short_render_of_scenario() {
    assert_eq!(render_short(&scenario_list()), "MIT: alpha, beta\n");
}

#[test]
fn short_render_single_member_has_no_separator() {
    let list = PackageList {
        records: vec![record("solo", Some("ISC"), None)],
    };
    assert_eq!(render_short(&list), "ISC: solo\n");
}

#[test]
fn short_render_of_empty_list_is_empty() {
    assert_eq!(render_short(&PackageList { records: vec![] }), "");
}

#[test]
fn stats_of_scenario() {
    let stats = compute_stats(&scenario_list()).unwrap();
    assert_eq!(stats.total_count, 3);
    assert_eq!(stats.found_count, 1);
    assert_eq!(stats.percentage(), 33);
    assert_eq!(stats.tier(), PercentageTier::Bad);
}

#[test]
fn stats_of_empty_list_signal_empty_dataset() {
    let empty = PackageList { records: vec![] };
    assert_eq!(compute_stats(&empty), Err(ReportError::EmptyDataset));
    assert_eq!(render_stats(&empty), Err(ReportError::EmptyDataset));
}

#[test]
fn stats_render_of_scenario() {
    let rendered = render_stats(&scenario_list()).unwrap();
    let expected = format!(
        "{:<30}{:<30}\n{:<30}{:<30}\n{:<30}{:<30}\n{:<30}{:<30}\n\nlicense found: 33%\n",
        "name",
        "license found",
        "alpha",
        "\u{2713}",
        "beta",
        "\u{2717}",
        "gamma",
        "\u{2717}"
    );
    assert_eq!(rendered, expected);
}

#[test]
fn percentage_rounds_half_up() {
    assert_eq!(Stats { total_count: 8, found_count: 1 }.percentage(), 13);
    assert_eq!(Stats { total_count: 3, found_count: 2 }.percentage(), 67);
    assert_eq!(Stats { total_count: 4, found_count: 4 }.percentage(), 100);
    assert_eq!(Stats { total_count: 5, found_count: 0 }.percentage(), 0);
}

#[test]
fn tier_thresholds_are_inclusive_at_good_and_exclusive_at_warning() {
    assert_eq!(Stats { total_count: 100, found_count: 98 }.tier(), PercentageTier::Good);
    assert_eq!(Stats { total_count: 100, found_count: 97 }.tier(), PercentageTier::Warning);
    assert_eq!(Stats { total_count: 100, found_count: 90 }.tier(), PercentageTier::Warning);
    assert_eq!(Stats { total_count: 100, found_count: 89 }.tier(), PercentageTier::Bad);
    assert_eq!(Stats { total_count: 50, found_count: 49 }.tier(), PercentageTier::Good);
}

#[test]
fn full_render_of_scenario() {
    let expected = "Package: alpha\nLicense: MIT\n\nMIT TEXT\n\n\
                    Package: beta\nLicense: MIT\n\n\
                    Package: gamma\nLicense: (unknown)\n\n";
    assert_eq!(render_full(&scenario_list()), expected);
}

#[test]
fn full_render_of_empty_list_is_empty() {
    assert_eq!(render_full(&PackageList { records: vec![] }), "");
}

#[test]
fn strip_license_texts_keeps_everything_else() {
    let stripped = scenario_list().strip_license_texts();
    assert_eq!(stripped.records.len(), 3);
    assert_eq!(stripped.records[0].name, "alpha");
    assert_eq!(stripped.records[0].license_identifier, Some("MIT".to_string()));
    assert_eq!(stripped.records[0].license_text, None);
    assert_eq!(stripped.records[2].name, "gamma");
    assert_eq!(stripped.records[2].license_identifier, None);
}

#[test]
fn package_list_push_and_len() {
    let mut list = PackageList::new();
    assert_eq!(list.len(), 0);
    list.push(record("one", None, None));
    list.push(record("two", Some("MIT"), None));
    assert_eq!(list.len(), 2);
    assert_eq!(list.records[1].name, "two");
}

#[test]
fn json_render_of_scenario() {
    let expected = "[\n  {\n    \"name\": \"alpha\",\n    \"license_identifier\": \"MIT\",\n    \"license_text\": \"MIT TEXT\"\n  },\n  {\n    \"name\": \"beta\",\n    \"license_identifier\": \"MIT\",\n    \"license_text\": null\n  },\n  {\n    \"name\": \"gamma\",\n    \"license_identifier\": null,\n    \"license_text\": null\n  }\n]";
    assert_eq!(render_json(&scenario_list()), expected);
}

#[test]
fn json_render_of_empty_list() {
    assert_eq!(render_json(&PackageList { records: vec![] }), "[]");
}

#[test]
fn yaml_render_of_scenario() {
    let expected = "- name: \"alpha\"\n  license_identifier: \"MIT\"\n  license_text: \"MIT TEXT\"\n- name: \"beta\"\n  license_identifier: \"MIT\"\n  license_text: null\n- name: \"gamma\"\n  license_identifier: null\n  license_text: null\n";
    assert_eq!(render_yaml(&scenario_list()), expected);
}

#[test]
fn yaml_render_of_empty_list() {
    assert_eq!(render_yaml(&PackageList { records: vec![] }), "[]\n");
}

#[test]
fn escape_string_handles_named_escapes() {
    assert_eq!(escape_string("a\"b\\c\nd"), "a\\\"b\\\\c\\nd");
    assert_eq!(escape_string("\r\t"), "\\r\\t");
    assert_eq!(escape_string("plain"), "plain");
    assert_eq!(escape_string(""), "");
}

#[test]
fn escape_string_handles_control_characters() {
    assert_eq!(escape_string("\u{1}"), "\\u0001");
    assert_eq!(escape_string("\u{1f}"), "\\u001f");
}

#[test]
fn markers_are_distinct_glyphs() {
    assert_eq!(check_marker(true), "\u{2713}");
    assert_eq!(check_marker(false), "\u{2717}");
}

#[test]
fn pad_right_pads_and_never_truncates() {
    assert_eq!(pad_right("ab", 5), "ab   ");
    assert_eq!(pad_right("abcdef", 3), "abcdef");
    assert_eq!(pad_right("", 2), "  ");
}

#[test]
fn decimal_rendering() {
    assert_eq!(u8_to_decimal(0), "0");
    assert_eq!(u8_to_decimal(7), "7");
    assert_eq!(u8_to_decimal(33), "33");
    assert_eq!(u8_to_decimal(100), "100");
    assert_eq!(u8_to_decimal(255), "255");
}

#[test]
fn report_dispatch_routes_each_mode() {
    let list = scenario_list();
    assert_eq!(
        render_report(OutputMode::Short, &list, false).unwrap(),
        render_short(&list)
    );
    assert_eq!(
        render_report(OutputMode::Stats, &list, false).unwrap(),
        render_stats(&list).unwrap()
    );
    assert_eq!(
        render_report(OutputMode::Full, &list, false).unwrap(),
        render_full(&list)
    );
    assert_eq!(
        render_report(OutputMode::Json, &list, false).unwrap(),
        render_json(&list)
    );
    assert_eq!(
        render_report(OutputMode::Yaml, &list, false).unwrap(),
        render_yaml(&list)
    );
    assert_eq!(
        render_report(OutputMode::SelfLicense, &list, false).unwrap(),
        render_full(&list)
    );
}

#[test]
fn report_dispatch_strips_text_when_asked() {
    let list = scenario_list();
    let full = render_report(OutputMode::Full, &list, true).unwrap();
    assert!(!full.contains("MIT TEXT"));
    assert!(full.contains("Package: alpha"));
    let json = render_report(OutputMode::Json, &list, true).unwrap();
    assert!(!json.contains("MIT TEXT"));
    assert_eq!(json, render_json(&list.strip_license_texts()));
}

#[test]
fn self_license_report_ignores_the_stripping_toggle() {
    let list = scenario_list();
    let report = render_report(OutputMode::SelfLicense, &list, true).unwrap();
    assert!(report.contains("MIT TEXT"));
    assert_eq!(report, render_full(&list));
}

#[test]
fn config_error_wraps_into_report_error_message() {
    let wrapped = ReportError::Config(ConfigError::ConflictingModes);
    assert_eq!(wrapped.message(), ConfigError::ConflictingModes.message());
}

#[test]
fn stats_report_on_empty_list_fails_without_output() {
    let empty = PackageList { records: vec![] };
    let result = render_report(OutputMode::Stats, &empty, false);
    assert_eq!(result, Err(ReportError::EmptyDataset));
}
