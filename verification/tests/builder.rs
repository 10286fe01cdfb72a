// Tests for building the typed configuration from raw sections.

use typed_ini::config::{RawConfig, RawSection, TypedConfig};

fn section(name: &str, pairs: &[(&str, Option<&str>)]) -> RawSection {
    RawSection {
        name: String::from(name),
        properties: pairs
            .iter()
            .map(|(k, v)| (String::from(*k), v.map(String::from)))
            .collect(),
    }
}

fn sample() -> RawConfig {
    RawConfig {
        sections: vec![section(
            "default",
            &[
                ("debug", Some("true")),
                ("count", Some("100")),
                ("number_with_padding", Some("0100")),
                ("average", Some("1.1")),
                ("value_less", None),
                ("number_with_space", Some("100 0000")),
                ("number_with_comma", Some("1,000")),
            ],
        )],
    }
}

#[test]
fn build_classifies_each_pair() {
    let typed = TypedConfig::raw_to_typed(sample());
    assert_eq!(typed.get_bool("debug"), Some(&true));
    assert_eq!(typed.get_integer("count"), Some(&100));
    assert_eq!(typed.get_integer("number_with_padding"), Some(&100));
    assert_eq!(typed.get_float("average").map(String::as_str), Some("1.1"));
    assert_eq!(typed.get_float("average").unwrap().parse::<f64>().unwrap(), 1.1);
    assert!(typed.has_no_value("value_less"));
    assert_eq!(typed.get_string("number_with_space").map(String::as_str), Some("100 0000"));
    assert_eq!(typed.get_string("number_with_comma").map(String::as_str), Some("1,000"));
    assert_eq!(typed.integer_count(), 2);
    assert_eq!(typed.float_count(), 1);
    assert_eq!(typed.bool_count(), 1);
    assert_eq!(typed.string_count(), 2);
    assert_eq!(typed.none_count(), 1);
}

#[test]
fn each_key_in_exactly_one_mapping() {
    let typed = TypedConfig::raw_to_typed(sample());
    for key in [
        "debug",
        "count",
        "number_with_padding",
        "average",
        "value_less",
        "number_with_space",
        "number_with_comma",
    ] {
        let homes = typed.get_integer(key).is_some() as u32
            + typed.get_float(key).is_some() as u32
            + typed.get_bool(key).is_some() as u32
            + typed.get_string(key).is_some() as u32
            + typed.has_no_value(key) as u32;
        assert_eq!(homes, 1, "key = {:?}", key);
    }
}

#[test]
fn build_twice_yields_identical_contents() {
    let first = TypedConfig::raw_to_typed(sample());
    let second = TypedConfig::raw_to_typed(sample());
    for key in [
        "debug",
        "count",
        "number_with_padding",
        "average",
        "value_less",
        "number_with_space",
        "number_with_comma",
        "missing",
    ] {
        assert_eq!(first.get_integer(key), second.get_integer(key));
        assert_eq!(first.get_float(key), second.get_float(key));
        assert_eq!(first.get_bool(key), second.get_bool(key));
        assert_eq!(first.get_string(key), second.get_string(key));
        assert_eq!(first.has_no_value(key), second.has_no_value(key));
    }
    assert_eq!(first.integer_count(), second.integer_count());
    assert_eq!(first.float_count(), second.float_count());
    assert_eq!(first.bool_count(), second.bool_count());
    assert_eq!(first.string_count(), second.string_count());
    assert_eq!(first.none_count(), second.none_count());
}

#[test]
fn later_section_reclassifies_key() {
    // The same key classified again in a later section wins, and leaves
    // exactly one home for the key.
    let raw = RawConfig {
        sections: vec![
            section("alpha", &[("port", Some("8080"))]),
            section("beta", &[("port", Some("auto"))]),
        ],
    };
    let typed = TypedConfig::raw_to_typed(raw);
    assert_eq!(typed.get_integer("port"), None);
    assert_eq!(typed.get_string("port").map(String::as_str), Some("auto"));
    assert_eq!(typed.integer_count(), 0);
    assert_eq!(typed.string_count(), 1);
}

#[test]
fn empty_configuration_builds_empty_tables() {
    let typed = TypedConfig::raw_to_typed(RawConfig { sections: vec![] });
    assert_eq!(typed.integer_count(), 0);
    assert_eq!(typed.float_count(), 0);
    assert_eq!(typed.bool_count(), 0);
    assert_eq!(typed.string_count(), 0);
    assert_eq!(typed.none_count(), 0);
    assert_eq!(typed.get_integer("anything"), None);
}

#[test]
fn end_to_end_ini_scenario() {
    let ini_text = "[default]\n\
        debug=true\n\
        count=100\n\
        number_with_padding=0100\n\
        average=1.1\n\
        value_less\n\
        number_with_space=100 0000\n\
        number_with_comma=1,000\n";
    let mut ini = configparser::ini::Ini::new();
    let raw_map = ini.read(String::from(ini_text)).expect("the INI text parses");
    let mut raw = RawConfig { sections: Vec::new() };
    for (name, props) in raw_map {
        let mut sec = RawSection { name, properties: Vec::new() };
        for (key, value) in props {
            sec.properties.push((key, value));
        }
        raw.sections.push(sec);
    }
    let typed = TypedConfig::raw_to_typed(raw);
    assert_eq!(typed.get_bool("debug"), Some(&true));
    assert_eq!(typed.get_integer("count"), Some(&100));
    assert_eq!(typed.get_integer("number_with_padding"), Some(&100));
    assert_eq!(typed.get_float("average").unwrap().parse::<f64>().unwrap(), 1.1);
    assert!(typed.has_no_value("value_less"));
    assert_eq!(typed.get_string("number_with_space").map(String::as_str), Some("100 0000"));
    assert_eq!(typed.get_string("number_with_comma").map(String::as_str), Some("1,000"));
}
