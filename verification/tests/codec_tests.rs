use cargo_backup::Package;
use cargo_backup::codec::{serialize_packages, parse_packages};
use cargo_backup::version::Version;

fn pkg(name: &str, features: Vec<&str>, all: bool, ndf: bool, v: (u64, u64, u64)) -> Package {
    Package {
        name: name.to_string(),
        features: features.into_iter().map(|f| f.to_string()).collect(),
        all_features: all,
        no_default_features: ndf,
        version: Version::release(v.0, v.1, v.2),
    }
}

#[test]
fn serializes_exactly() {
    let ps = vec![pkg("foo", vec!["a", "b"], false, true, (1, 2, 3))];
    let s = serialize_packages(&ps);
    assert_eq!(
        s,
        "[{\"name\":\"foo\",\"features\":[\"a\",\"b\"],\"all_features\":false,\
         \"no_default_features\":true,\"version\":\"1.2.3\"}]"
    );
}

#[test]
fn serializes_empty_set() {
    let ps: Vec<Package> = vec![];
    assert_eq!(serialize_packages(&ps), "[]");
}

#[test]
fn round_trip_preserves_everything() {
    let ps = vec![
        pkg("foo", vec!["f1", "f2"], true, false, (0, 1, 0)),
        pkg("bar", vec![], false, true, (12, 0, 97)),
        pkg("baz", vec!["only"], false, false, (18446744073709551615, 0, 1)),
    ];
    let text = serialize_packages(&ps);
    let back = parse_packages(&text).expect("the serialized form must parse");
    assert_eq!(back, ps);
}

#[test]
fn round_trip_escapes_quotes_and_backslashes() {
    let ps = vec![pkg("odd\"name\\here", vec!["fe\\at\"ure"], false, false, (1, 0, 0))];
    let text = serialize_packages(&ps);
    let back = parse_packages(&text).expect("escaped characters must survive");
    assert_eq!(back, ps);
}

#[test]
fn round_trip_empty_set() {
    let ps: Vec<Package> = vec![];
    let back = parse_packages(&serialize_packages(&ps)).unwrap();
    assert!(back.is_empty());
}

#[test]
fn parse_rejects_garbage() {
    assert!(parse_packages("").is_none());
    assert!(parse_packages("not json").is_none());
    assert!(parse_packages("{}").is_none());
    assert!(parse_packages("[{\"name\":\"x\"}]").is_none());
}

#[test]
fn parse_rejects_trailing_text() {
    let ps = vec![pkg("foo", vec![], false, false, (1, 0, 0))];
    let mut text = serialize_packages(&ps);
    text.push('x');
    assert!(parse_packages(&text).is_none());
}

#[test]
fn parse_rejects_unterminated_string() {
    assert!(parse_packages("[{\"name\":\"foo").is_none());
}

#[test]
fn parse_accepts_what_it_wrote_for_many_shapes() {
    let ps = vec![
        pkg("a", vec![], false, false, (0, 0, 0)),
        pkg("b", vec!["x"], true, true, (1, 1, 1)),
    ];
    let text = serialize_packages(&ps);
    assert_eq!(parse_packages(&text).unwrap(), ps);
}

#[test]
fn round_trip_preserves_pre_release_versions() {
    let ps = vec![Package {
        name: "foo".to_string(),
        features: vec![],
        all_features: false,
        no_default_features: false,
        version: Version { major: 1, minor: 0, patch: 0, pre: vec!["alpha".to_string(), "1".to_string()] },
    }];
    let text = serialize_packages(&ps);
    assert_eq!(
        text,
        "[{\"name\":\"foo\",\"features\":[],\"all_features\":false,\
         \"no_default_features\":false,\"version\":\"1.0.0-alpha.1\"}]"
    );
    let back = parse_packages(&text).expect("a pre-release version must survive the round trip");
    assert_eq!(back, ps);
}

#[test]
fn parse_accepts_a_pretty_printed_file() {
    let pretty = "[\n  {\n    \"name\": \"foo\",\n    \"features\": [\n      \"a\",\n      \"b\"\n    ],\n    \"all_features\": false,\n    \"no_default_features\": true,\n    \"version\": \"1.2.3\"\n  },\n  {\n    \"name\": \"bar\",\n    \"features\": [],\n    \"all_features\": true,\n    \"no_default_features\": false,\n    \"version\": \"0.1.0-rc.1\"\n  }\n]\n";
    let packages = parse_packages(pretty).expect("a pretty-printed backup must parse");
    assert_eq!(packages.len(), 2);
    assert_eq!(packages[0].name, "foo");
    assert_eq!(packages[0].features, vec!["a".to_string(), "b".to_string()]);
    assert!(packages[0].no_default_features);
    assert_eq!(packages[0].version, Version::release(1, 2, 3));
    assert_eq!(packages[1].name, "bar");
    assert!(packages[1].all_features);
    assert_eq!(
        packages[1].version,
        Version { major: 0, minor: 1, patch: 0, pre: vec!["rc".to_string(), "1".to_string()] }
    );
}

#[test]
fn parse_accepts_standard_string_escapes() {
    let text = "[{\"name\":\"a\\/b\\n\\t\\u0041\",\"features\":[],\"all_features\":false,\
                \"no_default_features\":false,\"version\":\"1.0.0\"}]";
    let packages = parse_packages(text).unwrap();
    assert_eq!(packages[0].name, "a/b\n\tA");
}

#[test]
fn parse_rejects_surrogate_and_short_unicode_escapes() {
    let with = |name: &str| {
        format!(
            "[{{\"name\":\"{}\",\"features\":[],\"all_features\":false,\
             \"no_default_features\":false,\"version\":\"1.0.0\"}}]",
            name
        )
    };
    assert!(parse_packages(&with("\\uD800")).is_none());
    assert!(parse_packages(&with("\\u12")).is_none());
    assert!(parse_packages(&with("\\x41")).is_none());
}
