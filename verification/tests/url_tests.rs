use cargo_backup::url::UrlBuilder;

#[test]
fn builds_without_params() {
    let url = UrlBuilder::new("https://example.com").build();
    assert_eq!(url, "https://example.com");
}

#[test]
fn builds_params_in_insertion_order() {
    let url = UrlBuilder::new("https://example.com")
        .add_param("foo", "bar")
        .add_param("id", "value")
        .build();
    assert_eq!(url, "https://example.com?foo=bar&id=value");
}

#[test]
fn adding_a_key_again_replaces_its_value_in_place() {
    let url = UrlBuilder::new("https://example.com")
        .add_param("foo", "bar")
        .add_param("id", "value")
        .add_param("foo", "baz")
        .build();
    assert_eq!(url, "https://example.com?foo=baz&id=value");
}
