use gdax_rs::percent::encode_query_value;
use gdax_rs::url::Route;

#[test]
fn test_simple_route_string() {
    let result = Route::new().add_segment(&String::from("seg")).to_string();

    let expected = String::from("/seg");

    assert_eq!(result, expected);
}

#[test]
fn test_complex_route_string() {
    let result = Route::new()
        .add_segment(&"seg1")
        .add_segment(&String::from("seg2"))
        .add_segment(&String::from("seg3"))
        .add_attribute_value(&String::from("attr1"), &String::from("1"))
        .add_attribute_value(&String::from("attr2"), &String::from("2"))
        .add_attribute_value(&String::from("attr3"), &String::from("3"))
        .to_string();

    let expected = String::from("/seg1/seg2/seg3?attr1=1&attr2=2&attr3=3");

    assert_eq!(result, expected);
}

#[test]
fn empty_route_is_a_single_slash() {
    assert_eq!(Route::new().to_string(), "/");
    assert_eq!(Route::default().to_string(), "/");
}

#[test]
fn segments_are_joined_in_call_order() {
    let route = Route::new().add_segment("b").add_segment("a").add_segment("c");
    assert_eq!(route.to_string(), "/b/a/c");
}

#[test]
fn two_segments_have_one_separator_between_them() {
    assert_eq!(Route::new().add_segment("products").add_segment("BTC-USD").to_string(), "/products/BTC-USD");
}

#[test]
fn segments_are_never_escaped() {
    let route = Route::new().add_segment("a b").add_segment("c?d").add_segment("");
    assert_eq!(route.to_string(), "/a b/c?d/");
}

#[test]
fn query_without_segments_follows_the_root() {
    let route = Route::new().add_attribute_value("level", "2");
    assert_eq!(route.to_string(), "/?level=2");
}

#[test]
fn query_pairs_keep_insertion_order() {
    let route = Route::new()
        .add_segment("fills")
        .add_attribute_value("z", "1")
        .add_attribute_value("a", "2")
        .add_attribute_value("m", "3");
    assert_eq!(route.to_string(), "/fills?z=1&a=2&m=3");
}

#[test]
fn segments_and_pairs_may_interleave() {
    let route = Route::new()
        .add_attribute_value("a", "1")
        .add_segment("x")
        .add_attribute_value("b", "2")
        .add_segment("y");
    assert_eq!(route.to_string(), "/x/y?a=1&b=2");
}

#[test]
fn space_in_a_value_is_escaped() {
    let route = Route::new().add_segment("orders").add_attribute_value("note", "foo bar");
    assert_eq!(route.to_string(), "/orders?note=foo%20bar");
}

#[test]
fn every_punctuation_mark_of_the_encode_set_is_escaped() {
    let route = Route::new().add_attribute_value("q", " \"#&<>`?{}");
    assert_eq!(route.to_string(), "/?q=%20%22%23%26%3C%3E%60%3F%7B%7D");
}

#[test]
fn ampersand_in_a_value_is_escaped() {
    let route = Route::new().add_segment(&"s").add_attribute_value(&"q", &"a&b");
    assert_eq!(route.to_string(), "/s?q=a%26b");
}

#[test]
fn value_of_ampersands_alone_is_escaped_throughout() {
    let route = Route::new().add_attribute_value("q", "&&").add_attribute_value("r", "&");
    assert_eq!(route.to_string(), "/?q=%26%26&r=%26");
}

#[test]
fn query_has_one_separator_less_than_pairs() {
    let route = Route::new()
        .add_segment("orders")
        .add_attribute_value("a", "x&y")
        .add_attribute_value("b", "&")
        .add_attribute_value("c", "p q&r s");
    let text = route.to_string();
    let query = text.strip_prefix("/orders?").unwrap();
    assert_eq!(query.matches('&').count(), 2);
    assert_eq!(query.matches(' ').count(), 0);
    let parts: Vec<&str> = query.split('&').collect();
    assert_eq!(parts, vec!["a=x%26y", "b=%26", "c=p%20q%26r%20s"]);
}

#[test]
fn encode_query_value_escapes_byte_by_byte() {
    assert_eq!(encode_query_value(""), "");
    assert_eq!(encode_query_value("plain"), "plain");
    assert_eq!(encode_query_value("a b"), "a%20b");
    assert_eq!(encode_query_value("a&b"), "a%26b");
    assert_eq!(encode_query_value("foo bar?"), "foo%20bar%3F");
    assert_eq!(encode_query_value("100%"), "100%");
    assert_eq!(encode_query_value("%26"), "%26");
    assert_eq!(encode_query_value("\u{7f}é"), "%7F%C3%A9");
}

#[test]
fn builders_take_any_value_that_displays() {
    let built = Route::new().add_segment(&"products").add_attribute_value(&"limit", &100);
    let expected = Route::new()
        .add_segment(&"products")
        .add_attribute_value(&String::from("limit"), &String::from("100"));
    assert_eq!(built, expected);
    assert_eq!(built.to_string(), "/products?limit=100");
}

#[test]
fn numbers_and_characters_become_their_text() {
    let route = Route::new()
        .add_segment(&42)
        .add_segment(&'x')
        .add_segment(&true)
        .add_attribute_value(&7u8, &-3i64);
    assert_eq!(route.to_string(), "/42/x/true?7=-3");
}

#[test]
fn with_segment_and_with_attribute_value_take_the_text_as_it_is() {
    let route = Route::new()
        .with_segment(String::from("fills"))
        .with_attribute_value(String::from("order id"), String::from("a b&c"));
    assert_eq!(route.to_string(), "/fills?order id=a%20b%26c");
    assert_eq!(
        route,
        Route::new().add_segment("fills").add_attribute_value("order id", "a b&c")
    );
}

#[test]
fn controls_and_delete_are_escaped() {
    let route = Route::new().add_attribute_value("q", "\u{0}\t\n\u{1f}\u{7f}");
    assert_eq!(route.to_string(), "/?q=%00%09%0A%1F%7F");
}

#[test]
fn text_beyond_ascii_is_escaped_byte_by_byte() {
    let route = Route::new().add_attribute_value("name", "é€😀");
    assert_eq!(route.to_string(), "/?name=%C3%A9%E2%82%AC%F0%9F%98%80");
}

#[test]
fn printable_ascii_outside_the_encode_set_passes() {
    let plain = "!$%'()*+,-./0123456789:;=@ABCXYZ[\\]^_abcxyz|~";
    let route = Route::new().add_attribute_value("q", plain);
    assert_eq!(route.to_string(), format!("/?q={}", plain));
}

#[test]
fn timestamp_value_keeps_its_punctuation() {
    let route = Route::new()
        .add_segment("candles")
        .add_attribute_value("start", "2018-01-01T00:00:00Z");
    assert_eq!(route.to_string(), "/candles?start=2018-01-01T00:00:00Z");
}

#[test]
fn names_are_never_escaped() {
    let route = Route::new().add_attribute_value("a b?", "c d?");
    assert_eq!(route.to_string(), "/?a b?=c%20d%3F");
}

#[test]
fn empty_name_and_value_still_make_a_pair() {
    let route = Route::new().add_attribute_value("", "").add_attribute_value("k", "");
    assert_eq!(route.to_string(), "/?=&k=");
}

#[test]
fn rendering_twice_gives_the_same_text() {
    let route = Route::new().add_segment("a").add_attribute_value("k", "v w");
    assert_eq!(route.to_string(), route.to_string());
    assert_eq!(route.to_string(), "/a?k=v%20w");
}

#[test]
fn routes_with_the_same_parts_are_equal() {
    let left = Route::new().add_segment("a").add_attribute_value("k", "v");
    let right = Route::new().add_segment("a").add_attribute_value("k", "v");
    assert_eq!(left, right);
    assert!(Route::new() == Route::default());
}

#[test]
fn routes_that_differ_in_any_part_are_not_equal() {
    let base = || Route::new().add_segment("a").add_attribute_value("k", "v");
    assert_ne!(base(), Route::new());
    assert_ne!(base(), Route::new().add_segment("a"));
    assert_ne!(base(), Route::new().add_segment("b").add_attribute_value("k", "v"));
    assert_ne!(base(), Route::new().add_segment("a").add_attribute_value("j", "v"));
    assert_ne!(base(), Route::new().add_segment("a").add_attribute_value("k", "w"));
    assert_ne!(base(), base().add_segment("a"));
    assert_ne!(base(), base().add_attribute_value("k", "v"));
    assert_ne!(
        Route::new().add_segment("a").add_segment("b"),
        Route::new().add_segment("b").add_segment("a")
    );
}
