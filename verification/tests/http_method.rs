//! The methods of HTTP as a string-like enumeration.

use map_enum::preprocess::preprocess_string_enum;
use map_enum::table::{MappingTable, NoSuchVariant};

const METHOD: &str = r#"
/// This enum represents the methods of the HTTP protocol. The
/// methods are used to indicate the desired action to be performed.
#[derive(Debug, Clone, Default)]
pub enum Method {
    /// The GET method requests a representation of the specified
    /// resource.
    #[default]
    GET,

    /// The HEAD method asks for a response identical to a GET
    /// request, but without a response body.
    HEAD,

    /// The POST method submits an entity to the specified resource.
    POST,

    /// The PUT method replaces all current representations of the
    /// target resource with the request content.
    PUT,

    /// The DELETE method deletes the specified resource.
    DELETE,

    /// The CONNECT method establishes a tunnel to the server
    /// identified by the target resource.
    CONNECT,

    /// The OPTIONS method describes the communication options for
    /// the target resource.
    OPTIONS,

    /// The TRACE method performs a message loop-back test along the
    /// path to the target resource.
    TRACE,

    /// The PATCH method applies partial modifications to a resource.
    PATCH,
}
"#;

fn method_table() -> MappingTable {
    let mut item: syn::ItemEnum = syn::parse_str(METHOD).unwrap();
    MappingTable::new(preprocess_string_enum(&mut item))
}

fn method(table: &MappingTable, name: &str) -> usize {
    table.pairs().iter().position(|pair| pair.name == name).unwrap()
}

#[test]
fn methods() {
    let table = method_table();
    let get = method(&table, "GET");
    let head = method(&table, "HEAD");

    assert_eq!(table.max_variant_len(), "CONNECT".len());

    assert_eq!(table.to_string(get), "GET".to_string());
    assert_eq!(table.from_str("HEAD").unwrap(), head);

    assert_eq!(table.combinator("GET / HTTP/1.1"), Some((" / HTTP/1.1", get)));
}

#[test]
fn method_variants_follow_declaration_order() {
    let table = method_table();
    let names: Vec<&str> = table.pairs().iter().map(|pair| pair.name.as_str()).collect();
    assert_eq!(
        names,
        vec!["GET", "HEAD", "POST", "PUT", "DELETE", "CONNECT", "OPTIONS", "TRACE", "PATCH"]
    );
    assert_eq!(table.variant_count(), 9);
}

#[test]
fn method_round_trip_for_every_variant() {
    let table = method_table();
    for variant in 0..table.variant_count() {
        let text = table.to_string(variant);
        assert_eq!(text, table.pairs()[variant].representation);
        assert_eq!(table.from_str(&text), Ok(variant));
        assert_eq!(table.str_len(variant), text.len());
        assert_eq!(table.combinator(&text), Some(("", variant)));
    }
}

#[test]
fn method_unknown_text_has_no_match() {
    let table = method_table();
    assert_eq!(table.from_str("get"), Err(NoSuchVariant));
    assert_eq!(table.from_str("GE"), Err(NoSuchVariant));
    assert_eq!(table.from_str("GETS"), Err(NoSuchVariant));
    assert_eq!(table.from_str(""), Err(NoSuchVariant));
    assert_eq!(table.combinator("get / HTTP/1.1"), None);
    assert_eq!(table.combinator(" GET"), None);
    assert_eq!(table.combinator(""), None);
}

#[test]
fn method_longest_is_connect_before_options() {
    let table = method_table();
    assert_eq!(table.max_variant_len(), 7);
    assert_eq!(table.longest_variant(), Some(method(&table, "CONNECT")));
    assert_eq!(table.str_len(method(&table, "OPTIONS")), 7);
}

#[test]
fn method_text_longer_than_the_maximum_never_matches() {
    let table = method_table();
    let text = "CONNECTS";
    assert!(text.len() > table.max_variant_len());
    assert_eq!(table.from_str(text), Err(NoSuchVariant));
}

#[test]
fn method_prefix_takes_the_later_declaration() {
    let table = method_table();
    assert_eq!(table.combinator("PATCH /a"), Some((" /a", method(&table, "PATCH"))));
    assert_eq!(table.combinator("PUT /a"), Some((" /a", method(&table, "PUT"))));
    assert_eq!(table.combinator("POSTAL"), Some(("AL", method(&table, "POST"))));
}
