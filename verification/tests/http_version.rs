//! The versions of HTTP as a string-like enumeration.

use map_enum::preprocess::preprocess_string_enum;
use map_enum::table::MappingTable;

const VERSION: &str = r#"
/// This enum represents the versions of the HTTP protocol.
#[derive(Clone, Default)]
pub enum Version {
    Http0_9 = "HTTP/0.9",
    Http1_0 = "HTTP/1.0",
    #[default]
    Http1_1 = "HTTP/1.1",
    Http2 = "HTTP/2",
    Http3 = "HTTP/3",
}
"#;

fn version_table() -> MappingTable {
    let mut item: syn::ItemEnum = syn::parse_str(VERSION).unwrap();
    MappingTable::new(preprocess_string_enum(&mut item))
}

fn version_named(table: &MappingTable, name: &str) -> usize {
    table.pairs().iter().position(|pair| pair.name == name).unwrap()
}

#[test]
fn version() {
    let table = version_table();
    assert_eq!(table.str_len(version_named(&table, "Http1_1")), 8);
}

#[test]
fn version_literals_are_the_representations() {
    let table = version_table();
    assert_eq!(table.to_string(version_named(&table, "Http0_9")), "HTTP/0.9");
    assert_eq!(table.to_string(version_named(&table, "Http2")), "HTTP/2");
    assert_eq!(table.from_str("HTTP/3"), Ok(version_named(&table, "Http3")));
    assert!(table.from_str("Http3").is_err());
    assert_eq!(table.max_variant_len(), 8);
    assert_eq!(table.longest_variant(), Some(0));
}

#[test]
fn version_prefix_of_a_status_line() {
    let table = version_table();
    assert_eq!(
        table.combinator("HTTP/1.1 200 OK"),
        Some((" 200 OK", version_named(&table, "Http1_1")))
    );
    assert_eq!(table.combinator("HTTP/2.0"), Some((".0", version_named(&table, "Http2"))));
    assert_eq!(table.combinator("HTTP/4"), None);
}
