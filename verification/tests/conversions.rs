//! The conversions of a table, on tables written out by hand.

use map_enum::declaration::NormalizedPair;
use map_enum::table::{MappingTable, NoSuchVariant, PrefixArm};
use map_enum::text::{byte_length, same_text, strip_prefix};

fn table_of(pairs: &[(&str, &str)]) -> MappingTable {
    MappingTable::new(
        pairs
            .iter()
            .map(|(name, representation)| NormalizedPair {
                name: name.to_string(),
                representation: representation.to_string(),
            })
            .collect(),
    )
}

#[test]
fn exact_match_failure() {
    let table = table_of(&[("A", "alpha"), ("B", "beta")]);
    assert_eq!(table.from_str("gamma"), Err(NoSuchVariant));
    assert_eq!(table.from_str("alpha"), Ok(0));
    assert_eq!(table.from_str("beta"), Ok(1));
    assert_eq!(table.from_str("A"), Err(NoSuchVariant));
    assert_eq!(table.from_str("alph"), Err(NoSuchVariant));
    assert_eq!(table.from_str("alphabet"), Err(NoSuchVariant));
    assert_eq!(table.from_str("Alpha"), Err(NoSuchVariant));
}

#[test]
fn max_length_of_three_methods() {
    let table = table_of(&[("GET", "GET"), ("HEAD", "HEAD"), ("CONNECT", "CONNECT")]);
    assert_eq!(table.max_variant_len(), 7);
    assert_eq!(table.longest_variant(), Some(2));
    assert_eq!(table.str_len(0), 3);
    assert_eq!(table.str_len(1), 4);
    assert_eq!(table.str_len(2), 7);
}

#[test]
fn longest_variant_is_the_earliest_on_a_tie() {
    let table = table_of(&[("A", "ab"), ("B", "wxyz"), ("C", "abcd"), ("D", "a")]);
    assert_eq!(table.longest_variant(), Some(1));
    assert_eq!(table.max_variant_len(), 4);
    let empty_only = table_of(&[("A", ""), ("B", "")]);
    assert_eq!(empty_only.longest_variant(), Some(0));
    assert_eq!(empty_only.max_variant_len(), 0);
}

#[test]
fn duplicate_representations_are_kept() {
    let table = table_of(&[("A", "same"), ("B", "other"), ("C", "same")]);
    assert_eq!(table.variant_count(), 3);
    assert_eq!(table.to_string(0), "same");
    assert_eq!(table.to_string(2), "same");
    assert_eq!(table.from_str("same"), Ok(0));
    assert_eq!(table.combinator("same here"), Some((" here", 2)));
}

#[test]
fn empty_representation_begins_every_input() {
    let table = table_of(&[("Word", "word"), ("Nothing", "")]);
    assert_eq!(table.combinator("word"), Some(("word", 1)));
    assert_eq!(table.combinator(""), Some(("", 1)));
    assert_eq!(table.from_str(""), Ok(1));
    let table = table_of(&[("Nothing", ""), ("Word", "word")]);
    assert_eq!(table.combinator("words"), Some(("s", 1)));
    assert_eq!(table.combinator("sword"), Some(("sword", 0)));
}

#[test]
fn lengths_are_counted_in_bytes() {
    let table =
        table_of(&[("Summer", "été"), ("Euro", "€"), ("Crab", "🦀"), ("Plain", "abcd")]);
    assert_eq!(table.str_len(0), 5);
    assert_eq!(table.str_len(1), 3);
    assert_eq!(table.str_len(2), 4);
    assert_eq!(table.str_len(3), 4);
    assert_eq!(table.max_variant_len(), 5);
    assert_eq!(table.longest_variant(), Some(0));
    let arms = table.prefix_arms();
    assert_eq!(
        arms[1],
        PrefixArm {
            variant: 2,
            name: "Crab".to_string(),
            representation: "🦀".to_string(),
            len: 4
        }
    );
}

#[test]
fn prefix_match_on_text_of_several_bytes_a_character() {
    let table = table_of(&[("E", "é"), ("Summer", "été"), ("Euro", "€")]);
    assert_eq!(table.combinator("été indien"), Some((" indien", 1)));
    assert_eq!(table.combinator("école"), Some(("cole", 0)));
    assert_eq!(table.combinator("€uro"), Some(("uro", 2)));
    assert_eq!(table.combinator("ète"), None);
    assert_eq!(table.combinator("ecole"), None);
    assert_eq!(table.from_str("é"), Ok(0));
    assert_eq!(table.from_str("è"), Err(NoSuchVariant));
}

#[test]
fn arms_of_a_small_table() {
    let table = table_of(&[("Less", "<"), ("Shift", "<<"), ("ShiftAssign", "<<=")]);
    let arms = table.prefix_arms();
    assert_eq!(
        arms,
        vec![
            PrefixArm {
                variant: 2,
                name: "ShiftAssign".to_string(),
                representation: "<<=".to_string(),
                len: 3
            },
            PrefixArm {
                variant: 1,
                name: "Shift".to_string(),
                representation: "<<".to_string(),
                len: 2
            },
            PrefixArm {
                variant: 0,
                name: "Less".to_string(),
                representation: "<".to_string(),
                len: 1
            },
        ]
    );
    for input in ["<<=rest", "<<rest", "<rest", "rest", "", "<", "=<"] {
        let first_arm = arms.iter().find(|arm| input.starts_with(arm.representation.as_str()));
        let expected = first_arm.map(|arm| (&input[arm.len..], arm.variant));
        assert_eq!(table.combinator(input), expected);
    }
}

#[test]
fn pairs_are_handed_back_as_given() {
    let table = table_of(&[("A", "alpha"), ("B", "beta")]);
    let pairs = table.pairs();
    assert_eq!(pairs.len(), 2);
    assert_eq!(pairs[0].name, "A");
    assert_eq!(pairs[0].representation, "alpha");
    assert_eq!(pairs[1].name, "B");
    assert_eq!(pairs[1].representation, "beta");
}

#[test]
fn strip_prefix_agrees_with_the_standard_library() {
    let inputs = [
        "", "a", "ab", "abc", "é", "été", "€", "€uro", "🦀", "🦀🦀", "a🦀", "\u{7ff}", "\u{800}",
    ];
    for input in inputs {
        for pattern in inputs {
            assert_eq!(strip_prefix(input, pattern), input.strip_prefix(pattern));
            assert_eq!(same_text(input, pattern), input == pattern);
        }
        assert_eq!(byte_length(input), input.len());
    }
}

#[test]
fn strip_prefix_gives_what_follows() {
    assert_eq!(strip_prefix("GET / HTTP/1.1", "GET"), Some(" / HTTP/1.1"));
    assert_eq!(strip_prefix("GET", "GET"), Some(""));
    assert_eq!(strip_prefix("GE", "GET"), None);
    assert_eq!(strip_prefix("get", "GET"), None);
    assert_eq!(strip_prefix("anything", ""), Some("anything"));
    assert_eq!(byte_length("CONNECT"), 7);
    assert_eq!(byte_length("été"), 5);
    assert!(same_text("HEAD", "HEAD"));
    assert!(!same_text("HEAD", "HEAT"));
    assert!(!same_text("HEAD", "HEA"));
}
