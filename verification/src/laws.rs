//! What holds of the conversions of every table.

use vstd::prelude::*;
use crate::declaration::{
    normalized, representation_of, DeclarationView, DiscriminantView, PairView,
};
use crate::table::{
    is_exact_match, is_longest_variant, is_max_len, is_prefix_match, is_variant, no_exact_match,
    no_prefix_match, prefix_order, ArmView,
};
use crate::text::{byte_len, lemma_byte_len_concat};

verus! {

/// An exact match has one answer: two variants that both answer for a text
/// are the same variant, and a text that has an answer is not without a match.
pub proof fn lemma_exact_match_is_unique(
    table: Seq<PairView>,
    text: Seq<char>,
    first: int,
    second: int,
)
    requires
        is_exact_match(table, text, first),
        is_exact_match(table, text, second),
    ensures
        first == second,
        !no_exact_match(table, text),
{
    if first < second {
        assert(table[first].representation != text);
    }
    if second < first {
        assert(table[second].representation != text);
    }
    assert(table[first].representation == text);
}

/// A text that some variant has as its representation has an exact match,
/// and the match is that variant or an earlier one.
pub proof fn lemma_declared_text_matches(table: Seq<PairView>, text: Seq<char>, variant: int)
    requires
        is_variant(table, variant),
        table[variant].representation == text,
    ensures
        exists|found: int| 0 <= found <= variant && is_exact_match(table, text, found),
    decreases variant,
{
    let declared_earlier = exists|earlier: int|
        0 <= earlier < variant && (#[trigger] table[earlier]).representation == text;
    if declared_earlier {
        let earlier: int = choose|earlier: int|
            0 <= earlier < variant && (#[trigger] table[earlier]).representation == text;
        lemma_declared_text_matches(table, text, earlier);
        let found: int = choose|found: int|
            0 <= found <= earlier && is_exact_match(table, text, found);
        assert(0 <= found <= variant && is_exact_match(table, text, found));
    } else {
        assert(is_exact_match(table, text, variant));
    }
}

/// A text has no exact match exactly when no variant has it as its
/// representation.
pub proof fn lemma_no_exact_match_iff_undeclared(table: Seq<PairView>, text: Seq<char>)
    ensures
        no_exact_match(table, text) <==> !exists|variant: int|
            is_variant(table, variant) && (#[trigger] table[variant]).representation == text,
        no_exact_match(table, text) <==> !exists|variant: int|
            #[trigger] is_exact_match(table, text, variant),
{
    if !no_exact_match(table, text) {
        let variant: int = choose|variant: int|
            0 <= variant < table.len() && (#[trigger] table[variant]).representation == text;
        assert(is_variant(table, variant) && table[variant].representation == text);
        lemma_declared_text_matches(table, text, variant);
    }
    if exists|variant: int| #[trigger] is_exact_match(table, text, variant) {
        let variant: int = choose|variant: int| #[trigger] is_exact_match(table, text, variant);
        assert(is_variant(table, variant) && table[variant].representation == text);
    }
}

/// Round trip: what `to_string` gives for a variant, `from_str` takes back
/// to that variant and to no other, whenever no other variant has the same
/// representation.
pub proof fn lemma_round_trip(table: Seq<PairView>, variant: int)
    requires
        is_variant(table, variant),
        forall|other: int|
            0 <= other < table.len() && other != variant ==> (#[trigger] table[other])
                .representation != table[variant].representation,
    ensures
        is_exact_match(table, table[variant].representation, variant),
        !no_exact_match(table, table[variant].representation),
        forall|found: int|
            is_exact_match(table, table[variant].representation, found) ==> found == variant,
{
    let text = table[variant].representation;
    assert(is_exact_match(table, text, variant));
    assert forall|found: int| is_exact_match(table, text, found) implies found == variant by {
        lemma_exact_match_is_unique(table, text, found, variant);
    }
}

/// Where several variants share a representation, its exact match is the
/// earliest of them.
pub proof fn lemma_earliest_duplicate_wins(table: Seq<PairView>, variant: int, found: int)
    requires
        is_variant(table, variant),
        is_exact_match(table, table[variant].representation, found),
    ensures
        found <= variant,
        table[found].representation == table[variant].representation,
{
}

/// A prefix match has one answer: two variants that both answer for an
/// input are the same variant, and an input that has an answer is not
/// without a match.
pub proof fn lemma_prefix_match_is_unique(
    table: Seq<PairView>,
    input: Seq<char>,
    first: int,
    second: int,
)
    requires
        is_prefix_match(table, input, first),
        is_prefix_match(table, input, second),
    ensures
        first == second,
        !no_prefix_match(table, input),
{
    if first < second {
        assert(!table[second].representation.is_prefix_of(input));
    }
    if second < first {
        assert(!table[first].representation.is_prefix_of(input));
    }
    assert(table[first].representation.is_prefix_of(input));
}

/// The prefix match takes the first arm, in the order in which the arms are
/// tried, whose representation begins the input.
pub proof fn lemma_prefix_match_is_first_arm(table: Seq<PairView>, input: Seq<char>, variant: int)
    requires
        is_variant(table, variant),
    ensures
        is_prefix_match(table, input, variant) <==> {
            let arms = prefix_order(table);
            let position: int = table.len() - 1 - variant;
            &&& arms[position].variant == variant
            &&& arms[position].representation.is_prefix_of(input)
            &&& forall|earlier: int|
                0 <= earlier < position ==> !(#[trigger] arms[earlier]).representation.is_prefix_of(
                    input,
                )
        },
{
    let arms = prefix_order(table);
    let position: int = table.len() - 1 - variant;
    assert(arms[position].variant == variant);
    assert(arms[position].representation == table[variant].representation);
    let no_earlier_arm = forall|earlier: int|
        0 <= earlier < position ==> !(#[trigger] arms[earlier]).representation.is_prefix_of(input);
    if is_prefix_match(table, input, variant) {
        assert forall|earlier: int| 0 <= earlier < position implies !(#[trigger] arms[earlier])
            .representation.is_prefix_of(input) by {
            let other: int = table.len() - 1 - earlier;
            assert(arms[earlier].representation == table[other].representation);
        }
    }
    if arms[position].representation.is_prefix_of(input) && no_earlier_arm {
        assert forall|other: int| variant < other < table.len() implies !(#[trigger] table[other])
            .representation.is_prefix_of(input) by {
            let earlier: int = table.len() - 1 - other;
            assert(arms[earlier].representation == table[other].representation);
        }
    }
}

/// Of the variants whose representation begins an input, one declared
/// later takes precedence: the prefix match is no variant declared before it.
pub proof fn lemma_later_declaration_takes_precedence(
    table: Seq<PairView>,
    input: Seq<char>,
    later: int,
    found: int,
)
    requires
        is_variant(table, later),
        table[later].representation.is_prefix_of(input),
        is_prefix_match(table, input, found),
    ensures
        later <= found,
{
}

/// What the prefix match leaves of an input is what follows the matched
/// representation: the representation and the rest make up the input.
pub proof fn lemma_prefix_match_splits_input(table: Seq<PairView>, input: Seq<char>, variant: int)
    requires
        is_prefix_match(table, input, variant),
    ensures
        table[variant].representation + input.skip(table[variant].representation.len() as int)
            == input,
        byte_len(table[variant].representation) + byte_len(
            input.skip(table[variant].representation.len() as int),
        ) == byte_len(input),
{
    let head = table[variant].representation;
    let rest = input.skip(head.len() as int);
    assert(head + rest =~= input);
    lemma_byte_len_concat(head, rest);
}

/// The earliest longest variant is one variant.
pub proof fn lemma_longest_variant_is_unique(table: Seq<PairView>, first: int, second: int)
    requires
        is_longest_variant(table, first),
        is_longest_variant(table, second),
    ensures
        first == second,
{
    if first < second {
        assert(byte_len(table[first].representation) < byte_len(table[second].representation));
        assert(byte_len(table[second].representation) <= byte_len(table[first].representation));
    }
    if second < first {
        assert(byte_len(table[second].representation) < byte_len(table[first].representation));
        assert(byte_len(table[first].representation) <= byte_len(table[second].representation));
    }
}

/// The greatest length of a table is one number, and it is the length of
/// the earliest longest variant.
pub proof fn lemma_max_len_is_unique(table: Seq<PairView>, first: nat, second: nat)
    requires
        is_max_len(table, first),
        is_max_len(table, second),
    ensures
        first == second,
        forall|variant: int|
            is_longest_variant(table, variant) ==> byte_len(table[variant].representation) == first,
{
    if table.len() > 0 {
        let a: int = choose|variant: int|
            0 <= variant < table.len() && byte_len((#[trigger] table[variant]).representation)
                == first;
        let b: int = choose|variant: int|
            0 <= variant < table.len() && byte_len((#[trigger] table[variant]).representation)
                == second;
        assert(byte_len(table[a].representation) <= second);
        assert(byte_len(table[b].representation) <= first);
        assert forall|variant: int| is_longest_variant(table, variant) implies byte_len(
            table[variant].representation,
        ) == first by {
            assert(byte_len(table[a].representation) <= byte_len(table[variant].representation));
            assert(byte_len(table[variant].representation) <= first);
        }
    }
}

/// A text that takes more bytes than the greatest length of a table has no
/// exact match in it.
pub proof fn lemma_longer_text_has_no_match(table: Seq<PairView>, len: nat, text: Seq<char>)
    requires
        is_max_len(table, len),
        byte_len(text) > len,
    ensures
        no_exact_match(table, text),
{
    assert forall|other: int| 0 <= other < table.len() implies (#[trigger] table[other])
        .representation != text by {
        assert(byte_len(table[other].representation) <= len);
    }
}

/// Fallback to the name: a declaration without a string literal gets its
/// own name as its representation, and where no other variant has that
/// representation, the name has this variant as its exact match.
pub proof fn lemma_default_name_fallback(decls: Seq<DeclarationView>, variant: int)
    requires
        0 <= variant < decls.len(),
        !(decls[variant].discriminant is Str),
    ensures
        normalized(decls)[variant].representation == decls[variant].name,
        (forall|other: int|
            0 <= other < decls.len() && other != variant ==> representation_of(
                #[trigger] decls[other],
            ) != decls[variant].name) ==> is_exact_match(
            normalized(decls),
            decls[variant].name,
            variant,
        ),
{
    let table = normalized(decls);
    let name = decls[variant].name;
    let name_is_free = forall|other: int|
        0 <= other < decls.len() && other != variant ==> representation_of(#[trigger] decls[other])
            != name;
    if name_is_free {
        assert forall|other: int| 0 <= other < variant implies (#[trigger] table[other])
            .representation != name by {
            assert(table[other].representation == representation_of(decls[other]));
        }
    }
}

/// A string literal is taken as it stands: a declaration with one gets the
/// literal's value as its representation.
pub proof fn lemma_literal_is_representation(decls: Seq<DeclarationView>, variant: int)
    requires
        0 <= variant < decls.len(),
        decls[variant].discriminant is Str,
    ensures
        normalized(decls)[variant].representation == decls[variant].discriminant->Str_0,
{
}

/// Normalizing keeps the number, the order and the names of the variants.
pub proof fn lemma_normalized_keeps_order(decls: Seq<DeclarationView>)
    ensures
        normalized(decls).len() == decls.len(),
        forall|variant: int|
            0 <= variant < decls.len() ==> (#[trigger] normalized(decls)[variant]).name
                == decls[variant].name,
{
}

/// A representation has at least one character, unless the declaration has
/// an empty name or an empty string literal.
pub proof fn lemma_representation_is_not_empty(decl: DeclarationView)
    requires
        decl.name.len() > 0,
        decl.discriminant != DiscriminantView::Str(Seq::<char>::empty()),
    ensures
        representation_of(decl).len() > 0,
{
    if decl.discriminant is Str {
        let value = decl.discriminant->Str_0;
        if value.len() == 0 {
            assert(value =~= Seq::<char>::empty());
        }
    }
}

/// Generating twice gives the same: whatever two runs on one sequence of
/// declarations hand out as the table, as the arms of the prefix match and
/// as the greatest length, they hand out the same.
pub proof fn lemma_generation_is_deterministic(
    decls: Seq<DeclarationView>,
    first_table: Seq<PairView>,
    second_table: Seq<PairView>,
    first_arms: Seq<ArmView>,
    second_arms: Seq<ArmView>,
    first_len: nat,
    second_len: nat,
)
    requires
        first_table == normalized(decls),
        second_table == normalized(decls),
        first_arms == prefix_order(first_table),
        second_arms == prefix_order(second_table),
        is_max_len(first_table, first_len),
        is_max_len(second_table, second_len),
    ensures
        first_table == second_table,
        first_arms == second_arms,
        first_len == second_len,
{
    lemma_max_len_is_unique(first_table, first_len, second_len);
}

} // verus!
