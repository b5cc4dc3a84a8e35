//! The mapping table of an enumeration and the conversions it gives.
//!
//! A variant is known by its position in the order of declaration.

use vstd::prelude::*;
use crate::declaration::{
    declaration_views, normalize, normalized, pair_views, NormalizedPair, PairView,
    VariantDeclaration,
};
use crate::text::{byte_len, byte_length, same_text, strip_prefix};

verus! {

/// The outcome of an exact match that found no variant.
#[derive(Debug, Clone, Copy, PartialEq, Eq)]
pub struct NoSuchVariant;

/// One arm of the prefix match: a variant, its name, its representation
/// and the number of bytes that the representation takes from an input.
#[derive(Debug, Clone, PartialEq, Eq)]
pub struct PrefixArm {
    pub variant: usize,
    pub name: String,
    pub representation: String,
    pub len: usize,
}

/// The mathematical value of a [`PrefixArm`].
pub struct ArmView {
    pub variant: int,
    pub name: Seq<char>,
    pub representation: Seq<char>,
    pub len: nat,
}

impl View for PrefixArm {
    type V = ArmView;

    open spec fn view(&self) -> ArmView {
        ArmView {
            variant: self.variant as int,
            name: self.name@,
            representation: self.representation@,
            len: self.len as nat,
        }
    }
}

/// The values of a sequence of arms, in order.
pub open spec fn arm_views(arms: Seq<PrefixArm>) -> Seq<ArmView> {
    Seq::new(arms.len(), |i: int| arms[i]@)
}

/// `variant` is one of the variants of `table`.
pub open spec fn is_variant(table: Seq<PairView>, variant: int) -> bool {
    0 <= variant < table.len()
}

/// `variant` is the earliest variant of `table` whose representation is `text`.
pub open spec fn is_exact_match(table: Seq<PairView>, text: Seq<char>, variant: int) -> bool {
    &&& is_variant(table, variant)
    &&& table[variant].representation == text
    &&& forall|other: int| 0 <= other < variant ==> (#[trigger] table[other]).representation != text
}

/// No variant of `table` has the representation `text`.
pub open spec fn no_exact_match(table: Seq<PairView>, text: Seq<char>) -> bool {
    forall|other: int| 0 <= other < table.len() ==> (#[trigger] table[other]).representation != text
}

/// `variant` is the latest variant of `table` whose representation begins `input`.
pub open spec fn is_prefix_match(table: Seq<PairView>, input: Seq<char>, variant: int) -> bool {
    &&& is_variant(table, variant)
    &&& table[variant].representation.is_prefix_of(input)
    &&& forall|other: int|
        variant < other < table.len() ==> !(#[trigger] table[other]).representation.is_prefix_of(
            input,
        )
}

/// No variant of `table` has a representation that begins `input`.
pub open spec fn no_prefix_match(table: Seq<PairView>, input: Seq<char>) -> bool {
    forall|other: int|
        0 <= other < table.len() ==> !(#[trigger] table[other]).representation.is_prefix_of(input)
}

/// `variant` is the earliest of the variants of `table` whose
/// representation takes the most bytes.
pub open spec fn is_longest_variant(table: Seq<PairView>, variant: int) -> bool {
    &&& is_variant(table, variant)
    &&& forall|other: int|
        0 <= other < table.len() ==> byte_len((#[trigger] table[other]).representation)
            <= byte_len(table[variant].representation)
    &&& forall|other: int|
        0 <= other < variant ==> byte_len((#[trigger] table[other]).representation) < byte_len(
            table[variant].representation,
        )
}

/// `len` is the greatest number of bytes that a representation of `table`
/// takes, and 0 where `table` has no variant.
pub open spec fn is_max_len(table: Seq<PairView>, len: nat) -> bool {
    &&& forall|other: int|
        0 <= other < table.len() ==> byte_len((#[trigger] table[other]).representation) <= len
    &&& table.len() == 0 ==> len == 0
    &&& table.len() > 0 ==> exists|variant: int|
        0 <= variant < table.len() && byte_len((#[trigger] table[variant]).representation) == len
}

/// The arm that stands at `position` in the prefix match of `table`: the
/// arms run from the variant declared last to the one declared first.
pub open spec fn prefix_arm(table: Seq<PairView>, position: int) -> ArmView {
    let variant: int = table.len() - 1 - position;
    ArmView {
        variant,
        name: table[variant].name,
        representation: table[variant].representation,
        len: byte_len(table[variant].representation),
    }
}

/// The arms of the prefix match of `table`, in the order in which they are tried.
pub open spec fn prefix_order(table: Seq<PairView>) -> Seq<ArmView> {
    Seq::new(table.len(), |position: int| prefix_arm(table, position))
}

/// The pairs of one enumeration, in the order of declaration.
#[derive(Debug, Clone, PartialEq, Eq)]
pub struct MappingTable {
    pairs: Vec<NormalizedPair>,
}

impl View for MappingTable {
    type V = Seq<PairView>;

    closed spec fn view(&self) -> Seq<PairView> {
        pair_views(self.pairs@)
    }
}

impl MappingTable {
    /// The table of the given pairs.
    pub fn new(pairs: Vec<NormalizedPair>) -> (table: MappingTable)
        ensures
            table@ == pair_views(pairs@),
    {
        MappingTable { pairs }
    }

    /// The table that the given declarations normalize to.
    pub fn from_declarations(decls: &Vec<VariantDeclaration>) -> (table: MappingTable)
        ensures
            table@ == normalized(declaration_views(decls@)),
    {
        MappingTable { pairs: normalize(decls) }
    }

    /// The pairs of the table, in the order of declaration.
    pub fn pairs(&self) -> (pairs: &Vec<NormalizedPair>)
        ensures
            pair_views(pairs@) == self@,
    {
        &self.pairs
    }

    /// The number of variants.
    pub fn variant_count(&self) -> (count: usize)
        ensures
            count == self@.len(),
    {
        self.pairs.len()
    }

    /// The representation of a variant.
    pub fn to_string(&self, variant: usize) -> (text: String)
        requires
            is_variant(self@, variant as int),
        ensures
            text@ == self@[variant as int].representation,
    {
        self.pairs[variant].representation.clone()
    }

    /// The number of bytes that the representation of a variant takes.
    pub fn str_len(&self, variant: usize) -> (len: usize)
        requires
            is_variant(self@, variant as int),
        ensures
            len == byte_len(self@[variant as int].representation),
    {
        byte_length(self.pairs[variant].representation.as_str())
    }

    /// The variant whose representation is `text`: the earliest one where
    /// several have it, and an error where none has.
    pub fn from_str(&self, text: &str) -> (found: Result<usize, NoSuchVariant>)
        ensures
            match found {
                Ok(variant) => is_exact_match(self@, text@, variant as int),
                Err(_) => no_exact_match(self@, text@),
            },
    {
        let mut i: usize = 0;
        while i < self.pairs.len()
            invariant
                i <= self.pairs.len(),
                forall|other: int|
                    0 <= other < i ==> (#[trigger] self@[other]).representation != text@,
            decreases self.pairs.len() - i,
        {
            if same_text(self.pairs[i].representation.as_str(), text) {
                return Ok(i);
            }
            i += 1;
        }
        Err(NoSuchVariant)
    }

    /// Matches the front of `input`: the latest variant whose representation
    /// begins `input`, with what follows the representation in `input`, and
    /// `None` where no representation begins it.
    pub fn combinator<'a>(&self, input: &'a str) -> (found: Option<(&'a str, usize)>)
        ensures
            match found {
                Some((rest, variant)) => {
                    &&& is_prefix_match(self@, input@, variant as int)
                    &&& rest@ == input@.skip(self@[variant as int].representation.len() as int)
                },
                None => no_prefix_match(self@, input@),
            },
    {
        let mut i: usize = self.pairs.len();
        while i > 0
            invariant
                i <= self.pairs.len(),
                forall|other: int|
                    i <= other < self@.len() ==> !(#[trigger] self@[other])
                        .representation.is_prefix_of(input@),
            decreases i,
        {
            i -= 1;
            match strip_prefix(input, self.pairs[i].representation.as_str()) {
                Some(rest) => {
                    return Some((rest, i));
                },
                None => {},
            }
        }
        None
    }

    /// The earliest of the variants whose representation takes the most
    /// bytes, and `None` where the table has no variant.
    pub fn longest_variant(&self) -> (found: Option<usize>)
        ensures
            match found {
                Some(variant) => is_longest_variant(self@, variant as int),
                None => self@.len() == 0,
            },
    {
        if self.pairs.len() == 0 {
            return None;
        }
        let mut best: usize = 0;
        let mut best_len: usize = byte_length(self.pairs[0].representation.as_str());
        let mut i: usize = 1;
        while i < self.pairs.len()
            invariant
                1 <= i <= self.pairs.len(),
                best < i,
                best_len == byte_len(self@[best as int].representation),
                forall|other: int|
                    0 <= other < i ==> byte_len((#[trigger] self@[other]).representation)
                        <= best_len,
                forall|other: int|
                    0 <= other < best ==> byte_len((#[trigger] self@[other]).representation)
                        < best_len,
            decreases self.pairs.len() - i,
        {
            let len: usize = byte_length(self.pairs[i].representation.as_str());
            if len > best_len {
                best = i;
                best_len = len;
            }
            i += 1;
        }
        Some(best)
    }

    /// The greatest number of bytes that a representation takes, and 0
    /// where the table has no variant. No longer text matches exactly.
    pub fn max_variant_len(&self) -> (len: usize)
        ensures
            is_max_len(self@, len as nat),
    {
        match self.longest_variant() {
            Some(variant) => self.str_len(variant),
            None => 0,
        }
    }

    /// The arms of the prefix match, in the order in which they are tried:
    /// from the variant declared last to the one declared first.
    pub fn prefix_arms(&self) -> (arms: Vec<PrefixArm>)
        ensures
            arm_views(arms@) == prefix_order(self@),
    {
        let mut arms: Vec<PrefixArm> = Vec::new();
        let count: usize = self.pairs.len();
        let mut i: usize = count;
        while i > 0
            invariant
                i <= count,
                count == self.pairs.len(),
                arms.len() == count - i,
                forall|position: int|
                    0 <= position < arms.len() ==> (#[trigger] arms[position])@ == prefix_arm(
                        self@,
                        position,
                    ),
            decreases i,
        {
            i -= 1;
            let pair = &self.pairs[i];
            arms.push(
                PrefixArm {
                    variant: i,
                    name: pair.name.clone(),
                    representation: pair.representation.clone(),
                    len: byte_length(pair.representation.as_str()),
                },
            );
        }
        assert(arm_views(arms@) =~= prefix_order(self@));
        arms
    }
}

} // verus!
