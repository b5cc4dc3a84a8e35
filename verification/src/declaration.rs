//! Declared variants and the pairs they normalize to.

use vstd::prelude::*;

verus! {

/// What stands behind the `=` of a declared variant.
#[derive(Debug, Clone, PartialEq, Eq)]
pub enum Discriminant {
    /// The variant carries no annotation.
    Absent,
    /// The annotation is a string literal with this value.
    Str(String),
    /// The annotation is some other expression.
    Other,
}

/// The mathematical value of a [`Discriminant`].
pub enum DiscriminantView {
    Absent,
    Str(Seq<char>),
    Other,
}

impl View for Discriminant {
    type V = DiscriminantView;

    open spec fn view(&self) -> DiscriminantView {
        match self {
            Discriminant::Absent => DiscriminantView::Absent,
            Discriminant::Str(s) => DiscriminantView::Str(s@),
            Discriminant::Other => DiscriminantView::Other,
        }
    }
}

/// One variant as its author wrote it: a symbolic name and an optional annotation.
#[derive(Debug, Clone, PartialEq, Eq)]
pub struct VariantDeclaration {
    pub name: String,
    pub discriminant: Discriminant,
}

/// The mathematical value of a [`VariantDeclaration`].
pub struct DeclarationView {
    pub name: Seq<char>,
    pub discriminant: DiscriminantView,
}

impl View for VariantDeclaration {
    type V = DeclarationView;

    open spec fn view(&self) -> DeclarationView {
        DeclarationView { name: self.name@, discriminant: self.discriminant@ }
    }
}

/// A variant's name with the representation that stands for it in every conversion.
#[derive(Debug, Clone, PartialEq, Eq)]
pub struct NormalizedPair {
    pub name: String,
    pub representation: String,
}

/// The mathematical value of a [`NormalizedPair`].
pub struct PairView {
    pub name: Seq<char>,
    pub representation: Seq<char>,
}

impl View for NormalizedPair {
    type V = PairView;

    open spec fn view(&self) -> PairView {
        PairView { name: self.name@, representation: self.representation@ }
    }
}

/// The values of a sequence of declarations, in order.
pub open spec fn declaration_views(decls: Seq<VariantDeclaration>) -> Seq<DeclarationView> {
    Seq::new(decls.len(), |i: int| decls[i]@)
}

/// The values of a sequence of pairs, in order.
pub open spec fn pair_views(pairs: Seq<NormalizedPair>) -> Seq<PairView> {
    Seq::new(pairs.len(), |i: int| pairs[i]@)
}

/// The representation of a declaration: the value of its string literal when
/// it has one, and its own name in every other case.
pub open spec fn representation_of(decl: DeclarationView) -> Seq<char> {
    match decl.discriminant {
        DiscriminantView::Str(value) => value,
        _ => decl.name,
    }
}

/// The pair that a declaration normalizes to.
pub open spec fn normalized_pair(decl: DeclarationView) -> PairView {
    PairView { name: decl.name, representation: representation_of(decl) }
}

/// The table that a sequence of declarations normalizes to: one pair for
/// each declaration, in the order of declaration.
pub open spec fn normalized(decls: Seq<DeclarationView>) -> Seq<PairView> {
    Seq::new(decls.len(), |i: int| normalized_pair(decls[i]))
}

/// A declaration once its annotation is taken away.
pub open spec fn stripped_declaration(decl: DeclarationView) -> DeclarationView {
    DeclarationView { name: decl.name, discriminant: DiscriminantView::Absent }
}

/// A sequence of declarations once every annotation is taken away.
pub open spec fn stripped(decls: Seq<DeclarationView>) -> Seq<DeclarationView> {
    Seq::new(decls.len(), |i: int| stripped_declaration(decls[i]))
}

/// Normalizes one declaration.
pub fn normalize_declaration(decl: &VariantDeclaration) -> (pair: NormalizedPair)
    ensures
        pair@ == normalized_pair(decl@),
{
    let representation = match &decl.discriminant {
        Discriminant::Str(value) => value.clone(),
        _ => decl.name.clone(),
    };
    NormalizedPair { name: decl.name.clone(), representation }
}

/// Normalizes a sequence of declarations. This cannot fail: an annotation
/// that is no string literal counts as no annotation.
pub fn normalize(decls: &Vec<VariantDeclaration>) -> (pairs: Vec<NormalizedPair>)
    ensures
        pairs@.len() == decls@.len(),
        pair_views(pairs@) == normalized(declaration_views(decls@)),
{
    let mut pairs: Vec<NormalizedPair> = Vec::new();
    let mut i: usize = 0;
    while i < decls.len()
        invariant
            i <= decls.len(),
            pairs.len() == i,
            forall|k: int| 0 <= k < i ==> pairs[k]@ == normalized_pair(#[trigger] decls[k]@),
        decreases decls.len() - i,
    {
        pairs.push(normalize_declaration(&decls[i]));
        i += 1;
    }
    assert(pair_views(pairs@) =~= normalized(declaration_views(decls@)));
    pairs
}

} // verus!
