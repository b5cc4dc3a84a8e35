//! Reading the variants of a parsed enumeration.

use vstd::prelude::*;
use crate::declaration::{
    declaration_views, normalize, normalized, pair_views, stripped, stripped_declaration,
    DeclarationView, Discriminant, NormalizedPair, VariantDeclaration,
};

verus! {

/// `syn::ItemEnum`, a parsed `enum` item. Nothing inside it is visible to
/// the proofs: they know it by [`declared_variants`] alone.
#[verifier::external_type_specification]
#[verifier::external_body]
pub struct ExItemEnum(syn::ItemEnum);

/// The variants that an enumeration declares, in the order of declaration,
/// each as far as the table depends on it: the text of its identifier, and
/// its discriminant, which is `Absent` where the variant has none, `Str`
/// with the literal's value where it is a string literal, and `Other` for
/// every other expression.
pub uninterp spec fn declared_variants(item: syn::ItemEnum) -> Seq<DeclarationView>;

/// `Punctuated::len` on the `variants` of a `syn::ItemEnum`. Believed, not
/// proved: it returns the number of variants that the enumeration declares.
#[verifier::external_body]
fn variant_count(item: &syn::ItemEnum) -> (count: usize)
    ensures
        count == declared_variants(*item).len(),
{
    item.variants.len()
}

/// `Punctuated::index` on the `variants` of a `syn::ItemEnum`, with the
/// variant handed out as a declaration: its name is `Ident::to_string` of
/// the identifier, and the value of a discriminant that is a string literal
/// is `LitStr::value`. Believed, not proved: the declaration is the one
/// that stands at `index`, and it is the same whenever it is read. The
/// index has to be in range, since `Punctuated::index` panics beyond it.
#[verifier::external_body]
fn variant_at(item: &syn::ItemEnum, index: usize) -> (decl: VariantDeclaration)
    requires
        index < declared_variants(*item).len(),
    ensures
        decl@ == declared_variants(*item)[index as int],
{
    let variant = &item.variants[index];
    let discriminant = match &variant.discriminant {
        None => Discriminant::Absent,
        Some((_, syn::Expr::Lit(syn::ExprLit { lit: syn::Lit::Str(literal), .. }))) => {
            Discriminant::Str(literal.value())
        },
        Some(_) => Discriminant::Other,
    };
    VariantDeclaration { name: variant.ident.to_string(), discriminant }
}

/// `Punctuated::index_mut` on the `variants` of a `syn::ItemEnum`, to set
/// the `discriminant` of one variant to `None`. Believed, not proved: this
/// variant keeps its name and has no discriminant afterwards, and every
/// other variant stays as it was. The index has to be in range, since
/// `Punctuated::index_mut` panics beyond it.
#[verifier::external_body]
fn clear_discriminant(item: &mut syn::ItemEnum, index: usize)
    requires
        index < declared_variants(*old(item)).len(),
    ensures
        declared_variants(*final(item)) == declared_variants(*old(item)).update(
            index as int,
            stripped_declaration(declared_variants(*old(item))[index as int]),
        ),
{
    item.variants[index].discriminant = None;
}

/// Reads the variants of an enumeration as pairs of a name and a
/// representation, and takes every discriminant out of the enumeration, so
/// that what is left is a plain enumeration. A discriminant that is no
/// string literal is taken out like the others, and its variant is
/// represented by its name.
pub fn preprocess_string_enum(item_enum: &mut syn::ItemEnum) -> (pairs: Vec<NormalizedPair>)
    ensures
        pairs@.len() == declared_variants(*old(item_enum)).len(),
        pair_views(pairs@) == normalized(declared_variants(*old(item_enum))),
        declared_variants(*final(item_enum)) == stripped(declared_variants(*old(item_enum))),
{
    let count: usize = variant_count(item_enum);
    let ghost before = declared_variants(*item_enum);
    let mut decls: Vec<VariantDeclaration> = Vec::new();
    let mut i: usize = 0;
    while i < count
        invariant
            i <= count,
            count == before.len(),
            decls.len() == i,
            declared_variants(*item_enum).len() == count,
            forall|k: int| 0 <= k < i ==> #[trigger] decls[k]@ == before[k],
            forall|k: int|
                0 <= k < i ==> #[trigger] declared_variants(*item_enum)[k]
                    == stripped_declaration(before[k]),
            forall|k: int|
                i <= k < count ==> #[trigger] declared_variants(*item_enum)[k] == before[k],
        decreases count - i,
    {
        decls.push(variant_at(item_enum, i));
        clear_discriminant(item_enum, i);
        i += 1;
    }
    assert(declaration_views(decls@) =~= before);
    assert(declared_variants(*item_enum) =~= stripped(before));
    normalize(&decls)
}

} // verus!
