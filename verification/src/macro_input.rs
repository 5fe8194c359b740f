//! The shapes of item that `#[protocol_type]` accepts: a struct whose fields
//! are all named, or an enum each of whose variants holds exactly one unnamed
//! field. `Ty` stands for the field types, which are carried through as they
//! are.
use vstd::prelude::*;

verus! {

/// The fields of a struct or of an enum variant, as written.
pub enum Fields<Ty> {
    Named(Vec<(String, Ty)>),
    Unnamed(Vec<Ty>),
    Unit,
}

/// An item, as written.
pub enum Item<Ty> {
    Struct { name: String, fields: Fields<Ty> },
    Enum { name: String, variants: Vec<(String, Fields<Ty>)> },
    Other,
}

pub struct Structure<Ty> {
    pub name: String,
    pub members: Vec<(String, Ty)>,
}

pub struct Enum<Ty> {
    pub name: String,
    pub variants: Vec<(String, Ty)>,
}

pub enum Type<Ty> {
    Structure(Structure<Ty>),
    Enum(Enum<Ty>),
}

/// Why an item was refused; the index is that of the offending variant.
#[derive(PartialEq, Eq, Structural, Debug)]
pub enum ParseError {
    /// "Can only handle named fields."
    NamedFieldsOnly,
    /// "Can only handle a single unnamed field."
    SingleUnnamedFieldOnly(usize),
    /// "Can only handle a unnamed fields."
    UnnamedFieldsOnly(usize),
    /// "Can only handle structs and enums."
    StructOrEnumOnly,
}

/// The variant's fields are exactly one unnamed field.
pub open spec fn single_unnamed<Ty>(fields: Fields<Ty>) -> bool {
    fields matches Fields::Unnamed(v) && v@.len() == 1
}

/// Why a variant with these fields is refused.
pub open spec fn variant_error<Ty>(fields: Fields<Ty>, index: usize) -> ParseError {
    match fields {
        Fields::Unnamed(_) => ParseError::SingleUnnamedFieldOnly(index),
        _ => ParseError::UnnamedFieldsOnly(index),
    }
}

/// The first variant that is refused, if any.
pub open spec fn first_bad_variant<Ty>(variants: Seq<(String, Fields<Ty>)>) -> Option<int> {
    if exists|i: int| 0 <= i < variants.len() && !single_unnamed(#[trigger] variants[i].1) {
        Some(
            choose|i: int|
                0 <= i < variants.len() && !single_unnamed(#[trigger] variants[i].1) && forall|
                    j: int,
                | 0 <= j < i ==> single_unnamed(#[trigger] variants[j].1),
        )
    } else {
        None
    }
}

/// The type of a variant's single unnamed field.
pub open spec fn single_field<Ty>(fields: Fields<Ty>) -> Ty
    recommends
        single_unnamed(fields),
{
    match fields {
        Fields::Unnamed(v) => v@[0],
        _ => arbitrary(),
    }
}

proof fn lemma_first_bad_unique<Ty>(variants: Seq<(String, Fields<Ty>)>, i: int)
    requires
        0 <= i < variants.len(),
        !single_unnamed(variants[i].1),
        forall|j: int| 0 <= j < i ==> single_unnamed(#[trigger] variants[j].1),
    ensures
        first_bad_variant(variants) == Some(i),
{
    let k = choose|k: int|
        0 <= k < variants.len() && !single_unnamed(#[trigger] variants[k].1) && forall|j: int|
            0 <= j < k ==> single_unnamed(#[trigger] variants[j].1);
    if k < i {
        assert(single_unnamed(variants[k].1));
    }
    if i < k {
        assert(single_unnamed(variants[i].1));
    }
}

impl<Ty> Type<Ty> {
    /// Reads an item as a protocol type.
    #[verifier::loop_isolation(false)]
    pub fn parse(item: Item<Ty>) -> (r: Result<Type<Ty>, ParseError>)
        ensures
            match item {
                Item::Struct { name, fields } => match fields {
                    Fields::Named(members) => r == Ok::<Type<Ty>, ParseError>(
                        Type::Structure(Structure { name, members }),
                    ),
                    _ => r == Err::<Type<Ty>, ParseError>(ParseError::NamedFieldsOnly),
                },
                Item::Enum { name, variants } => match first_bad_variant(variants@) {
                    Some(i) => r == Err::<Type<Ty>, ParseError>(
                        variant_error(variants@[i].1, i as usize),
                    ),
                    None => match r {
                        Ok(Type::Enum(e)) => {
                            &&& e.name == name
                            &&& e.variants@.len() == variants@.len()
                            &&& forall|k: int|
                                0 <= k < variants@.len() ==> #[trigger] e.variants@[k] == (
                                    variants@[k].0,
                                    single_field(variants@[k].1),
                                )
                        },
                        _ => false,
                    },
                },
                Item::Other => r == Err::<Type<Ty>, ParseError>(ParseError::StructOrEnumOnly),
            },
    {
        match item {
            Item::Struct { name, fields } => match fields {
                Fields::Named(members) => Ok(Type::Structure(Structure { name, members })),
                _ => Err(ParseError::NamedFieldsOnly),
            },
            Item::Enum { name, variants } => {
                let ghost all = variants@;
                let mut rest = variants;
                let mut parsed: Vec<(String, Ty)> = Vec::new();
                let mut index: usize = 0;
                assert(all.len() == rest.len());
                assert(all.skip(0) =~= all);
                while rest.len() > 0
                    invariant
                        index + rest@.len() == all.len(),
                        all.len() <= usize::MAX,
                        rest@ == all.skip(index as int),
                        parsed@.len() == index,
                        forall|j: int| 0 <= j < index ==> single_unnamed(#[trigger] all[j].1),
                        forall|k: int|
                            0 <= k < index ==> #[trigger] parsed@[k] == (
                                all[k].0,
                                single_field(all[k].1),
                            ),
                    decreases rest.len(),
                {
                    let (variant, fields) = rest.remove(0);
                    assert((variant, fields) == all[index as int]);
                    assert(rest@ =~= all.skip(index + 1));
                    match fields {
                        Fields::Unnamed(mut unnamed) => {
                            if unnamed.len() != 1 {
                                proof {
                                    lemma_first_bad_unique(all, index as int);
                                    assert(variant_error(all[index as int].1, index)
                                        == ParseError::SingleUnnamedFieldOnly(index));
                                }
                                return Err(ParseError::SingleUnnamedFieldOnly(index));
                            }
                            let ty = unnamed.pop().unwrap();
                            parsed.push((variant, ty));
                        },
                        _ => {
                            proof {
                                lemma_first_bad_unique(all, index as int);
                                assert(variant_error(all[index as int].1, index)
                                    == ParseError::UnnamedFieldsOnly(index));
                            }
                            return Err(ParseError::UnnamedFieldsOnly(index));
                        },
                    }
                    index = index + 1;
                }
                assert(first_bad_variant(all) is None);
                Ok(Type::Enum(Enum { name, variants: parsed }))
            },
            Item::Other => Err(ParseError::StructOrEnumOnly),
        }
    }
}

} // verus!
