//! The names under which `#[protocol_type]` generates its items. For a type
//! `Name` it generates `Name` (the wire form), `NameRx` (the form a received
//! value takes) and `NameTx` (the form a value is given in to be sent, generic
//! in each field or variant); for an enum also one alias `NameTx<Variant>`
//! per variant, which fixes every other variant to `Infallible`.
use vstd::prelude::*;
use vstd::string::StringExecFns;
use convert_case::{Case, Casing};
use crate::macro_input;

verus! {

/// What convert_case gives for `name` read as snake case and written in
/// upper camel case.
pub uninterp spec fn upper_camel_of_snake(name: Seq<char>) -> Seq<char>;

/// convert_case's `name.from_case(Case::Snake).to_case(Case::UpperCamel)`.
/// The result is claimed to depend on `name` alone.
#[verifier::external_body]
fn snake_to_upper_camel(name: &str) -> (r: String)
    ensures
        r@ == upper_camel_of_snake(name@),
{
    name.from_case(Case::Snake).to_case(Case::UpperCamel)
}

pub open spec fn rx_suffix() -> Seq<char> {
    seq!['R', 'x']
}

pub open spec fn tx_suffix() -> Seq<char> {
    seq!['T', 'x']
}

pub struct Structure<Ty> {
    pub name: String,
    pub rx_name: String,
    pub tx_name: String,
    pub members: Vec<(String, Ty)>,
}

pub struct Enum<Ty> {
    pub name: String,
    pub rx_name: String,
    pub tx_name: String,
    pub variants: Vec<(String, Ty)>,
}

pub enum Type<Ty> {
    Structure(Structure<Ty>),
    Enum(Enum<Ty>),
}

/// `name` followed by `Rx` and by `Tx`.
fn derived_names(name: &String) -> (r: (String, String))
    ensures
        r.0@ == name@ + rx_suffix(),
        r.1@ == name@ + tx_suffix(),
{
    let rx = name.clone().concat("Rx");
    let tx = name.clone().concat("Tx");
    proof {
        reveal_strlit("Rx");
        reveal_strlit("Tx");
        assert("Rx"@ =~= rx_suffix());
        assert("Tx"@ =~= tx_suffix());
    }
    (rx, tx)
}

impl<Ty> Structure<Ty> {
    pub fn from_input(value: macro_input::Structure<Ty>) -> (r: Self)
        ensures
            r.name == value.name,
            r.rx_name@ == value.name@ + rx_suffix(),
            r.tx_name@ == value.name@ + tx_suffix(),
            r.members == value.members,
    {
        let (rx_name, tx_name) = derived_names(&value.name);
        Structure { name: value.name, rx_name, tx_name, members: value.members }
    }

    /// The type parameters of the generated `NameTx`: each member's name in
    /// upper camel case.
    pub fn sent_type_params(&self) -> (r: Vec<String>)
        ensures
            r@.len() == self.members@.len(),
            forall|i: int|
                0 <= i < r@.len() ==> #[trigger] r@[i]@ == upper_camel_of_snake(
                    self.members@[i].0@,
                ),
    {
        let mut r: Vec<String> = Vec::new();
        let mut i: usize = 0;
        while i < self.members.len()
            invariant
                i <= self.members@.len(),
                r@.len() == i,
                forall|k: int|
                    0 <= k < i ==> #[trigger] r@[k]@ == upper_camel_of_snake(
                        self.members@[k].0@,
                    ),
            decreases self.members.len() - i,
        {
            r.push(snake_to_upper_camel(self.members[i].0.as_str()));
            i = i + 1;
        }
        r
    }
}

/// One argument of a per-variant alias of `NameTx`: the alias's own type
/// parameter, or `Infallible`.
#[derive(PartialEq, Eq, Structural, Debug)]
pub enum AliasArg {
    Parameter,
    Infallible,
}

impl<Ty> Enum<Ty> {
    pub fn from_input(value: macro_input::Enum<Ty>) -> (r: Self)
        ensures
            r.name == value.name,
            r.rx_name@ == value.name@ + rx_suffix(),
            r.tx_name@ == value.name@ + tx_suffix(),
            r.variants == value.variants,
    {
        let (rx_name, tx_name) = derived_names(&value.name);
        Enum { name: value.name, rx_name, tx_name, variants: value.variants }
    }

    /// The alias generated for the variant at `index`: its name (`NameTx`
    /// followed by the variant's name, whose name is also the alias's type
    /// parameter), and the arguments it gives `NameTx`: its parameter at
    /// `index`, `Infallible` everywhere else.
    pub fn sent_alias(&self, index: usize) -> (r: (String, Vec<AliasArg>))
        requires
            index < self.variants@.len(),
        ensures
            r.0@ == self.tx_name@ + self.variants@[index as int].0@,
            r.1@.len() == self.variants@.len(),
            forall|k: int|
                0 <= k < r.1@.len() ==> #[trigger] r.1@[k] == (if k == index {
                    AliasArg::Parameter
                } else {
                    AliasArg::Infallible
                }),
    {
        let name = self.tx_name.clone().concat(self.variants[index].0.as_str());
        let mut args: Vec<AliasArg> = Vec::new();
        let mut k: usize = 0;
        while k < self.variants.len()
            invariant
                k <= self.variants@.len(),
                index < self.variants@.len(),
                args@.len() == k,
                forall|j: int|
                    0 <= j < k ==> #[trigger] args@[j] == (if j == index {
                        AliasArg::Parameter
                    } else {
                        AliasArg::Infallible
                    }),
            decreases self.variants.len() - k,
        {
            if k == index {
                args.push(AliasArg::Parameter);
            } else {
                args.push(AliasArg::Infallible);
            }
            k = k + 1;
        }
        (name, args)
    }
}

impl<Ty> Type<Ty> {
    pub fn from_input(value: macro_input::Type<Ty>) -> (r: Self)
        ensures
            match (value, r) {
                (macro_input::Type::Structure(s), Type::Structure(t)) => {
                    &&& t.name == s.name
                    &&& t.rx_name@ == s.name@ + rx_suffix()
                    &&& t.tx_name@ == s.name@ + tx_suffix()
                    &&& t.members == s.members
                },
                (macro_input::Type::Enum(e), Type::Enum(t)) => {
                    &&& t.name == e.name
                    &&& t.rx_name@ == e.name@ + rx_suffix()
                    &&& t.tx_name@ == e.name@ + tx_suffix()
                    &&& t.variants == e.variants
                },
                _ => false,
            },
    {
        match value {
            macro_input::Type::Structure(structure) => Type::Structure(
                Structure::from_input(structure),
            ),
            macro_input::Type::Enum(enumeration) => Type::Enum(Enum::from_input(enumeration)),
        }
    }
}

} // verus!
