//! Variables of wave forms and generators of transaction streams, taken together.
use crate::text::{int_decimal, push_signed_decimal, chars_of, string_of};
use crate::wave_refs::{TransactionStreamRef, VariableRef};
use vstd::prelude::*;

verus! {

/// A variable of a wave form, or a generator of a transaction stream.
#[derive(Debug, Clone)]
pub enum VariableType {
    Variable(VariableRef),
    Generator(TransactionStreamRef),
}

/// The name of a variable or generator.
pub open spec fn variable_type_name(v: VariableType) -> Seq<char> {
    match v {
        VariableType::Variable(v) => v.name@,
        VariableType::Generator(g) => g.name@,
    }
}

/// The name of a variable followed by its array index in brackets, when it has one.
pub open spec fn variable_type_name_with_index(v: VariableType) -> Seq<char> {
    match v {
        VariableType::Variable(v) => match v.index {
            Some(index) => v.name@ + seq!['['] + int_decimal(index as int) + seq![']'],
            None => v.name@,
        },
        VariableType::Generator(g) => g.name@,
    }
}

impl VariableType {
    /// The name of the variable or generator.
    pub fn name(&self) -> (res: String)
        ensures
            res@ == variable_type_name(*self),
    {
        match self {
            VariableType::Variable(v) => v.name.clone(),
            VariableType::Generator(g) => g.name.clone(),
        }
    }

    /// The name, with the array index of a variable in brackets after it.
    pub fn name_with_index(&self) -> (res: String)
        ensures
            res@ == variable_type_name_with_index(*self),
    {
        match self {
            VariableType::Variable(v) => {
                if let Some(index) = v.index {
                    let mut text = chars_of(v.name.as_str());
                    text.push('[');
                    push_signed_decimal(index, &mut text);
                    text.push(']');
                    string_of(&text)
                } else {
                    v.name.clone()
                }
            },
            VariableType::Generator(g) => g.name.clone(),
        }
    }
}

/// The data that a view shows: wave forms, transaction streams, or nothing yet. The two kinds
/// of container are type parameters: `W` holds wave forms and `T` transaction streams.
pub enum DataContainer<W, T> {
    Waves(W),
    Transactions(T),
    Empty,
}

impl<W, T> DataContainer<W, T> {
    /// A container with no data.
    pub fn __new_empty() -> (res: Self)
        ensures
            res is Empty,
    {
        DataContainer::Empty
    }

    /// The wave forms, when the container holds wave forms.
    pub fn as_waves(&self) -> (res: Option<&W>)
        ensures
            match self {
                DataContainer::Waves(w) => res == Some(w),
                _ => res is None,
            },
    {
        match self {
            DataContainer::Waves(w) => Some(w),
            DataContainer::Transactions(_) => None,
            DataContainer::Empty => None,
        }
    }

    /// The transaction streams, when the container holds transaction streams.
    pub fn as_transactions(&self) -> (res: Option<&T>)
        ensures
            match self {
                DataContainer::Transactions(t) => res == Some(t),
                _ => res is None,
            },
    {
        match self {
            DataContainer::Waves(_) => None,
            DataContainer::Transactions(t) => Some(t),
            DataContainer::Empty => None,
        }
    }

    /// The wave forms, to change in place, when the container holds wave forms.
    pub fn as_waves_mut(&mut self) -> (res: Option<&mut W>)
        ensures
            match *old(self) {
                DataContainer::Waves(w) => res matches Some(r) && *r == w && *final(self)
                    == DataContainer::<W, T>::Waves(*final(r)),
                _ => res is None && *final(self) == *old(self),
            },
    {
        match self {
            DataContainer::Waves(w) => Some(w),
            DataContainer::Transactions(_) => None,
            DataContainer::Empty => None,
        }
    }

    /// The transaction streams, to change in place, when the container holds transaction
    /// streams.
    pub fn as_transactions_mut(&mut self) -> (res: Option<&mut T>)
        ensures
            match *old(self) {
                DataContainer::Transactions(t) => res matches Some(r) && *r == t && *final(self)
                    == DataContainer::<W, T>::Transactions(*final(r)),
                _ => res is None && *final(self) == *old(self),
            },
    {
        match self {
            DataContainer::Waves(_) => None,
            DataContainer::Transactions(t) => Some(t),
            DataContainer::Empty => None,
        }
    }

    /// Whether the container holds wave forms.
    pub fn is_waves(&self) -> (res: bool)
        ensures
            res == self is Waves,
    {
        match self {
            DataContainer::Waves(_) => true,
            DataContainer::Transactions(_) => false,
            DataContainer::Empty => false,
        }
    }

    /// Whether the container holds transaction streams.
    pub fn is_transactions(&self) -> (res: bool)
        ensures
            res == self is Transactions,
    {
        match self {
            DataContainer::Waves(_) => false,
            DataContainer::Transactions(_) => true,
            DataContainer::Empty => false,
        }
    }
}

} // verus!
