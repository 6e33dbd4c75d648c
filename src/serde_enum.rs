//! A string format for plain enums: a unit variant is written as its name,
//! and a whole non-empty input is read as one variant name.
use vstd::prelude::*;

verus! {

/// Why a value could not be written or read in this format.
#[derive(Clone, Debug, PartialEq, Eq)]
pub enum Error {
    /// A message passed on from the value being written or read.
    Message(String),
    /// The value is not a unit variant of an enum.
    NotEnum,
    /// The input is empty.
    EmptyString,
}

impl Error {
    /// A short description of the error.
    pub fn description(&self) -> (r: String)
        ensures
            self matches Error::Message(m) ==> r@ == m@,
            self is NotEnum ==> r@ == "not an enum"@,
            self is EmptyString ==> r@ == "empty string"@,
    {
        match self {
            Error::Message(m) => m.clone(),
            Error::NotEnum => String::from_str("not an enum"),
            Error::EmptyString => String::from_str("empty string"),
        }
    }
}

/// Reads variant names from a string.
pub struct Deserializer<'de> {
    input: &'de str,
}

impl<'de> Deserializer<'de> {
    /// The input that has not been read yet.
    pub closed spec fn rest(&self) -> Seq<char> {
        self.input@
    }

    /// A reader of `input`.
    pub fn new(input: &'de str) -> (r: Self)
        ensures
            r.rest() == input@,
    {
        Deserializer { input: input }
    }

    /// Takes the whole remaining input as one name, leaving nothing to read;
    /// fails with `EmptyString` when nothing is left.
    pub fn parse_string(&mut self) -> (r: Result<&'de str, Error>)
        ensures
            old(self).rest().len() == 0 ==> (r matches Err(e) && e == Error::EmptyString),
            old(self).rest().len() == 0 ==> final(self).rest() == old(self).rest(),
            old(self).rest().len() > 0 ==> (r matches Ok(s) && s@ == old(self).rest()),
            old(self).rest().len() > 0 ==> final(self).rest().len() == 0,
    {
        if self.input.is_empty() {
            return Err(Error::EmptyString);
        }
        let string = self.input;
        self.input = "";
        proof {
            reveal_strlit("");
        }
        Ok(string)
    }
}

} // verus!
