//! Platform services: where assets come from, and how a failure to read one
//! is reported.

use std::borrow::Cow;
use vstd::prelude::*;
use vstd::std_specs::convert::IntoSpec;

verus! {

/// A source of asset bytes, implemented by each platform.
pub trait AssetSource {
    fn read(&self, path: &str) -> Result<Cow<'_, [u8]>, AssetError>;
}

/// Why an asset could not be read.
#[derive(Debug, Clone, PartialEq, Eq)]
pub struct AssetError {
    message: String,
}

impl AssetError {
    /// The text of the error.
    pub closed spec fn text(&self) -> Seq<char> {
        self.message@
    }

    /// An error whose message is `message.into()`. Where the conversion has
    /// a specification, the message is the converted text.
    pub fn new<M: Into<String>>(message: M) -> (e: Self)
        ensures
            <M as IntoSpec<String>>::obeys_into_spec() ==> e.text() == message.into_spec()@,
    {
        AssetError { message: message.into() }
    }

    /// The text of the error.
    pub fn message(&self) -> (m: &str)
        ensures
            m@ == self.text(),
    {
        self.message.as_str()
    }
}

} // verus!
