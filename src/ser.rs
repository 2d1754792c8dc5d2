//! Options of the serializer.
use vstd::prelude::*;

verus! {

/// Options used to configure a serializer.
#[derive(Debug, Clone, Copy, PartialEq, Eq, Structural)]
pub struct SerializerOptions {
    /// Whether the serializer presents itself as human readable; unset means yes.
    pub human_readable: Option<bool>,
}

/// A builder of serializer options.
#[derive(Debug, Clone, Copy, PartialEq, Eq, Structural)]
pub struct SerializerOptionsBuilder {
    options: SerializerOptions,
}

impl SerializerOptionsBuilder {
    pub closed spec fn spec_options(&self) -> SerializerOptions {
        self.options
    }
}

impl SerializerOptions {
    /// A builder that starts with every option unset.
    pub fn builder() -> (r: SerializerOptionsBuilder)
        ensures
            r.spec_options().human_readable is None,
    {
        SerializerOptionsBuilder { options: SerializerOptions { human_readable: None } }
    }

    /// Whether the serializer presents itself as human readable.
    pub fn is_human_readable(&self) -> (r: bool)
        ensures
            r == (match self.human_readable {
                Some(b) => b,
                None => true,
            }),
    {
        match self.human_readable {
            Some(b) => b,
            None => true,
        }
    }
}

impl SerializerOptionsBuilder {
    /// Sets whether the serializer presents itself as human readable.
    pub fn human_readable(self, value: Option<bool>) -> (r: SerializerOptionsBuilder)
        ensures
            r.spec_options().human_readable == value,
    {
        SerializerOptionsBuilder { options: SerializerOptions { human_readable: value } }
    }

    /// The options built.
    pub fn build(self) -> (r: SerializerOptions)
        ensures
            r == self.spec_options(),
    {
        self.options
    }
}

} // verus!
