//! A document together with the text that it was read from.

use super::parser::{parse, parse_spec, ParseError};
use super::{Value, ValueView};
use vstd::prelude::*;

verus! {

/// A document and its source text. The document is the tree of the text as
/// it was read; it may be changed afterwards, the text is kept as it is.
pub struct ContainedValue {
    source: String,
    value: Value,
}

impl View for ContainedValue {
    type V = ValueView;

    /// The tree of the document.
    closed spec fn view(&self) -> ValueView {
        self.value@
    }
}

impl ContainedValue {
    /// The text that the document was read from.
    pub closed spec fn source_text(&self) -> Seq<char> {
        self.source@
    }

    /// The document.
    pub closed spec fn value(&self) -> Value {
        self.value
    }

    /// Reads `source` and keeps it beside the document.
    pub fn parse(source: String) -> (r: Result<Self, ParseError>)
        ensures
            match parse_spec(source@) {
                Ok(tree) => r is Ok && r->Ok_0@ == tree && r->Ok_0.source_text() == source@,
                Err(e) => r is Err && r->Err_0@ == e,
            },
    {
        match parse(source.as_str()) {
            Ok(value) => Ok(Self { source, value }),
            Err(e) => Err(e),
        }
    }

    /// The text that the document was read from.
    pub fn source(&self) -> (r: &str)
        ensures
            r@ == self.source_text(),
    {
        self.source.as_str()
    }

    /// The document.
    pub fn get(&self) -> (r: &Value)
        ensures
            *r == self.value(),
            r@ == self@,
    {
        &self.value
    }

    /// The document, to be changed in place.
    pub fn get_mut(&mut self) -> (r: &mut Value)
        ensures
            *r == old(self).value(),
            final(self).value() == *final(r),
            final(self).source_text() == old(self).source_text(),
    {
        &mut self.value
    }
}

} // verus!
