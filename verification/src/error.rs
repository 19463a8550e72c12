//! Error types of the engine.

use vstd::prelude::*;
use vstd::string::*;

verus! {

/// Engine error: a reason and two optional slots, one for the object the error
/// was generated for and one for a longer description. Every field is public,
/// so that a caller's proof can speak of the fields it reads.
#[derive(Debug, Clone)]
pub struct W3DError {
    pub reason: &'static str,
    pub source: Option<String>,
    pub description: Option<String>,
}

/// Text that introduces the source slot in a rendered message.
pub const SOURCE_LABEL: &'static str = ", Generated for : ";

/// Text that introduces the description slot in a rendered message.
pub const DESCRIPTION_LABEL: &'static str = ", Description : ";

/// Failures the engine reports without a message of their own.
#[derive(Debug, Clone, PartialEq, Eq)]
pub enum Error {
    /// An asset byte stream could not be read.
    ParseFailure,
    /// A shader did not compile.
    CompileFailure,
    /// A program did not link.
    LinkFailure,
    /// A material instance names a parent material that is not registered:
    /// the id of the instance that was refused, and the id of the parent it names.
    MissingParent { instance: String, parent: String },
    /// A texture uniform was uploaded before a texture unit was assigned to it.
    MissingTextureUnit,
    /// A value was used before its graphics object was created.
    UnconstructedValue,
    /// A buffer was constructed without data.
    MissingData,
    /// A world matrix was read while its transform was dirty.
    StaleTransform,
    /// An id names nothing that is alive or registered.
    MissingReference,
    /// A uniform was uploaded before its location in the program was resolved.
    UnresolvedLocation,
}

impl W3DError {
    /// The reason this error was built with.
    pub open spec fn reason_view(&self) -> Seq<char> {
        self.reason@
    }

    /// The object the error was generated for, if one was given.
    pub open spec fn source_view(&self) -> Option<String> {
        self.source
    }

    /// The longer description, if one was given.
    pub open spec fn description_view(&self) -> Option<String> {
        self.description
    }

    /// The rendered message: the reason, then each slot that is filled, behind its label.
    pub open spec fn message_view(&self) -> Seq<char> {
        self.reason_view() + (match self.source_view() {
            Some(s) => SOURCE_LABEL@ + s@,
            None => Seq::<char>::empty(),
        }) + (match self.description_view() {
            Some(d) => DESCRIPTION_LABEL@ + d@,
            None => Seq::<char>::empty(),
        })
    }

    pub fn new(reason: &'static str, source: Option<String>) -> (e: W3DError)
        ensures
            e.reason_view() == reason@,
            e.source_view() == source,
            e.description_view().is_none(),
    {
        W3DError { reason, source, description: None }
    }

    pub fn new_with_desc(
        reason: &'static str,
        source: Option<String>,
        description: Option<String>,
    ) -> (e: W3DError)
        ensures
            e.reason_view() == reason@,
            e.source_view() == source,
            e.description_view() == description,
    {
        W3DError { reason, source, description }
    }

    /// The reason as text.
    pub fn get_reason(&self) -> (r: &'static str)
        ensures
            r@ == self.reason_view(),
    {
        self.reason
    }

    /// Renders the error as one line of text.
    pub fn message(&self) -> (text: String)
        ensures
            text@ == self.message_view(),
    {
        let mut text = String::from_str(self.reason);
        match &self.source {
            Some(source) => {
                text.append(SOURCE_LABEL);
                text.append(source.as_str());
            },
            None => {},
        }
        match &self.description {
            Some(desc) => {
                text.append(DESCRIPTION_LABEL);
                text.append(desc.as_str());
            },
            None => {},
        }
        assert(text@ =~= self.message_view());
        text
    }
}

} // verus!
