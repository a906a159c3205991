use vstd::prelude::*;

verus! {

/// The ways a secret lookup can fail, one per stage of the conversation
/// with the secret store.
#[derive(Clone, Copy, Debug, PartialEq, Eq, Structural)]
pub enum Error {
    /// A property entry held no `=` separator, so no key/value pair
    /// could be read from it.
    MissingAssignment,
    /// The connection to the secret store could not be established.
    Connect,
    /// The store's default collection could not be fetched.
    Collection,
    /// The store failed while searching the collection for items.
    Search,
    /// The store failed while handing out the matched item's secret.
    Retrieve,
    /// The secret's bytes were not valid UTF-8 text.
    Decode,
    /// The search succeeded but no stored item matched the attributes.
    NotFound,
}

impl Error {
    /// The text that `message` returns for each failure.
    pub open spec fn spec_message(self) -> Seq<char> {
        match self {
            Error::MissingAssignment => "Missing key/value assignment"@,
            Error::Connect => "Failed to connect to secret service"@,
            Error::Collection => "Failed to get secret service collection"@,
            Error::Search => "Failed to search collection for items"@,
            Error::Retrieve => "Failed to retrieve secret"@,
            Error::Decode => "Failed to parse secret to UTF8"@,
            Error::NotFound => "Could not find matching secret"@,
        }
    }

    /// A human-readable description of the failure.
    pub fn message(&self) -> (r: String)
        ensures
            r@ == self.spec_message(),
    {
        match self {
            Error::MissingAssignment => "Missing key/value assignment".to_owned(),
            Error::Connect => "Failed to connect to secret service".to_owned(),
            Error::Collection => "Failed to get secret service collection".to_owned(),
            Error::Search => "Failed to search collection for items".to_owned(),
            Error::Retrieve => "Failed to retrieve secret".to_owned(),
            Error::Decode => "Failed to parse secret to UTF8".to_owned(),
            Error::NotFound => "Could not find matching secret".to_owned(),
        }
    }
}

} // verus!
