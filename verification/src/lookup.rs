use vstd::prelude::*;
use vstd::utf8::{decode_utf8, valid_utf8};

use crate::error::Error;

verus! {

/// Where a lookup stands in its conversation with the secret store.
/// The conversation is strictly linear: connect, fetch the default
/// collection, search it, decrypt the first match.
pub enum LookupState {
    /// Waiting for the connection to the store.
    Connecting,
    /// Connected; waiting for the store's default collection.
    FetchingCollection,
    /// Holding the collection; waiting for the search results.
    Searching,
    /// At least one item matched; waiting for its decrypted secret bytes.
    Decrypting,
    /// The secret was retrieved and decoded: this is its text.
    Done(String),
    /// The lookup failed; no later event revives it.
    Failed(Error),
}

/// The outcome of the one store call that the current state waits for,
/// as the outside world reports it back to the lookup.
pub enum LookupEvent {
    /// The connection to the store was established.
    Connected,
    /// The connection could not be established.
    ConnectFailed,
    /// The store handed out its default collection.
    GotCollection,
    /// The default collection could not be fetched.
    CollectionFailed,
    /// The search finished and matched this many items.
    SearchResults(usize),
    /// The search call itself failed.
    SearchFailed,
    /// The first matching item's secret was decrypted to these bytes.
    SecretBytes(Vec<u8>),
    /// The matched item's secret could not be retrieved.
    RetrieveFailed,
}

/// The transition relation of a lookup: `post` is a state that `step`
/// may reach from `pre` on `event`.  An event that `pre` is not waiting
/// for changes nothing, and `Done` and `Failed` are terminal.
pub open spec fn lookup_step(pre: LookupState, event: LookupEvent, post: LookupState) -> bool {
    match (pre, event) {
        (LookupState::Connecting, LookupEvent::Connected) => post
            == LookupState::FetchingCollection,
        (LookupState::Connecting, LookupEvent::ConnectFailed) => post == LookupState::Failed(
            Error::Connect,
        ),
        (LookupState::FetchingCollection, LookupEvent::GotCollection) => post
            == LookupState::Searching,
        (LookupState::FetchingCollection, LookupEvent::CollectionFailed) => post
            == LookupState::Failed(Error::Collection),
        (LookupState::Searching, LookupEvent::SearchResults(n)) => if n == 0 {
            post == LookupState::Failed(Error::NotFound)
        } else {
            post == LookupState::Decrypting
        },
        (LookupState::Searching, LookupEvent::SearchFailed) => post == LookupState::Failed(
            Error::Search,
        ),
        (LookupState::Decrypting, LookupEvent::SecretBytes(bytes)) => if valid_utf8(bytes@) {
            post matches LookupState::Done(text) && text@ == decode_utf8(bytes@)
        } else {
            post == LookupState::Failed(Error::Decode)
        },
        (LookupState::Decrypting, LookupEvent::RetrieveFailed) => post == LookupState::Failed(
            Error::Retrieve,
        ),
        _ => post == pre,
    }
}

/// Relies on `String::from_utf8`: it returns the decoded string exactly
/// when the bytes are valid UTF-8, and fails otherwise.
#[verifier::external_body]
fn string_from_utf8(bytes: Vec<u8>) -> (r: Option<String>)
    ensures
        r is Some <==> valid_utf8(bytes@),
        r matches Some(text) ==> text@ == decode_utf8(bytes@),
{
    String::from_utf8(bytes).ok()
}

/// Decode a secret's bytes as UTF-8 text; bytes that are not valid
/// UTF-8 are rejected with the decode error.
pub fn decode_secret(bytes: Vec<u8>) -> (r: Result<String, Error>)
    ensures
        r is Ok <==> valid_utf8(bytes@),
        r matches Ok(text) ==> text@ == decode_utf8(bytes@),
        r is Err ==> r->Err_0 == Error::Decode,
{
    match string_from_utf8(bytes) {
        Some(text) => Ok(text),
        None => Err(Error::Decode),
    }
}

/// Advance the lookup by one event.
pub fn step(state: LookupState, event: LookupEvent) -> (next: LookupState)
    ensures
        lookup_step(state, event, next),
{
    match (state, event) {
        (LookupState::Connecting, LookupEvent::Connected) => LookupState::FetchingCollection,
        (LookupState::Connecting, LookupEvent::ConnectFailed) => LookupState::Failed(
            Error::Connect,
        ),
        (LookupState::FetchingCollection, LookupEvent::GotCollection) => LookupState::Searching,
        (LookupState::FetchingCollection, LookupEvent::CollectionFailed) => LookupState::Failed(
            Error::Collection,
        ),
        (LookupState::Searching, LookupEvent::SearchResults(n)) => if n == 0 {
            LookupState::Failed(Error::NotFound)
        } else {
            LookupState::Decrypting
        },
        (LookupState::Searching, LookupEvent::SearchFailed) => LookupState::Failed(Error::Search),
        (LookupState::Decrypting, LookupEvent::SecretBytes(bytes)) => match decode_secret(bytes) {
            Ok(text) => LookupState::Done(text),
            Err(e) => LookupState::Failed(e),
        },
        (LookupState::Decrypting, LookupEvent::RetrieveFailed) => LookupState::Failed(
            Error::Retrieve,
        ),
        (s, _) => s,
    }
}

/// `post` can be reached from `pre` by stepping through `events` in order.
pub open spec fn runs_to(pre: LookupState, events: Seq<LookupEvent>, post: LookupState) -> bool
    decreases events.len(),
{
    if events.len() == 0 {
        post == pre
    } else {
        exists|mid: LookupState|
            #[trigger] lookup_step(pre, events.first(), mid) && runs_to(
                mid,
                events.drop_first(),
                post,
            )
    }
}

/// A failed lookup is stuck: no sequence of later events moves it out of
/// its failure.
pub proof fn lemma_failed_is_terminal(err: Error, events: Seq<LookupEvent>, post: LookupState)
    requires
        runs_to(LookupState::Failed(err), events, post),
    ensures
        post == LookupState::Failed(err),
    decreases events.len(),
{
    if events.len() > 0 {
        let mid = choose|mid: LookupState|
            #[trigger] lookup_step(LookupState::Failed(err), events.first(), mid) && runs_to(
                mid,
                events.drop_first(),
                post,
            );
        lemma_failed_is_terminal(err, events.drop_first(), post);
    }
}

/// When the store is unreachable or locked, the lookup fails at the
/// connection step, and whatever events follow, it stays in that failure:
/// in particular it never reaches the searching state, so no search is
/// attempted.
pub proof fn lemma_connect_failure_stops_lookup(
    first: LookupState,
    events: Seq<LookupEvent>,
    post: LookupState,
)
    requires
        lookup_step(LookupState::Connecting, LookupEvent::ConnectFailed, first),
        runs_to(first, events, post),
    ensures
        first == LookupState::Failed(Error::Connect),
        post == LookupState::Failed(Error::Connect),
        post !is Searching,
{
    lemma_failed_is_terminal(Error::Connect, events, post);
}

} // verus!
