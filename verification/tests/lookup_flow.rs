use secret_lookup::attrs::AttrMap;
use secret_lookup::error::Error;
use secret_lookup::lookup::{decode_secret, step, LookupEvent, LookupState};
use secret_lookup::parse::parse_props;

fn s(text: &str) -> String {
    text.to_owned()
}

#[test]
fn one_matching_item_yields_its_secret_text() {
    // A store holding exactly one item with these attributes...
    let mut item = AttrMap::new();
    item.insert(s("service"), s("foo"));
    item.insert(s("user"), s("bar"));

    // ...queried with the same properties: the item matches the search.
    let query = parse_props(vec![s("service=foo"), s("user=bar")]).unwrap();
    assert!(item.is_match(&query));

    let state = LookupState::Connecting;
    let state = step(state, LookupEvent::Connected);
    let state = step(state, LookupEvent::GotCollection);
    let state = step(state, LookupEvent::SearchResults(1));
    let state = step(state, LookupEvent::SecretBytes(b"hunter2".to_vec()));
    match state {
        LookupState::Done(secret) => assert_eq!(secret, "hunter2"),
        _ => panic!("lookup did not finish"),
    }
}

#[test]
fn zero_results_fail_with_not_found() {
    let state = LookupState::Connecting;
    let state = step(state, LookupEvent::Connected);
    let state = step(state, LookupEvent::GotCollection);
    let state = step(state, LookupEvent::SearchResults(0));
    assert!(matches!(state, LookupState::Failed(Error::NotFound)));
}

#[test]
fn secret_that_is_not_utf8_fails_with_decode_error() {
    let state = step(
        LookupState::Decrypting,
        LookupEvent::SecretBytes(vec![0xff, 0xfe, 0x80]),
    );
    assert!(matches!(state, LookupState::Failed(Error::Decode)));
}

#[test]
fn connect_failure_stops_the_lookup_before_any_search() {
    let state = step(LookupState::Connecting, LookupEvent::ConnectFailed);
    assert!(matches!(state, LookupState::Failed(Error::Connect)));

    // Whatever the store would have answered later, the lookup stays in
    // the connection failure and never reaches the searching state.
    let state = step(state, LookupEvent::GotCollection);
    assert!(matches!(state, LookupState::Failed(Error::Connect)));
    let state = step(state, LookupEvent::SearchResults(4));
    assert!(matches!(state, LookupState::Failed(Error::Connect)));
    let state = step(state, LookupEvent::SecretBytes(b"hunter2".to_vec()));
    assert!(matches!(state, LookupState::Failed(Error::Connect)));
}

#[test]
fn collection_and_search_and_retrieve_failures_are_distinct() {
    let state = step(LookupState::FetchingCollection, LookupEvent::CollectionFailed);
    assert!(matches!(state, LookupState::Failed(Error::Collection)));

    let state = step(LookupState::Searching, LookupEvent::SearchFailed);
    assert!(matches!(state, LookupState::Failed(Error::Search)));

    let state = step(LookupState::Decrypting, LookupEvent::RetrieveFailed);
    assert!(matches!(state, LookupState::Failed(Error::Retrieve)));
}

#[test]
fn mismatched_events_change_nothing() {
    let state = step(LookupState::Connecting, LookupEvent::SearchResults(1));
    assert!(matches!(state, LookupState::Connecting));
    let state = step(LookupState::Searching, LookupEvent::Connected);
    assert!(matches!(state, LookupState::Searching));
}

#[test]
fn decode_secret_decodes_multibyte_text() {
    let text = decode_secret("h\u{e9}llo \u{4e16}\u{754c}".as_bytes().to_vec()).unwrap();
    assert_eq!(text, "h\u{e9}llo \u{4e16}\u{754c}");
}

#[test]
fn decode_secret_rejects_invalid_bytes() {
    let e = decode_secret(vec![0xc3, 0x28]).unwrap_err();
    assert_eq!(e, Error::Decode);
    assert_eq!(e.message(), "Failed to parse secret to UTF8");
}

#[test]
fn error_messages_name_each_failure() {
    assert_eq!(
        Error::Connect.message(),
        "Failed to connect to secret service"
    );
    assert_eq!(
        Error::Collection.message(),
        "Failed to get secret service collection"
    );
    assert_eq!(
        Error::Search.message(),
        "Failed to search collection for items"
    );
    assert_eq!(Error::Retrieve.message(), "Failed to retrieve secret");
    assert_eq!(Error::NotFound.message(), "Could not find matching secret");
}
