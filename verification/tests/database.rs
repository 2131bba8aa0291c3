use protohackers::database::{index_of_equal, insert, query, serve, Malformed, Store, BUFF_SIZE};

#[test]
fn the_first_equal_sign_is_found() {
    assert_eq!(index_of_equal(b"foo=bar", 7), Some(3));
    assert_eq!(index_of_equal(b"foo=bar=baz", 11), Some(3));
    assert_eq!(index_of_equal(b"=foo", 4), Some(0));
    assert_eq!(index_of_equal(b"foo=", 4), Some(3));
}

#[test]
fn without_an_equal_sign_there_is_none() {
    assert_eq!(index_of_equal(b"foo", 3), None);
    assert_eq!(index_of_equal(b"", 0), None);
}

#[test]
fn only_the_first_sz_bytes_are_searched() {
    assert_eq!(index_of_equal(b"foo=bar", 3), None);
    assert_eq!(index_of_equal(b"foo=bar", 4), Some(3));
    assert_eq!(index_of_equal(b"foo=bar", 0), None);
}

#[test]
fn a_new_store_knows_its_version() {
    let store = Store::new();
    assert_eq!(store.get("version"), Some("1.0".to_string()));
    assert_eq!(store.get("other"), None);
    assert_eq!(query("version", &store), b"version=1.0".to_vec());
}

#[test]
fn an_insertion_is_split_at_the_given_position() {
    let mut store = Store::new();
    insert(b"foo=bar", 3, &mut store);
    assert_eq!(store.get("foo"), Some("bar".to_string()));
    insert(b"foo=bar=baz", 3, &mut store);
    assert_eq!(store.get("foo"), Some("bar=baz".to_string()));
    insert(b"foo=", 3, &mut store);
    assert_eq!(store.get("foo"), Some(String::new()));
    insert(b"foo===", 3, &mut store);
    assert_eq!(store.get("foo"), Some("==".to_string()));
    insert(b"=foo", 0, &mut store);
    assert_eq!(store.get(""), Some("foo".to_string()));
}

#[test]
fn a_later_insertion_overrides_an_earlier_one() {
    let mut store = Store::new();
    insert(b"k=1", 1, &mut store);
    insert(b"j=x", 1, &mut store);
    insert(b"k=2", 1, &mut store);
    assert_eq!(store.get("k"), Some("2".to_string()));
    assert_eq!(store.get("j"), Some("x".to_string()));
}

#[test]
fn the_version_cannot_be_changed() {
    let mut store = Store::new();
    insert(b"version=2.0", 7, &mut store);
    assert_eq!(store.get("version"), Some("1.0".to_string()));
    assert_eq!(serve(&mut store, b"version=hacked"), Ok(None));
    assert_eq!(serve(&mut store, b"version"), Ok(Some(b"version=1.0".to_vec())));
}

#[test]
fn a_query_is_answered_with_key_and_value() {
    let mut store = Store::new();
    insert(b"foo=bar", 3, &mut store);
    assert_eq!(query("foo", &store), b"foo=bar".to_vec());
}

#[test]
fn an_unknown_key_has_the_empty_value() {
    let store = Store::new();
    assert_eq!(query("nothing", &store), b"nothing=".to_vec());
    assert_eq!(query("", &store), b"=".to_vec());
}

#[test]
fn a_long_answer_is_cut_to_a_datagram() {
    let mut store = Store::new();
    let value = "v".repeat(990);
    let mut datagram = b"key=".to_vec();
    datagram.extend(value.as_bytes());
    insert(&datagram, 3, &mut store);
    assert_eq!(query("key", &store), datagram);
    let long_key = "k".repeat(600);
    let mut datagram = long_key.clone().into_bytes();
    datagram.push(b'=');
    datagram.extend(vec![b'w'; 600]);
    insert(&datagram, 600, &mut store);
    let reply = query(&long_key, &store);
    assert_eq!(reply.len(), 1000);
    assert_eq!(reply, datagram[..1000].to_vec());
    assert_eq!(BUFF_SIZE, 1000);
}

#[test]
fn serving_tells_insertions_from_queries() {
    let mut store = Store::new();
    assert_eq!(serve(&mut store, b"a=1"), Ok(None));
    assert_eq!(serve(&mut store, b"b=2=3"), Ok(None));
    assert_eq!(serve(&mut store, b"a"), Ok(Some(b"a=1".to_vec())));
    assert_eq!(serve(&mut store, b"b"), Ok(Some(b"b=2=3".to_vec())));
    assert_eq!(serve(&mut store, b"c"), Ok(Some(b"c=".to_vec())));
    assert_eq!(serve(&mut store, b""), Ok(Some(b"=".to_vec())));
    assert_eq!(serve(&mut store, b"="), Ok(None));
    assert_eq!(serve(&mut store, b""), Ok(Some(b"=".to_vec())));
}

#[test]
fn text_beyond_ascii_is_kept() {
    let mut store = Store::new();
    assert_eq!(serve(&mut store, "schlüssel=wert ✓".as_bytes()), Ok(None));
    assert_eq!(store.get("schlüssel"), Some("wert ✓".to_string()));
    assert_eq!(
        serve(&mut store, "schlüssel".as_bytes()),
        Ok(Some("schlüssel=wert ✓".as_bytes().to_vec()))
    );
}

#[test]
fn what_is_not_text_is_malformed_and_changes_nothing() {
    let mut store = Store::new();
    assert_eq!(serve(&mut store, &[0xff, 0xfe]), Err(Malformed));
    assert_eq!(serve(&mut store, &[b'k', b'=', 0xff]), Err(Malformed));
    assert_eq!(serve(&mut store, &[0xc3, b'=', b'v']), Err(Malformed));
    assert_eq!(store.get("k"), None);
}
