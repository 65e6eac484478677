use cloudflare::Actions;
use cloudflare::Authentication;
use cloudflare::RequestParameters;
use cloudflare::payload_for_action;
use cloudflare::request_url;

#[test]
fn it_converts_authentication_into_request_params() {
    let auth = Authentication {
        email: "email@example.com".to_owned(),
        token: "token".to_owned(),
        domain: None,
    };

    let auth_info = RequestParameters::from_auth(&auth);
    let mut expected_info = RequestParameters::new();
    expected_info.insert("tkn".to_owned(), "token".to_owned());
    expected_info.insert("email".to_owned(), "email@example.com".to_owned());
    assert_eq!(auth_info, expected_info);
}

#[test]
fn it_converts_authentication_into_request_params_including_a_domain() {
    let auth = Authentication {
        email: "email@example.com".to_owned(),
        token: "token".to_owned(),
        domain: Some("example.com".to_owned()),
    };

    let auth_info = RequestParameters::from_auth(&auth);
    let mut expected_info = RequestParameters::new();
    expected_info.insert("tkn".to_owned(), "token".to_owned());
    expected_info.insert("email".to_owned(), "email@example.com".to_owned());
    expected_info.insert("z".to_owned(), "example.com".to_owned());
    assert_eq!(auth_info, expected_info);
}

#[test]
fn payload_without_domain_has_no_z_key() {
    let auth = Authentication {
        email: "email@example.com".to_owned(),
        token: "token".to_owned(),
        domain: None,
    };
    let payload = payload_for_action(&auth, Actions::AllRecords);
    assert_eq!(payload.len(), 3);
    assert_eq!(payload.get(&"email".to_owned()), Some(&"email@example.com".to_owned()));
    assert_eq!(payload.get(&"tkn".to_owned()), Some(&"token".to_owned()));
    assert_eq!(payload.get(&"a".to_owned()), Some(&"rec_load_all".to_owned()));
    assert_eq!(payload.get(&"z".to_owned()), None);
}

#[test]
fn payload_with_domain_carries_it_as_z() {
    let auth = Authentication {
        email: "email@example.com".to_owned(),
        token: "token".to_owned(),
        domain: Some("example.com".to_owned()),
    };
    let payload = payload_for_action(&auth, Actions::AllRecords);
    assert_eq!(payload.len(), 4);
    assert_eq!(payload.get(&"z".to_owned()), Some(&"example.com".to_owned()));
    assert_eq!(payload.get(&"a".to_owned()), Some(&"rec_load_all".to_owned()));
}

#[test]
fn insert_replaces_an_earlier_binding() {
    let mut params = RequestParameters::new();
    params.insert("a".to_owned(), "one".to_owned());
    params.insert("a".to_owned(), "two".to_owned());
    assert_eq!(params.len(), 1);
    assert_eq!(params.get(&"a".to_owned()), Some(&"two".to_owned()));
}

#[test]
fn parameter_equality_ignores_insertion_order() {
    let mut left = RequestParameters::new();
    left.insert("x".to_owned(), "1".to_owned());
    left.insert("y".to_owned(), "2".to_owned());
    let mut right = RequestParameters::new();
    right.insert("y".to_owned(), "2".to_owned());
    right.insert("x".to_owned(), "1".to_owned());
    assert_eq!(left, right);

    let mut other = RequestParameters::new();
    other.insert("x".to_owned(), "1".to_owned());
    other.insert("y".to_owned(), "3".to_owned());
    assert!(left != other);
}

#[test]
fn request_url_serializes_the_payload_as_a_query_string() {
    let auth = Authentication {
        email: "email@example.com".to_owned(),
        token: "token".to_owned(),
        domain: None,
    };
    let payload = payload_for_action(&auth, Actions::AllRecords);
    let url = request_url(&payload);
    assert_eq!(
        url,
        "https://www.cloudflare.com/api_json.html?email=email%40example.com&tkn=token&a=rec_load_all"
    );
}

#[test]
fn request_url_escapes_spaces_and_reserved_bytes() {
    let auth = Authentication {
        email: "a b@example.com".to_owned(),
        token: "t&k=n".to_owned(),
        domain: Some("example.com".to_owned()),
    };
    let payload = payload_for_action(&auth, Actions::AllRecords);
    let url = request_url(&payload);
    assert_eq!(
        url,
        "https://www.cloudflare.com/api_json.html?email=a+b%40example.com&tkn=t%26k%3Dn&z=example.com&a=rec_load_all"
    );
}
