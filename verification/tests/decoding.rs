use cloudflare::CloudFlareErrors;
use cloudflare::Record;
use cloudflare::decode_records;
use cloudflare::records_from_response;

fn envelope() -> &'static str {
    r#"{"response":{"recs":{"objs":[{"rec_id":"1234","zone_name":"example.com","display_name":"www","name":"www","content":"example.com","type":"CNAME","prio":null,"ttl":"1"}]}}}"#
}

fn www_cname_record() -> Record {
    Record {
        rec_id: "1234".to_owned(),
        zone_name: "example.com".to_owned(),
        display_name: "www".to_owned(),
        name: "www".to_owned(),
        content: "example.com".to_owned(),
        record_type: "CNAME".to_owned(),
        prio: None,
        ttl: "1".to_owned(),
    }
}

#[test]
fn it_parses_records_from_json() {
    let expected = www_cname_record();

    let response = r#"{
            "rec_id": "1234",
            "zone_name": "example.com",
            "display_name": "www",
            "name": "www",
            "content": "example.com",
            "type": "CNAME",
            "prio": null,
            "ttl": "1"
        }"#;

    let result = Record::from_json(response).unwrap();
    assert_eq!(result, expected);
}

#[test]
fn decoding_a_full_envelope_yields_the_records_in_wire_order() {
    let records = decode_records(envelope()).unwrap();
    assert_eq!(records, vec![www_cname_record()]);
}

#[test]
fn decoding_twice_yields_equal_records() {
    let first = decode_records(envelope()).unwrap();
    let second = decode_records(envelope()).unwrap();
    assert_eq!(first, second);
}

#[test]
fn a_null_prio_decodes_to_no_value_and_a_string_prio_to_its_value() {
    let with_null = r#"{"rec_id":"1","zone_name":"z","display_name":"d","name":"n",
        "content":"c","type":"MX","prio":null,"ttl":"120"}"#;
    let record = Record::from_json(with_null).unwrap();
    assert_eq!(record.prio, None);

    let with_value = r#"{"rec_id":"1","zone_name":"z","display_name":"d","name":"n",
        "content":"c","type":"MX","prio":"10","ttl":"120"}"#;
    let record = Record::from_json(with_value).unwrap();
    assert_eq!(record.prio, Some("10".to_owned()));
}

#[test]
fn an_absent_prio_also_decodes_to_no_value() {
    let body = r#"{"rec_id":"1","zone_name":"z","display_name":"d","name":"n",
        "content":"c","type":"A","ttl":"120"}"#;
    let record = Record::from_json(body).unwrap();
    assert_eq!(record.prio, None);
}

#[test]
fn a_missing_required_field_fails_with_a_parsing_error() {
    let no_ttl = r#"{"rec_id":"1","zone_name":"z","display_name":"d","name":"n",
        "content":"c","type":"A","prio":null}"#;
    let err = Record::from_json(no_ttl).unwrap_err();
    assert!(matches!(err, CloudFlareErrors::ParsingError(_)));
}

#[test]
fn a_required_field_of_the_wrong_type_fails_with_a_parsing_error() {
    let numeric_ttl = r#"{"rec_id":"1","zone_name":"z","display_name":"d","name":"n",
        "content":"c","type":"A","prio":null,"ttl":120}"#;
    let err = Record::from_json(numeric_ttl).unwrap_err();
    assert!(matches!(err, CloudFlareErrors::ParsingError(_)));
}

#[test]
fn the_wire_field_type_feeds_record_type() {
    let records = decode_records(envelope()).unwrap();
    assert_eq!(records[0].record_type, "CNAME");
}

#[test]
fn a_body_that_is_not_json_fails_with_a_parsing_error() {
    let err = decode_records("not json").unwrap_err();
    assert!(matches!(err, CloudFlareErrors::ParsingError(_)));
}

#[test]
fn an_envelope_missing_a_level_fails_with_a_parsing_error() {
    let err = decode_records(r#"{"response":{"recs":{}}}"#).unwrap_err();
    assert!(matches!(err, CloudFlareErrors::ParsingError(_)));
}

#[test]
fn an_empty_objs_array_is_a_successful_empty_listing() {
    let records = decode_records(r#"{"response":{"recs":{"objs":[]}}}"#).unwrap();
    assert!(records.is_empty());
}

#[test]
fn a_transport_failure_surfaces_as_an_api_error() {
    let outcome = records_from_response(Err("connection refused".to_owned()));
    match outcome {
        Err(CloudFlareErrors::APIError(message)) => {
            assert_eq!(message, "connection refused");
        }
        other => panic!("expected an APIError, got {:?}", other),
    }
}

#[test]
fn a_body_that_arrived_is_decoded_even_after_dispatch() {
    let outcome = records_from_response(Ok(envelope().to_owned()));
    assert_eq!(outcome.unwrap(), vec![www_cname_record()]);
}

#[test]
fn error_messages_carry_the_underlying_cause() {
    let api = CloudFlareErrors::APIError("socket closed".to_owned());
    assert_eq!(api.message().as_str(), "socket closed");
    let parsing = CloudFlareErrors::ParsingError("bad envelope".to_owned());
    assert_eq!(parsing.message().as_str(), "bad envelope");
}
