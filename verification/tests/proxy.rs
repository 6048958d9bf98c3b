use image_proxy::chat::{chat_reply, chat_request, Outcome};
use image_proxy::wire::{build_generation_body, build_response_body};

fn ok_reply(body: &[u8]) -> Outcome {
    Outcome::Got(200, body.to_vec())
}

#[test]
fn scenario_red_bicycle() {
    // POST /chat {"message":"a red bicycle"} -> outbound generation request
    let out = chat_request(b"{\"message\":\"a red bicycle\"}").unwrap();
    assert_eq!(
        out,
        b"{\"model\":\"dall-e-3\",\"prompt\":\"a red bicycle\",\"n\":1,\"size\":\"1024x1024\"}"
            .to_vec()
    );
    // provider reply {"data":[{"url":"https://x/1.png"}]} -> 200, same entry back
    let rep = chat_reply(ok_reply(b"{\"data\":[{\"url\":\"https://x/1.png\"}]}"));
    assert_eq!(rep.status, 200);
    assert_eq!(rep.body, b"{\"data\":[{\"url\":\"https://x/1.png\"}]}".to_vec());
}

#[test]
fn scenario_empty_object_is_rejected() {
    // POST /chat {} -> 400 with an error indicator, no outbound body built
    let r = chat_request(b"{}");
    match r {
        Ok(_) => panic!("an empty object must be rejected"),
        Err(rep) => {
            assert_eq!(rep.status, 400);
            assert_eq!(rep.body, b"{\"error\":\"missing or empty message\"}".to_vec());
        }
    }
}

#[test]
fn missing_message_member_is_rejected() {
    let rep = chat_request(b"{\"other\":1}").unwrap_err();
    assert_eq!(rep.status, 400);
}

#[test]
fn empty_message_is_rejected() {
    let rep = chat_request(b"{\"message\":\"\"}").unwrap_err();
    assert_eq!(rep.status, 400);
}

#[test]
fn non_string_message_is_rejected() {
    let rep = chat_request(b"{\"message\":17}").unwrap_err();
    assert_eq!(rep.status, 400);
}

#[test]
fn malformed_request_body_is_rejected() {
    assert_eq!(chat_request(b"not json").unwrap_err().status, 400);
    assert_eq!(chat_request(b"").unwrap_err().status, 400);
    assert_eq!(chat_request(b"[\"message\"]").unwrap_err().status, 400);
    assert_eq!(chat_request(b"{\"message\":\"x\"").unwrap_err().status, 400);
    assert_eq!(chat_request(b"{\"message\":\"x\"} y").unwrap_err().status, 400);
}

#[test]
fn request_keeps_escapes_and_spacing() {
    let out = chat_request(b" { \"message\" : \"a\\\"b\" } ").unwrap();
    assert_eq!(
        out,
        b"{\"model\":\"dall-e-3\",\"prompt\":\"a\\\"b\",\"n\":1,\"size\":\"1024x1024\"}".to_vec()
    );
}

#[test]
fn request_last_message_member_wins() {
    let out = chat_request(b"{\"message\":\"x\",\"message\":\"y\"}").unwrap();
    assert_eq!(
        out,
        b"{\"model\":\"dall-e-3\",\"prompt\":\"y\",\"n\":1,\"size\":\"1024x1024\"}".to_vec()
    );
}

#[test]
fn empty_data_array_is_not_an_error() {
    let rep = chat_reply(ok_reply(b"{\"data\":[]}"));
    assert_eq!(rep.status, 200);
    assert_eq!(rep.body, b"{\"data\":[]}".to_vec());
}

#[test]
fn entries_keep_their_order() {
    let rep = chat_reply(ok_reply(
        b"{\"data\":[{\"url\":\"u1\"},{\"url\":\"u2\"},{\"url\":\"u3\"}]}",
    ));
    assert_eq!(rep.status, 200);
    assert_eq!(
        rep.body,
        b"{\"data\":[{\"url\":\"u1\"},{\"url\":\"u2\"},{\"url\":\"u3\"}]}".to_vec()
    );
}

#[test]
fn unknown_members_are_skipped() {
    let rep = chat_reply(ok_reply(
        b"{\"created\":123,\"data\":[{\"url\":\"a\",\"revised_prompt\":\"b\"}],\"x\":{\"y\":[1,2]}}",
    ));
    assert_eq!(rep.status, 200);
    assert_eq!(rep.body, b"{\"data\":[{\"url\":\"a\"}]}".to_vec());
}

#[test]
fn whitespace_in_reply_is_tolerated() {
    let rep = chat_reply(ok_reply(b" { \"data\" : [ { \"url\" : \"a\" } ] } "));
    assert_eq!(rep.status, 200);
    assert_eq!(rep.body, b"{\"data\":[{\"url\":\"a\"}]}".to_vec());
}

#[test]
fn transport_failure_yields_502_and_server_stays_usable() {
    let rep = chat_reply(Outcome::Transport);
    assert_eq!(rep.status, 502);
    assert_eq!(rep.body, b"{\"error\":\"image generation failed\"}".to_vec());
    // a later, independent call still succeeds
    let rep2 = chat_reply(ok_reply(b"{\"data\":[{\"url\":\"a\"}]}"));
    assert_eq!(rep2.status, 200);
}

#[test]
fn provider_error_status_yields_502() {
    let rep = chat_reply(Outcome::Got(500, b"{\"data\":[{\"url\":\"a\"}]}".to_vec()));
    assert_eq!(rep.status, 502);
    assert_eq!(rep.body, b"{\"error\":\"image generation failed\"}".to_vec());
}

#[test]
fn status_range_edges() {
    assert_eq!(
        chat_reply(Outcome::Got(199, b"{\"data\":[]}".to_vec())).status,
        502
    );
    assert_eq!(
        chat_reply(Outcome::Got(299, b"{\"data\":[]}".to_vec())).status,
        200
    );
    assert_eq!(
        chat_reply(Outcome::Got(300, b"{\"data\":[]}".to_vec())).status,
        502
    );
}

#[test]
fn malformed_reply_yields_502() {
    assert_eq!(chat_reply(ok_reply(b"")).status, 502);
    assert_eq!(chat_reply(ok_reply(b"not json")).status, 502);
    assert_eq!(chat_reply(ok_reply(b"{\"data\":")).status, 502);
    assert_eq!(chat_reply(ok_reply(b"{\"data\":[]} x")).status, 502);
    assert_eq!(chat_reply(ok_reply(b"[{\"url\":\"a\"}]")).status, 502);
}

#[test]
fn ill_shaped_reply_yields_502() {
    // no data member
    assert_eq!(chat_reply(ok_reply(b"{\"ok\":1}")).status, 502);
    // data not an array
    assert_eq!(chat_reply(ok_reply(b"{\"data\":1}")).status, 502);
    // entry without url
    assert_eq!(chat_reply(ok_reply(b"{\"data\":[{\"foo\":\"x\"}]}")).status, 502);
    // url not a string
    assert_eq!(chat_reply(ok_reply(b"{\"data\":[{\"url\":5}]}")).status, 502);
    // entry not an object
    assert_eq!(chat_reply(ok_reply(b"{\"data\":[\"a\"]}")).status, 502);
}

#[test]
fn invalid_json_in_request_is_rejected() {
    // a bare token that is not a JSON value makes the whole body invalid
    assert_eq!(
        chat_request(b"{\"a\":x,\"message\":\"hi\"}").unwrap_err().status,
        400
    );
    // a bracket closed by a brace
    assert_eq!(
        chat_request(b"{\"a\":[1},\"message\":\"hi\"}").unwrap_err().status,
        400
    );
    // a raw control byte inside a string
    assert_eq!(chat_request(b"{\"message\":\"a\nb\"}").unwrap_err().status, 400);
    // a malformed escape
    assert_eq!(chat_request(b"{\"message\":\"a\\qb\"}").unwrap_err().status, 400);
}

#[test]
fn invalid_json_in_reply_is_rejected() {
    assert_eq!(chat_reply(ok_reply(b"{\"a\":x,\"data\":[]}")).status, 502);
    assert_eq!(chat_reply(ok_reply(b"{\"a\":[1},\"data\":[]}")).status, 502);
    assert_eq!(chat_reply(ok_reply(b"{\"a\":tru,\"data\":[]}")).status, 502);
    assert_eq!(chat_reply(ok_reply(b"{\"a\":nul,\"data\":[]}")).status, 502);
    assert_eq!(chat_reply(ok_reply(b"{\"a\":1.,\"data\":[]}")).status, 502);
    assert_eq!(chat_reply(ok_reply(b"{\"a\":1e,\"data\":[]}")).status, 502);
    assert_eq!(chat_reply(ok_reply(b"{\"a\":01,\"data\":[]}")).status, 502);
    assert_eq!(chat_reply(ok_reply(b"{\"a\":\"\\u12g4\",\"data\":[]}")).status, 502);
}

#[test]
fn escaped_keys_are_decoded() {
    // \u0075 is the letter u: the entry's key is url
    let rep = chat_reply(ok_reply(b"{\"data\":[{\"\\u0075rl\":\"a\"}]}"));
    assert_eq!(rep.status, 200);
    assert_eq!(rep.body, b"{\"data\":[{\"url\":\"a\"}]}".to_vec());
    // \u0061 is the letter a: the member is message
    let out = chat_request(b"{\"mess\\u0061ge\":\"hi\"}").unwrap();
    assert_eq!(
        out,
        b"{\"model\":\"dall-e-3\",\"prompt\":\"hi\",\"n\":1,\"size\":\"1024x1024\"}".to_vec()
    );
    // a tab escape makes the key a different string
    assert_eq!(chat_request(b"{\"\\tmessage\":\"hi\"}").unwrap_err().status, 400);
}

#[test]
fn unicode_escape_in_message_is_kept_raw() {
    let out = chat_request(b"{\"message\":\"a\\u0041\"}").unwrap();
    assert_eq!(
        out,
        b"{\"model\":\"dall-e-3\",\"prompt\":\"a\\u0041\",\"n\":1,\"size\":\"1024x1024\"}"
            .to_vec()
    );
}

#[test]
fn nesting_within_limit_is_accepted() {
    let rep = chat_reply(ok_reply(b"{\"a\":[[[{\"b\":[null]}]]],\"data\":[]}"));
    assert_eq!(rep.status, 200);
    assert_eq!(rep.body, b"{\"data\":[]}".to_vec());
}

#[test]
fn nesting_beyond_limit_is_rejected() {
    let mut body = String::from("{\"a\":");
    body.push_str(&"[".repeat(200));
    body.push_str(&"]".repeat(200));
    body.push_str(",\"data\":[]}");
    let rep = chat_reply(Outcome::Got(200, body.into_bytes()));
    assert_eq!(rep.status, 502);
}

#[test]
fn nested_data_member_is_not_captured() {
    // only the top-level data member counts; one inside a skipped member is ignored
    let rep = chat_reply(ok_reply(
        b"{\"outer\":{\"data\":[{\"url\":\"bad\"}]},\"data\":[]}",
    ));
    assert_eq!(rep.status, 200);
    assert_eq!(rep.body, b"{\"data\":[]}".to_vec());
}

#[test]
fn nested_message_member_is_not_captured() {
    let rep = chat_request(b"{\"wrap\":{\"message\":\"inner\"}}").unwrap_err();
    assert_eq!(rep.status, 400);
}

#[test]
fn url_escapes_are_passed_through() {
    let rep = chat_reply(ok_reply(b"{\"data\":[{\"url\":\"a\\\"b\"}]}"));
    assert_eq!(rep.status, 200);
    assert_eq!(rep.body, b"{\"data\":[{\"url\":\"a\\\"b\"}]}".to_vec());
}

#[test]
fn scalar_members_are_skipped() {
    let rep = chat_reply(ok_reply(b"{\"a\":true,\"b\":null,\"c\":-1.5e3,\"data\":[]}"));
    assert_eq!(rep.status, 200);
    assert_eq!(rep.body, b"{\"data\":[]}".to_vec());
}

#[test]
fn last_data_member_wins() {
    let rep = chat_reply(ok_reply(
        b"{\"data\":[{\"url\":\"old\"}],\"data\":[{\"url\":\"new\"}]}",
    ));
    assert_eq!(rep.status, 200);
    assert_eq!(rep.body, b"{\"data\":[{\"url\":\"new\"}]}".to_vec());
}

#[test]
fn generation_body_embeds_message_verbatim() {
    let out = build_generation_body(b"hello");
    assert_eq!(
        out,
        b"{\"model\":\"dall-e-3\",\"prompt\":\"hello\",\"n\":1,\"size\":\"1024x1024\"}".to_vec()
    );
    let empty = build_generation_body(b"");
    assert_eq!(
        empty,
        b"{\"model\":\"dall-e-3\",\"prompt\":\"\",\"n\":1,\"size\":\"1024x1024\"}".to_vec()
    );
}

#[test]
fn response_body_lists_urls_in_order() {
    let urls = vec![b"u1".to_vec(), b"u2".to_vec()];
    let out = build_response_body(&urls);
    assert_eq!(out, b"{\"data\":[{\"url\":\"u1\"},{\"url\":\"u2\"}]}".to_vec());
    let none: Vec<Vec<u8>> = vec![];
    assert_eq!(build_response_body(&none), b"{\"data\":[]}".to_vec());
}
