use bucketcode::json::Json;
use bucketcode::llm::{
    interpret, Client, Config, LlmError, Message, Response, Tool, ToolCall, Usage, DEFAULT_MODEL,
};

fn parse(s: &str) -> Json {
    Json::from_text(s).unwrap()
}

fn client(effort: Option<&str>) -> Client {
    let cfg = Config::from_env(Some("key".into()))
        .unwrap()
        .with_model("m".into())
        .with_effort(effort.map(String::from));
    Client::new(cfg)
}

#[test]
fn configuration_comes_from_the_key() {
    assert_eq!(Config::from_env(None).unwrap_err(), "ANTHROPIC_API_KEY is not set");
    let c = Config::from_env(Some("k".into())).unwrap();
    assert_eq!(c.api_key, "k");
    assert_eq!(c.model, DEFAULT_MODEL);
    assert_eq!(c.max_tokens, 16_000);
    assert_eq!(c.effort.as_deref(), Some("high"));
    assert_eq!(c.base_url, "https://api.anthropic.com/v1/messages");
    assert_eq!(c.timeout, 600);
}

#[test]
fn normalizing_drops_the_effort_of_haiku_only() {
    let c = Config::from_env(Some("k".into())).unwrap();
    let h = c.clone().with_model("some-haiku-4-5".into()).normalized();
    assert_eq!(h.effort, None);
    assert_eq!(h.clone().normalized().effort, None);
    assert_eq!(h.model, "some-haiku-4-5");
    assert_eq!(c.normalized().effort.as_deref(), Some("high"));
}

#[test]
fn a_request_leaves_out_what_is_not_given() {
    let text = client(None).request_text("be brief", &[Message::user("hi")], None, None);
    assert_eq!(
        text,
        "{\"max_tokens\":16000,\"messages\":[{\"content\":\"hi\",\"role\":\"user\"}],\"model\":\"m\",\
         \"system\":[{\"cache_control\":{\"type\":\"ephemeral\"},\"text\":\"be brief\",\"type\":\"text\"}]}"
    );
}

#[test]
fn a_request_carries_tools_effort_and_schema() {
    let tool = Tool {
        name: "t".into(),
        description: "d".into(),
        input_schema: parse("{\"type\":\"object\"}"),
    };
    let messages = [
        Message::user("go"),
        Message::assistant(parse("[{\"type\":\"tool_use\"}]")),
        Message::tool_results(vec![parse("1.5")]),
    ];
    let text = client(Some("low")).request_text("s", &messages, Some(&[tool]), Some(parse("{\"a\":1}")));
    let v = parse(&text);
    assert_eq!(v.get("tools").unwrap().to_text(), "[{\"description\":\"d\",\"input_schema\":{\"type\":\"object\"},\"name\":\"t\"}]");
    assert_eq!(
        v.get("output_config").unwrap().to_text(),
        "{\"effort\":\"low\",\"format\":{\"schema\":{\"a\":1},\"type\":\"json_schema\"}}"
    );
    assert_eq!(
        v.get("messages").unwrap().to_text(),
        "[{\"content\":\"go\",\"role\":\"user\"},{\"content\":[{\"type\":\"tool_use\"}],\"role\":\"assistant\"},\
         {\"content\":[1.5],\"role\":\"user\"}]"
    );
    for absent in ["temperature", "top_p", "top_k"] {
        assert!(v.get(absent).is_none());
    }
}

#[test]
fn headers_name_the_version_and_the_key() {
    let c = client(None);
    let h = c.headers();
    let pairs: Vec<(&str, &str)> = h.iter().map(|(a, b)| (a.as_str(), b.as_str())).collect();
    assert_eq!(
        pairs,
        [("content-type", "application/json"), ("x-api-key", "key"), ("anthropic-version", "2023-06-01")]
    );
    assert_eq!(c.model(), "m");
    assert_eq!(c.url(), "https://api.anthropic.com/v1/messages");
    assert_eq!(c.timeout(), 600);
}

#[test]
fn a_refusal_is_read_before_the_content() {
    let raw = parse(
        "{\"stop_reason\":\"refusal\",\"content\":[],\"stop_details\":{\"category\":\"x\",\"explanation\":null}}",
    );
    match interpret(&raw) {
        Err(LlmError::Refused { category, explanation }) => {
            assert_eq!(category.as_deref(), Some("x"));
            assert_eq!(explanation, None);
        }
        _ => panic!("a refusal is an error"),
    }
    let raw = parse("{\"stop_reason\":\"refusal\",\"content\":[{\"type\":\"text\",\"text\":\"partial\"}]}");
    assert!(matches!(interpret(&raw), Err(LlmError::Refused { category: None, explanation: None })));
    let raw = parse("{\"stop_reason\":\"max_tokens\"}");
    assert!(matches!(interpret(&raw), Err(LlmError::Truncated)));
}

#[test]
fn a_turn_keeps_text_and_calls_apart() {
    let raw = parse(
        "{\"model\":\"m1\",\"stop_reason\":\"tool_use\",\"usage\":{\"input_tokens\":7,\"output_tokens\":8,\
          \"cache_read_input_tokens\":9},\"content\":[{\"type\":\"thinking\",\"text\":\"hm\"},\
          {\"type\":\"text\",\"text\":\"a\"},{\"type\":\"tool_use\",\"id\":\"1\",\"name\":\"n\",\"input\":{\"k\":[1,-2,0.5]}},\
          {\"type\":\"text\",\"text\":\"b\"},{\"type\":\"tool_use\",\"id\":\"2\"},{\"type\":\"tool_use\",\"id\":\"3\",\"name\":\"o\"}]}",
    );
    let c = match interpret(&raw) {
        Ok(c) => c,
        Err(e) => panic!("{}", e.describe()),
    };
    assert_eq!(c.text, "ab");
    assert_eq!(c.model, "m1");
    assert!(c.wants_tools());
    assert_eq!(
        (c.usage.input_tokens, c.usage.output_tokens, c.usage.cache_read_input_tokens, c.usage.cache_creation_input_tokens),
        (7, 8, 9, 0)
    );
    assert_eq!(c.tool_calls.len(), 2, "a call without a name is none");
    assert_eq!(c.tool_calls[0].input.to_text(), "{\"k\":[1,-2,0.5]}");
    assert_eq!(c.tool_calls[1].id, "3");
    assert_eq!(c.tool_calls[1].input.to_text(), "null");
    assert_eq!(c.raw_content.to_text(), raw.get("content").unwrap().to_text());
}

#[test]
fn calls_come_only_with_a_stop_for_tools() {
    let block = "{\"type\":\"tool_use\",\"id\":\"1\",\"name\":\"n\"}";
    for (reason, calls) in [("null", 0), ("\"end_turn\"", 0), ("\"tool_use\"", 1)] {
        let raw = parse(&format!("{{\"stop_reason\":{reason},\"content\":[{block}]}}"));
        match interpret(&raw) {
            Ok(c) => {
                assert_eq!(c.tool_calls.len(), calls, "{reason}");
                assert_eq!(c.wants_tools(), calls > 0, "{reason}");
            }
            Err(e) => panic!("{}", e.describe()),
        }
    }
    for content in ["[]", "null", "[{\"type\":\"tool_use\",\"id\":\"1\"}]"] {
        match interpret(&parse(&format!("{{\"stop_reason\":\"tool_use\",\"content\":{content}}}"))) {
            Err(e) => assert_eq!(
                e.describe(),
                "could not decode response: the response stops for tools but holds no tool call"
            ),
            Ok(_) => panic!("{content} holds no call"),
        }
    }
}

#[test]
fn an_empty_response_is_an_empty_turn() {
    let c = match interpret(&parse("{}")) {
        Ok(c) => c,
        Err(e) => panic!("{}", e.describe()),
    };
    assert_eq!(c.text, "");
    assert_eq!(c.stop_reason, None);
    assert!(!c.wants_tools());
    assert!(c.tool_calls.is_empty());
    assert_eq!(c.raw_content.to_text(), "null");
    assert_eq!(Usage::default().total_input(), 0);
}

#[test]
fn every_failure_has_its_words() {
    let c = client(None);
    let fail = |r: Response| match c.complete(r) {
        Ok(_) => panic!("expected a failure"),
        Err(e) => e,
    };
    assert_eq!(
        fail(Response::Status(404)).describe(),
        "api returned 404: check the model id and that every parameter is supported on it (effort is not accepted on Haiku 4.5)"
    );
    assert_eq!(fail(Response::Failed("dns".into())).describe(), "transport error: dns");
    assert_eq!(fail(Response::Unreadable("cut".into())).describe(), "could not decode response: cut");
    assert_eq!(
        fail(Response::Body("{}".into(), Err("bad shape".into()))).describe(),
        "could not decode response: bad shape"
    );
    let e = fail(Response::Body("{".into(), Ok(())));
    assert!(e.describe().starts_with("could not decode response: EOF while parsing"), "{}", e.describe());
    assert_eq!(
        LlmError::Truncated.describe(),
        "response hit max_tokens and is truncated; raise max_tokens or lower effort"
    );
    let e = fail(Response::Body(
        "{\"stop_reason\":\"refusal\",\"stop_details\":{\"category\":\"c\",\"explanation\":\"e\"}}".into(),
        Ok(()),
    ));
    assert_eq!(e.describe(), "request was declined (c): e");
    assert_eq!(e.describe_run(), "the model declined this request (c): e");
    assert!(c.complete(Response::Body("{}".into(), Ok(()))).is_ok());
}

#[test]
fn a_result_block_answers_its_call() {
    let call = ToolCall { id: "toolu_1".into(), name: "n".into(), input: Json::Null };
    assert_eq!(
        call.result("out", true).to_text(),
        "{\"content\":\"out\",\"is_error\":true,\"tool_use_id\":\"toolu_1\",\"type\":\"tool_result\"}"
    );
}

#[test]
fn json_values_read_and_write() {
    for s in ["null", "true", "-3", "18446744073709551615", "1.25", "\"a\\\"b\"", "[1,[],{}]", "{\"a\":{\"b\":[null]}}"] {
        assert_eq!(parse(s).to_text(), s);
        assert_eq!(parse(s).copy().to_text(), s);
    }
    assert!(Json::from_text("{\"a\":}").is_err());
    let v = parse("{\"a\":\"x\",\"b\":true,\"c\":[1],\"d\":1}");
    assert_eq!(v.get_text("a").unwrap(), "x");
    assert_eq!(v.get_text_or_empty("d"), "");
    assert!(v.is_true("b") && !v.is_true("a"));
    assert_eq!(v.get_items("c").unwrap().len(), 1);
    assert!(v.get_items("d").is_none());
}
