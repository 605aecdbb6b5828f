use marketeer::agent::{named_calls, Agent, LlmConfig, Next, Reply};
use marketeer::chat::{ChatMessage, ChatRole, Usage};
use marketeer::json::Json;
use marketeer::scalar::Scalar;
use marketeer::stream::{fits_here, Step, StreamOutcome, StreamUsage, ToolCallAcc};
use marketeer::tools::{
    chat_tools_json, clip, clip_page, plan_tool, read_arguments, tool_result, ToolAction,
};

fn no_outcome() -> StreamOutcome {
    StreamOutcome::default()
}

fn added(step: Option<Step>) -> (Option<String>, Option<String>) {
    match step {
        Some(Step::Added { content, reasoning }) => (content, reasoning),
        other => panic!("{:?}", other),
    }
}

#[test]
fn texts_of_an_answer_are_put_together() {
    let mut o = no_outcome();
    let a = added(o.take_line("data: {\"choices\":[{\"delta\":{\"content\":\"Hel\"}}]}"));
    assert_eq!(a, (Some("Hel".to_string()), None));
    let b = added(o.take_line("data:{\"choices\":[{\"delta\":{\"content\":\"lo\",\"reasoning\":\"why\"}}]}"));
    assert_eq!(b, (Some("lo".to_string()), Some("why".to_string())));
    let c = added(o.take_line("data: {\"choices\":[{\"delta\":{\"content\":\"\"}}]}"));
    assert_eq!(c, (None, None));
    assert_eq!(o.content, "Hello");
    assert_eq!(o.reasoning, "why");
    assert!(o.tool_calls.is_empty());
    assert!(o.usage.is_none());
}

#[test]
fn lines_that_say_nothing_are_passed_over() {
    let mut o = no_outcome();
    for line in ["", ": keep-alive", "event: x", "data:", "data:   ", "data: {broken", "data : {}"] {
        assert!(matches!(o.take_line(line), Some(Step::Nothing)), "{}", line);
    }
    assert_eq!(o.content, "");
    assert!(matches!(o.take_line("data: [DONE]"), Some(Step::Ended)));
}

#[test]
fn an_error_in_the_answer_is_told() {
    let mut o = no_outcome();
    match o.take_line("data: {\"error\":{\"message\":\"no credit\"}}") {
        Some(Step::Refused(m)) => assert_eq!(m, "no credit"),
        other => panic!("{:?}", other),
    }
    match o.take_line("data: {\"error\": {\"code\": 402}}") {
        Some(Step::Refused(m)) => assert_eq!(m, "{\"code\":402}"),
        other => panic!("{:?}", other),
    }
    match o.take_line("data: {\"error\": \"bad\"}") {
        Some(Step::Refused(m)) => assert_eq!(m, "\"bad\""),
        other => panic!("{:?}", other),
    }
}

#[test]
fn what_an_answer_took_is_read() {
    let mut o = no_outcome();
    added(o.take_line("data: {\"usage\":{\"prompt_tokens\":10,\"completion_tokens\":5,\"cost\":0.25}}"));
    let u = o.usage.as_ref().unwrap();
    assert_eq!((u.prompt, u.completion, u.total), (10, 5, 15));
    assert_eq!(u.cost.as_deref(), Some("0.25"));
    added(o.take_line("data: {\"usage\":null}"));
    assert_eq!(o.usage.as_ref().unwrap().total, 15);
    added(o.take_line("data: {\"usage\":{\"total_tokens\":99}}"));
    let v = o.usage.as_ref().unwrap();
    assert_eq!((v.prompt, v.completion, v.total), (0, 0, 99));
    assert_eq!(v.cost, None);
}

// The answer that lines make: they are taken in up to the first behind which nothing is read.
fn answer(lines: &[&str]) -> Result<StreamOutcome, String> {
    let mut o = no_outcome();
    for line in lines {
        match o.take_line(line) {
            Some(Step::Nothing) | Some(Step::Added { .. }) => {}
            Some(Step::Ended) => break,
            Some(Step::Refused(m)) => return Err(m),
            None => panic!("{}", line),
        }
    }
    Ok(o)
}

#[test]
fn an_answer_is_what_its_lines_say_up_to_the_end() {
    let lines = [
        "data: {\"choices\":[{\"delta\":{\"content\":\"a\",\"reasoning\":\"x\"}}],\"usage\":{\"total_tokens\":1}}",
        ": keep-alive",
        "data: {\"choices\":[{\"delta\":{\"tool_calls\":[{\"id\":\"i\",\"function\":{\"name\":\"web_\"}}]}}]}",
        "data: {\"choices\":[{\"delta\":{\"content\":\"b\"}}],\"usage\":{\"total_tokens\":2}}",
        "data: {\"choices\":[{\"delta\":{\"reasoning\":\"y\",\"tool_calls\":[{\"function\":{\"name\":\"search\"}}]}}]}",
        "data: [DONE]",
        "data: {\"choices\":[{\"delta\":{\"content\":\"c\"}}],\"usage\":{\"total_tokens\":3}}",
        "data: {\"error\":{\"message\":\"late\"}}",
    ];
    for whole in [answer(&lines).unwrap(), answer(&lines[..5]).unwrap()] {
        assert_eq!((whole.content.as_str(), whole.reasoning.as_str()), ("ab", "xy"));
        assert_eq!(whole.usage.unwrap().total, 2);
        assert_eq!(whole.tool_calls.len(), 1);
        assert_eq!((whole.tool_calls[0].id.as_str(), whole.tool_calls[0].name.as_str()), ("i", "web_search"));
    }
    assert_eq!(answer(&[lines[0], lines[7], lines[3]]).unwrap_err(), "late");
}

#[test]
fn counts_that_are_too_large_are_not_taken_in() {
    let mut o = no_outcome();
    let line = "data: {\"usage\":{\"prompt_tokens\":18446744073709551615,\"completion_tokens\":1}}";
    assert!(o.take_line(line).is_none());
    assert!(o.usage.is_none());
    let call = "data: {\"choices\":[{\"delta\":{\"tool_calls\":[{\"index\":18446744073709551615}]}}]}";
    assert!(o.take_line(call).is_none());
    assert!(o.tool_calls.is_empty());
    assert!(fits_here(&Json::Null));
}

#[test]
fn calls_come_in_pieces() {
    let mut o = no_outcome();
    let first = "data: {\"choices\":[{\"delta\":{\"tool_calls\":[{\"index\":1,\"id\":\"b\",\"function\":{\"name\":\"web_\",\"arguments\":\"{\\\"q\"}}]}}]}";
    let second = "data: {\"choices\":[{\"delta\":{\"tool_calls\":[{\"index\":1,\"function\":{\"name\":\"search\",\"arguments\":\"\\\":1}\"}},{\"id\":\"a\"}]}}]}";
    added(o.take_line(first));
    assert_eq!(o.tool_calls.len(), 2);
    assert_eq!(o.tool_calls[0].name, "");
    added(o.take_line(second));
    assert_eq!(o.tool_calls.len(), 2);
    assert_eq!(o.tool_calls[0].id, "a");
    assert_eq!(o.tool_calls[1].id, "b");
    assert_eq!(o.tool_calls[1].name, "web_search");
    assert_eq!(o.tool_calls[1].args, "{\"q\":1}");
    assert_eq!(named_calls(&o), vec![1]);
}

fn text_of(j: &Json, key: &str) -> String {
    j.text_at(key).unwrap().to_string()
}

fn message(role: ChatRole, content: &str) -> ChatMessage {
    ChatMessage {
        role,
        content: content.to_string(),
        reasoning: String::new(),
        tool_log: Vec::new(),
        usage: None,
    }
}

#[test]
fn a_conversation_is_opened() {
    let history = vec![message(ChatRole::User, "q1"), message(ChatRole::Assistant, "a1")];
    let a = Agent::new("sys", &history, "q2");
    let roles: Vec<String> = a.messages.iter().map(|m| text_of(m, "role")).collect();
    let contents: Vec<String> = a.messages.iter().map(|m| text_of(m, "content")).collect();
    assert_eq!(roles, vec!["system", "user", "assistant", "user"]);
    assert_eq!(contents, vec!["sys", "q1", "a1", "q2"]);
    assert!(a.tools_enabled && a.usage_streaming && !a.has_usage);
}

#[test]
fn only_the_last_messages_are_sent() {
    let mut history = Vec::new();
    for i in 0..20 {
        history.push(message(ChatRole::User, &format!("m{}", i)));
    }
    let a = Agent::new("sys", &history, "q");
    assert_eq!(a.messages.len(), 18);
    assert_eq!(text_of(&a.messages[1], "content"), "m4");
    assert_eq!(text_of(&a.messages[16], "content"), "m19");
}

#[test]
fn the_request_says_what_is_wanted() {
    let mut a = Agent::new("sys", &Vec::new(), "q");
    let b = a.body("some/model");
    assert_eq!(b.text_at("model"), Some("some/model"));
    assert_eq!(b.items_at("messages").unwrap().len(), 2);
    assert!(matches!(b.get("stream"), Some(Json::Bool(true))));
    assert_eq!(b.items_at("tools").unwrap().len(), 2);
    assert!(matches!(b.get("stream_options").unwrap().get("include_usage"), Some(Json::Bool(true))));
    a.tools_enabled = false;
    a.usage_streaming = false;
    let c = a.body("m");
    assert!(c.get("tools").is_none());
    assert!(c.get("stream_options").is_none());
}

fn again(n: &Next) -> bool {
    matches!(n, Next::Again)
}

#[test]
fn a_refused_request_is_made_simpler_twice() {
    let mut a = Agent::new("s", &Vec::new(), "q");
    let refused = Reply::Failed("http status: 400".to_string());
    assert!(again(&a.next(&refused)));
    assert!(!a.tools_enabled && a.usage_streaming);
    assert!(again(&a.next(&refused)));
    assert!(!a.tools_enabled && !a.usage_streaming);
    match a.next(&refused) {
        Next::Finished { error, usage } => {
            assert_eq!(error.as_deref(), Some("http status: 400"));
            assert_eq!(usage, None);
        }
        other => panic!("{:?}", other),
    }
}

#[test]
fn another_failure_ends_the_conversation() {
    let mut a = Agent::new("s", &Vec::new(), "q");
    match a.next(&Reply::Failed("timeout".to_string())) {
        Next::Finished { error, .. } => assert_eq!(error.as_deref(), Some("timeout")),
        other => panic!("{:?}", other),
    }
    assert!(a.tools_enabled);
    match a.next(&Reply::Cancelled) {
        Next::Finished { error, usage } => assert_eq!((error, usage), (None, None)),
        other => panic!("{:?}", other),
    }
}

fn with_usage(total: u64) -> StreamOutcome {
    let mut o = no_outcome();
    o.usage = Some(StreamUsage { prompt: total, completion: 1, total, cost: None });
    o
}

#[test]
fn what_the_answers_took_is_added_up() {
    let mut a = Agent::new("s", &Vec::new(), "q");
    let mut first = with_usage(10);
    first.tool_calls.push(ToolCallAcc { id: "1".into(), name: "web_fetch".into(), args: "".into() });
    let one = Scalar::from_bits(1.0f64.to_bits());
    let three = Scalar::from_bits(3.0f64.to_bits());
    assert!(a.can_count(&first));
    assert!(matches!(a.next(&Reply::Answered(first, one)), Next::RunTools));
    match a.next(&Reply::Answered(with_usage(20), three)) {
        Next::Finished { error, usage } => {
            assert_eq!(error, None);
            assert_eq!(usage, Some(Usage { prompt: 30, completion: 2, total: 30, cost: three }));
        }
        other => panic!("{:?}", other),
    }
    assert!(!a.can_count(&with_usage(u64::MAX)));
}

#[test]
fn the_end_sums_a_whole_conversation() {
    let asking = |usage: Option<u64>| {
        let mut o = match usage {
            Some(n) => with_usage(n),
            None => no_outcome(),
        };
        o.tool_calls.push(ToolCallAcc { id: "i".into(), name: "web_search".into(), args: String::new() });
        o
    };
    let cost = |v: f64| Scalar::from_bits(v.to_bits());
    let refused = || Reply::Failed("http status: 400".to_string());
    let mut a = Agent::new("s", &Vec::new(), "q");
    assert!(again(&a.next(&refused())));
    assert!(matches!(a.next(&Reply::Answered(asking(Some(5)), cost(1.0))), Next::RunTools));
    a.tool_done("i", "found");
    assert!(matches!(a.next(&Reply::Answered(asking(None), cost(9.0))), Next::RunTools));
    a.tool_done("i", "found more");
    assert!(again(&a.next(&refused())));
    assert!(matches!(a.next(&Reply::Answered(asking(Some(7)), cost(2.0))), Next::RunTools));
    a.tool_done("i", "enough");
    // Two messages at the start, and two for each answer that asked for a tool.
    assert_eq!(a.messages.len(), 8);
    match a.next(&refused()) {
        Next::Finished { error, usage } => {
            assert_eq!(error.as_deref(), Some("http status: 400"));
            let u = usage.unwrap();
            assert_eq!((u.total, u.cost), (12, cost(2.0)));
        }
        other => panic!("{:?}", other),
    }
    let mut b = Agent::new("s", &Vec::new(), "q");
    assert!(matches!(b.next(&Reply::Answered(asking(None), cost(1.0))), Next::RunTools));
    assert!(matches!(
        b.next(&Reply::Answered(no_outcome(), cost(1.0))),
        Next::Finished { error: None, usage: None }
    ));
}

#[test]
fn an_answer_that_asks_for_tools_is_remembered() {
    let mut a = Agent::new("s", &Vec::new(), "q");
    let mut o = no_outcome();
    o.content = "let me look".to_string();
    o.tool_calls.push(ToolCallAcc { id: "x".into(), name: "web_search".into(), args: "".into() });
    o.tool_calls.push(ToolCallAcc { id: "y".into(), name: "".into(), args: "".into() });
    assert_eq!(named_calls(&o), vec![0]);
    assert!(matches!(a.next(&Reply::Answered(o, Scalar::from_bits(0))), Next::RunTools));
    let m = &a.messages[2];
    assert_eq!(text_of(m, "role"), "assistant");
    assert_eq!(text_of(m, "content"), "let me look");
    let calls = m.items_at("tool_calls").unwrap();
    assert_eq!(calls.len(), 2);
    assert_eq!(calls[0].text_at("id"), Some("x"));
    assert_eq!(calls[0].text_at("type"), Some("function"));
    let f = calls[0].get("function").unwrap();
    assert_eq!(f.text_at("name"), Some("web_search"));
    assert_eq!(f.text_at("arguments"), Some("{}"));
    a.tool_done("x", &"r".repeat(7000));
    let t = &a.messages[3];
    assert_eq!(text_of(t, "role"), "tool");
    assert_eq!(text_of(t, "tool_call_id"), "x");
    assert_eq!(text_of(t, "content").len(), 6000);
}

#[test]
fn the_address_of_a_model_is_made() {
    let c = LlmConfig {
        base_url: "https://openrouter.ai/api/v1//".into(),
        key: "k".into(),
        model: "m".into(),
        brave_key: "".into(),
    };
    assert_eq!(c.endpoint(), "https://openrouter.ai/api/v1/chat/completions");
    assert_eq!(c.authorization(), "Bearer k");
}

#[test]
fn a_search_goes_to_brave_with_a_key() {
    let args = read_arguments("{\"query\":\"aud usd\"}");
    let p = plan_tool("web_search", &args, "  key ");
    assert_eq!(p.line, "↳ web_search \"aud usd\"");
    match p.action {
        ToolAction::Brave { url, key } => {
            assert_eq!(url, "https://api.search.brave.com/res/v1/web/search?q=aud%20usd&count=8");
            assert_eq!(key, "key");
        }
        other => panic!("{:?}", other),
    }
}

#[test]
fn a_search_goes_to_duckduckgo_without_a_key() {
    let p = plan_tool("web_search", &read_arguments("{\"query\":\"x\"}"), " ");
    match p.action {
        ToolAction::DuckDuckGo { url } => assert_eq!(url, "https://html.duckduckgo.com/html/?q=x"),
        other => panic!("{:?}", other),
    }
}

#[test]
fn a_page_is_fetched() {
    let p = plan_tool("web_fetch", &read_arguments("{\"url\":\"https://rba.gov.au\"}"), "");
    assert_eq!(p.line, "↳ web_fetch https://rba.gov.au");
    assert!(matches!(&p.action, ToolAction::Fetch { url } if url == "https://rba.gov.au"));
    assert_eq!(tool_result(&p.action, Ok("<p>Cash   rate</p>")).as_deref(), Some("Cash rate"));
    assert_eq!(tool_result(&p.action, Err("timeout")).as_deref(), Some("fetch failed: timeout"));
    assert_eq!(tool_result(&p.action, Ok("İ<b")), None);
}

#[test]
fn an_unknown_tool_is_named() {
    let p = plan_tool("shell", &read_arguments("{}"), "");
    assert_eq!(p.line, "↳ ? shell");
    assert_eq!(tool_result(&p.action, Err("ignored")).as_deref(), Some("unknown tool: shell"));
}

#[test]
fn arguments_that_cannot_be_read_are_empty() {
    assert!(read_arguments("not json").is_null());
    assert!(read_arguments("").is_null());
    let p = plan_tool("web_fetch", &read_arguments("nonsense"), "");
    assert_eq!(p.line, "↳ web_fetch ");
}

#[test]
fn failed_searches_are_told() {
    let d = ToolAction::DuckDuckGo { url: "u".into() };
    assert_eq!(tool_result(&d, Err("no route")).as_deref(), Some("search failed: no route"));
    assert!(tool_result(&d, Ok("<html></html>")).unwrap().starts_with("Web search results:\n"));
    let b = ToolAction::Brave { url: "u".into(), key: "k".into() };
    assert_eq!(tool_result(&b, Err("401")).as_deref(), Some("search failed: 401"));
    assert_eq!(
        tool_result(&b, Ok("oops")).as_deref(),
        Some("search failed: expected value at line 1 column 1")
    );
}

#[test]
fn what_came_back_in_ascii_is_always_read() {
    let f = ToolAction::Fetch { url: "u".into() };
    for page in ["", "<", "<script>", "</SCRIPT <b", "a & b; &amp &#x;", "result__a"] {
        assert!(tool_result(&f, Ok(page)).is_some());
    }
    let d = ToolAction::DuckDuckGo { url: "u".into() };
    assert!(tool_result(&d, Ok("result__a result__a>")).is_some());
    assert_eq!(tool_result(&d, Ok("> result__a")), None);
    let b = ToolAction::Brave { url: "u".into(), key: "k".into() };
    let answer = |text: &str| {
        format!("{{\"web\":{{\"results\":[{{\"title\":\"T\",\"url\":\"https://a.b\",\"description\":\"{}\"}}]}}}}", text)
    };
    assert_eq!(
        tool_result(&b, Ok(&answer("<b>bold"))).as_deref(),
        Some("1. T — https://a.b\n   bold\n")
    );
    assert_eq!(tool_result(&b, Ok(&answer("İ<b"))), None);
}

#[test]
fn long_pages_are_clipped() {
    assert_eq!(clip("häuser", 2), "hä");
    assert_eq!(clip("ab", 5), "ab");
    let fits = "x".repeat(8000);
    assert_eq!(clip_page(&fits), fits);
    let long = "y".repeat(8001);
    assert_eq!(clip_page(&long), format!("{}\n…[truncated]", "y".repeat(8000)));
    assert_eq!(clip_page(&long).chars().count(), 8013);
}

#[test]
fn tools_are_offered() {
    let t = chat_tools_json();
    let search = t.item(0).unwrap().get("function").unwrap();
    assert_eq!(search.text_at("name"), Some("web_search"));
    let parameters = search.get("parameters").unwrap();
    assert_eq!(parameters.text_at("type"), Some("object"));
    assert_eq!(
        parameters.get("properties").unwrap().get("query").unwrap().text_at("description"),
        Some("The search query")
    );
    assert_eq!(parameters.items_at("required").unwrap()[0].as_text(), Some("query"));
    assert_eq!(t.item(1).unwrap().get("function").unwrap().text_at("name"), Some("web_fetch"));
    assert!(t.item(2).is_none());
}
