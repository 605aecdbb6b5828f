//! The conversation with a model: what is asked, and what is done with each reply.

use vstd::prelude::*;
use vstd::string::*;
use crate::chat::{message_views, ChatMessage, Message, Usage};
use crate::json::{member_is_found, trees, Json, JsonTree};
use crate::scalar::Scalar;
use crate::stream::{call_views, Call, Outcome, StreamOutcome, Taken, ToolCallAcc};
use crate::text::{cat, chars_of, find, find_is_first, find_text, matches_at, part, text_of, text_view};
use crate::tools::{chat_tools_json, clip, clipped, offers};

verus! {

/// Where a model is asked, and with which keys.
#[derive(Debug)]
pub struct LlmConfig {
    pub base_url: String,
    pub key: String,
    pub model: String,
    pub brave_key: String,
}

/// A text without the slashes at its end.
pub open spec fn without_slashes(s: Seq<char>) -> Seq<char>
    decreases s.len(),
{
    if s.len() > 0 && s.last() == '/' {
        without_slashes(s.drop_last())
    } else {
        s
    }
}

impl LlmConfig {
    /// The address that is asked.
    pub fn endpoint(&self) -> (r: String)
        ensures
            r@ == without_slashes(self.base_url@) + "/chat/completions"@,
    {
        let v = chars_of(self.base_url.as_str());
        let mut n: usize = v.len();
        assert(v@.take(n as int) =~= v@);
        while n > 0 && v[n - 1] == '/'
            invariant
                n <= v@.len(),
                without_slashes(v@) == without_slashes(v@.take(n as int)),
            decreases n,
        {
            assert(v@.take(n as int).last() == v@[n - 1]);
            assert(v@.take(n as int).drop_last() =~= v@.take(n - 1));
            n = n - 1;
        }
        if n > 0 {
            assert(v@.take(n as int).last() == v@[n - 1]);
        }
        let p = part(v.as_slice(), 0, n);
        assert(p@ =~= v@.take(n as int));
        cat(text_of(p.as_slice()).as_str(), "/chat/completions")
    }

    /// What proves that the key is held.
    pub fn authorization(&self) -> (r: String)
        ensures
            r@ == "Bearer "@ + self.key@,
    {
        cat("Bearer ", self.key.as_str())
    }
}

/// A message as it is sent.
pub open spec fn sent(role: Seq<char>, content: Seq<char>) -> JsonTree {
    JsonTree::Object(seq![("role"@, JsonTree::Text(role)), ("content"@, JsonTree::Text(content))])
}

fn message_json(role: &str, content: &str) -> (r: Json)
    ensures
        r.tree() == sent(role@, content@),
{
    let r = Json::object().with("role", Json::text(role)).with("content", Json::text(content));
    assert(r.tree()->Object_0 =~= sent(role@, content@)->Object_0);
    r
}

/// How many messages of the past are sent.
pub const MEMORY: usize = 16;

/// The messages of the past that are sent.
pub open spec fn recent(history: Seq<Message>) -> Seq<Message> {
    if history.len() > MEMORY {
        history.skip(history.len() - MEMORY)
    } else {
        history
    }
}

pub open spec fn sent_all(messages: Seq<Message>) -> Seq<JsonTree> {
    messages.map_values(|m: Message| sent(m.role.called(), m.content))
}

/// The messages with which a conversation is opened.
pub open spec fn opening(system: Seq<char>, history: Seq<Message>, text: Seq<char>) -> Seq<JsonTree> {
    seq![sent("system"@, system)] + sent_all(recent(history)) + seq![sent("user"@, text)]
}

/// A call as it is sent back.
pub open spec fn sent_call(c: Call) -> JsonTree {
    JsonTree::Object(
        seq![
            ("id"@, JsonTree::Text(c.id)),
            ("type"@, JsonTree::Text("function"@)),
            (
                "function"@,
                JsonTree::Object(
                    seq![
                        ("name"@, JsonTree::Text(c.name)),
                        (
                            "arguments"@,
                            JsonTree::Text(
                                if c.args.len() == 0 {
                                    "{}"@
                                } else {
                                    c.args
                                },
                            ),
                        ),
                    ],
                ),
            ),
        ],
    )
}

pub open spec fn sent_calls(calls: Seq<Call>) -> Seq<JsonTree> {
    calls.map_values(|c: Call| sent_call(c))
}

/// An answer that asks for tools, as it is sent back.
pub open spec fn sent_answer(o: Outcome) -> JsonTree {
    JsonTree::Object(
        seq![
            ("role"@, JsonTree::Text("assistant"@)),
            ("content"@, JsonTree::Text(o.content)),
            ("tool_calls"@, JsonTree::Array(sent_calls(o.calls))),
        ],
    )
}

/// How much of the result of a tool is sent.
pub const RESULT_ROOM: usize = 6000;

/// The result of a tool as it is sent.
pub open spec fn sent_result(id: Seq<char>, result: Seq<char>) -> JsonTree {
    JsonTree::Object(
        seq![
            ("role"@, JsonTree::Text("tool"@)),
            ("tool_call_id"@, JsonTree::Text(id)),
            ("content"@, JsonTree::Text(clipped(result, RESULT_ROOM as int))),
        ],
    )
}

/// What is asked.
pub open spec fn request(model: Seq<char>, messages: Seq<JsonTree>, tools: bool, usage: bool) -> JsonTree {
    let plain = seq![
        ("model"@, JsonTree::Text(model)),
        ("messages"@, JsonTree::Array(messages)),
        ("stream"@, JsonTree::Bool(true)),
    ];
    let with_tools = if tools {
        plain.push(("tools"@, offers()))
    } else {
        plain
    };
    JsonTree::Object(
        if usage {
            with_tools.push(
                ("stream_options"@, JsonTree::Object(seq![("include_usage"@, JsonTree::Bool(true))])),
            )
        } else {
            with_tools
        },
    )
}

/// Some call has a name.
pub open spec fn asks_for_tools(calls: Seq<Call>) -> bool {
    exists|i: int| 0 <= i < calls.len() && (#[trigger] calls[i]).name.len() > 0
}

/// An error that may come from what was asked.
pub open spec fn blames_request(error: Seq<char>) -> bool {
    find(error, "400"@, 0) is Some
}

/// A conversation with a model.
#[derive(Debug)]
pub struct Agent {
    pub messages: Vec<Json>,
    /// Tools are offered.
    pub tools_enabled: bool,
    /// It is asked what the answer takes.
    pub usage_streaming: bool,
    /// What the answers took so far.
    pub usage_sum: Usage,
    /// Some answer said what it took.
    pub has_usage: bool,
}

/// What is next in a conversation.
#[derive(Debug)]
pub enum Next {
    /// To ask again.
    Again,
    /// To run the tools that the answer asks for, and then to ask again.
    RunTools,
    /// Nothing: it is over.
    Finished { error: Option<String>, usage: Option<Usage> },
}

/// What came of a question.
#[derive(Debug)]
pub enum Reply {
    /// No answer.
    Failed(String),
    /// An answer that was broken off.
    Cancelled,
    /// An answer, and what all answers cost with it.
    Answered(StreamOutcome, Scalar),
}

/// What an [`Agent`] holds.
pub struct Talk {
    pub messages: Seq<JsonTree>,
    pub tools_enabled: bool,
    pub usage_streaming: bool,
    pub usage_sum: Usage,
    pub has_usage: bool,
}

impl View for Agent {
    type V = Talk;

    open spec fn view(&self) -> Talk {
        Talk {
            messages: trees(self.messages@),
            tools_enabled: self.tools_enabled,
            usage_streaming: self.usage_streaming,
            usage_sum: self.usage_sum,
            has_usage: self.has_usage,
        }
    }
}

/// What a [`Reply`] says.
pub enum Said {
    Failed(Seq<char>),
    Cancelled,
    Answered(Outcome, Scalar),
}

impl View for Reply {
    type V = Said;

    open spec fn view(&self) -> Said {
        match self {
            Reply::Failed(e) => Said::Failed(e@),
            Reply::Cancelled => Said::Cancelled,
            Reply::Answered(o, cost) => Said::Answered(o@, *cost),
        }
    }
}

/// What is next, as [`Next`] says it.
pub enum Turn {
    Again,
    RunTools,
    Finished { error: Option<Seq<char>>, usage: Option<Usage> },
}

impl View for Next {
    type V = Turn;

    open spec fn view(&self) -> Turn {
        match self {
            Next::Again => Turn::Again,
            Next::RunTools => Turn::RunTools,
            Next::Finished { error, usage } => Turn::Finished { error: text_view(*error), usage: *usage },
        }
    }
}

/// What the answers took, with one more.
pub open spec fn usage_with(sum: Usage, o: Outcome, cost: Scalar) -> Usage {
    match o.usage {
        Some(u) => Usage {
            prompt: (sum.prompt + u.prompt) as u64,
            completion: (sum.completion + u.completion) as u64,
            total: (sum.total + u.total) as u64,
            cost,
        },
        None => sum,
    }
}

/// The tokens can be counted with those of one more answer.
pub open spec fn countable(sum: Usage, o: Outcome) -> bool {
    o.usage matches Some(u) ==> {
        &&& sum.prompt + u.prompt <= u64::MAX
        &&& sum.completion + u.completion <= u64::MAX
        &&& sum.total + u.total <= u64::MAX
    }
}

/// The tokens of a reply can be counted with those so far.
pub open spec fn can_follow(t: Talk, reply: Said) -> bool {
    reply matches Said::Answered(o, _) ==> countable(t.usage_sum, o)
}

impl Talk {
    /// What is told of what the answers took.
    pub open spec fn told(self) -> Option<Usage> {
        if self.has_usage {
            Some(self.usage_sum)
        } else {
            None
        }
    }

    /// How often it can still ask again for want of an answer.
    pub open spec fn patience(self) -> int {
        (if self.tools_enabled {
            1int
        } else {
            0
        }) + (if self.usage_streaming {
            1int
        } else {
            0
        })
    }

    /// What a reply makes of the conversation, and what is next.
    ///
    /// Where there is no answer and the request is to blame, it asks again: first without
    /// tools, then without asking what the answer takes. An answer that asks for no tool ends
    /// the conversation, and one that does is remembered.
    pub open spec fn after(self, reply: Said) -> (Talk, Turn) {
        match reply {
            Said::Failed(e) => if blames_request(e) && self.tools_enabled {
                (Talk { tools_enabled: false, ..self }, Turn::Again)
            } else if blames_request(e) && self.usage_streaming {
                (Talk { usage_streaming: false, ..self }, Turn::Again)
            } else {
                (self, Turn::Finished { error: Some(e), usage: self.told() })
            },
            Said::Cancelled => (self, Turn::Finished { error: None, usage: self.told() }),
            Said::Answered(o, cost) => {
                let counted = Talk {
                    usage_sum: usage_with(self.usage_sum, o, cost),
                    has_usage: self.has_usage || o.usage is Some,
                    ..self
                };
                if asks_for_tools(o.calls) {
                    (Talk { messages: self.messages.push(sent_answer(o)), ..counted }, Turn::RunTools)
                } else {
                    (counted, Turn::Finished { error: None, usage: counted.told() })
                }
            },
        }
    }

    /// The conversation with the result of a tool.
    pub open spec fn with_result(self, id: Seq<char>, result: Seq<char>) -> Talk {
        Talk { messages: self.messages.push(sent_result(id, result)), ..self }
    }
}

/// Nothing was taken so far.
pub open spec fn no_usage() -> Usage {
    Usage { prompt: 0, completion: 0, total: 0, cost: Scalar { bits: 0 } }
}

/// The conversation that starts with `text`, after `history`.
pub open spec fn opened(system: Seq<char>, history: Seq<Message>, text: Seq<char>) -> Talk {
    Talk {
        messages: opening(system, history, text),
        tools_enabled: true,
        usage_streaming: true,
        usage_sum: no_usage(),
        has_usage: false,
    }
}

impl Agent {
    /// The conversation that starts with `text`, after `history`.
    pub fn new(system: &str, history: &Vec<ChatMessage>, text: &str) -> (r: Agent)
        ensures
            r@ == opened(system@, message_views(history@), text@),
    {
        let mut messages: Vec<Json> = Vec::new();
        messages.push(message_json("system", system));
        let n: usize = history.len();
        let start: usize = if n > MEMORY {
            n - MEMORY
        } else {
            0
        };
        let ghost past = sent_all(recent(message_views(history@)));
        assert(trees(messages@) =~= seq![sent("system"@, system@)] + past.take(0));
        for i in start..n
            invariant
                n == history@.len(),
                start == (if n > MEMORY {
                    n - MEMORY
                } else {
                    0
                }),
                start <= i <= n,
                past == sent_all(recent(message_views(history@))),
                past.len() == n - start,
                trees(messages@) == seq![sent("system"@, system@)] + past.take(i - start),
        {
            let ghost before = trees(messages@);
            let m = message_json(history[i].role.api(), history[i].content.as_str());
            messages.push(m);
            assert(trees(messages@) =~= before.push(m.tree()));
            assert(past[i - start] == m.tree());
            assert(past.take(i + 1 - start) =~= past.take(i - start).push(past[i - start]));
            assert(trees(messages@) =~= seq![sent("system"@, system@)] + past.take(i + 1 - start));
        }
        assert(past.take(n - start) =~= past);
        let ghost before = trees(messages@);
        let last = message_json("user", text);
        messages.push(last);
        assert(trees(messages@) =~= before.push(last.tree()));
        assert(trees(messages@) =~= opening(system@, message_views(history@), text@));
        Agent {
            messages,
            tools_enabled: true,
            usage_streaming: true,
            usage_sum: Usage { prompt: 0, completion: 0, total: 0, cost: Scalar { bits: 0 } },
            has_usage: false,
        }
    }

    /// What is asked next.
    pub fn body(&self, model: &str) -> (r: Json)
        ensures
            r.tree() == request(model@, trees(self.messages@), self.tools_enabled, self.usage_streaming),
    {
        let messages = Json::array(copy_all(&self.messages));
        let mut body = Json::object().with("model", Json::text(model)).with("messages", messages).with(
            "stream",
            Json::Bool(true),
        );
        let ghost plain = seq![
            ("model"@, JsonTree::Text(model@)),
            ("messages"@, JsonTree::Array(trees(self.messages@))),
            ("stream"@, JsonTree::Bool(true)),
        ];
        assert(body.tree()->Object_0 =~= plain);
        if self.tools_enabled {
            body = body.with("tools", chat_tools_json());
        }
        if self.usage_streaming {
            let options = Json::object().with("include_usage", Json::Bool(true));
            assert(options.tree()->Object_0 =~= seq![("include_usage"@, JsonTree::Bool(true))]);
            body = body.with("stream_options", options);
        }
        body
    }

    /// Whether the tokens of an answer can be counted with those so far.
    pub fn can_count(&self, o: &StreamOutcome) -> (r: bool)
        ensures
            r == countable(self.usage_sum, o@),
    {
        match &o.usage {
            Some(u) => {
                assert(o@.usage == Some(u@));
                u.prompt <= u64::MAX - self.usage_sum.prompt && u.completion <= u64::MAX - self.usage_sum.completion
                    && u.total <= u64::MAX - self.usage_sum.total
            },
            None => true,
        }
    }

    fn usage_told(&self) -> (r: Option<Usage>)
        ensures
            r == self@.told(),
    {
        if self.has_usage {
            Some(self.usage_sum)
        } else {
            None
        }
    }

    /// Takes in what came of a question, and says what is next.
    pub fn next(&mut self, reply: &Reply) -> (r: Next)
        requires
            can_follow(old(self)@, reply@),
        ensures
            final(self)@ == old(self)@.after(reply@).0,
            r@ == old(self)@.after(reply@).1,
            r is Again ==> 0 <= final(self)@.patience() < old(self)@.patience(),
    {
        match reply {
            Reply::Failed(e) => {
                let v = chars_of(e.as_str());
                if find_text(v.as_slice(), "400", 0).is_some() {
                    if self.tools_enabled {
                        self.tools_enabled = false;
                        return Next::Again;
                    }
                    if self.usage_streaming {
                        self.usage_streaming = false;
                        return Next::Again;
                    }
                }
                Next::Finished { error: Some(e.clone()), usage: self.usage_told() }
            },
            Reply::Cancelled => Next::Finished { error: None, usage: self.usage_told() },
            Reply::Answered(o, cost) => {
                match &o.usage {
                    Some(u) => {
                        assert(o@.usage == Some(u@));
                        self.usage_sum = Usage {
                            prompt: self.usage_sum.prompt + u.prompt,
                            completion: self.usage_sum.completion + u.completion,
                            total: self.usage_sum.total + u.total,
                            cost: *cost,
                        };
                        self.has_usage = true;
                    },
                    None => {},
                }
                if named_calls(o).len() == 0 {
                    return Next::Finished { error: None, usage: self.usage_told() };
                }
                let ghost before = trees(self.messages@);
                let m = answer_json(o);
                self.messages.push(m);
                assert(trees(self.messages@) =~= before.push(m.tree()));
                Next::RunTools
            },
        }
    }

    /// Takes in the result of a tool.
    pub fn tool_done(&mut self, id: &str, result: &str)
        ensures
            final(self)@ == old(self)@.with_result(id@, result@),
    {
        let ghost before = trees(self.messages@);
        let content = clip(result, RESULT_ROOM);
        let m = Json::object().with("role", Json::text("tool")).with("tool_call_id", Json::text(id)).with(
            "content",
            Json::text(content.as_str()),
        );
        assert(m.tree()->Object_0 =~= sent_result(id@, result@)->Object_0);
        self.messages.push(m);
        assert(trees(self.messages@) =~= before.push(m.tree()));
    }
}

fn copy_all(v: &Vec<Json>) -> (r: Vec<Json>)
    ensures
        trees(r@) == trees(v@),
{
    let n: usize = v.len();
    let mut out: Vec<Json> = Vec::new();
    for i in 0..n
        invariant
            n == v@.len(),
            out@.len() == i,
            forall|j: int| 0 <= j < i ==> (#[trigger] out@[j]).tree() == v@[j].tree(),
    {
        out.push(v[i].copy());
    }
    assert(trees(out@) =~= trees(v@));
    out
}

fn call_json(c: &ToolCallAcc) -> (r: Json)
    ensures
        r.tree() == sent_call(c@),
{
    let args = if c.args.as_str().is_empty() {
        Json::text("{}")
    } else {
        Json::text(c.args.as_str())
    };
    let function = Json::object().with("name", Json::text(c.name.as_str())).with("arguments", args);
    assert(function.tree()->Object_0 =~= seq![("name"@, JsonTree::Text(c.name@)), ("arguments"@, args.tree())]);
    let r = Json::object().with("id", Json::text(c.id.as_str())).with("type", Json::text("function")).with(
        "function",
        function,
    );
    assert(r.tree()->Object_0 =~= seq![
        ("id"@, JsonTree::Text(c.id@)),
        ("type"@, JsonTree::Text("function"@)),
        ("function"@, function.tree()),
    ]);
    r
}

fn answer_json(o: &StreamOutcome) -> (r: Json)
    ensures
        r.tree() == sent_answer(o@),
{
    let n: usize = o.tool_calls.len();
    let mut calls: Vec<Json> = Vec::new();
    for i in 0..n
        invariant
            n == o.tool_calls@.len(),
            calls@.len() == i,
            forall|j: int| 0 <= j < i ==> (#[trigger] calls@[j]).tree() == sent_call(o.tool_calls@[j]@),
    {
        calls.push(call_json(&o.tool_calls[i]));
    }
    assert(trees(calls@) =~= sent_calls(o@.calls));
    let r = Json::object().with("role", Json::text("assistant")).with("content", Json::text(o.content.as_str())).with(
        "tool_calls",
        Json::array(calls),
    );
    assert(r.tree()->Object_0 =~= sent_answer(o@)->Object_0);
    r
}

/// The places of the calls that have a name.
pub open spec fn named(calls: Seq<Call>) -> Seq<int>
    decreases calls.len(),
{
    if calls.len() == 0 {
        Seq::empty()
    } else if calls.last().name.len() > 0 {
        named(calls.drop_last()).push(calls.len() - 1)
    } else {
        named(calls.drop_last())
    }
}

pub open spec fn places(v: Seq<usize>) -> Seq<int> {
    v.map_values(|i: usize| i as int)
}

/// The places of the calls that have a name: those are run, in that order.
pub fn named_calls(o: &StreamOutcome) -> (r: Vec<usize>)
    ensures
        places(r@) == named(o@.calls),
        (r@.len() > 0) == asks_for_tools(o@.calls),
        forall|i: int| 0 <= i < r@.len() ==> (#[trigger] r@[i]) < o.tool_calls@.len(),
{
    let n: usize = o.tool_calls.len();
    let ghost calls = call_views(o.tool_calls@);
    let mut out: Vec<usize> = Vec::new();
    assert(places(out@) =~= Seq::<int>::empty());
    for i in 0..n
        invariant
            n == o.tool_calls@.len(),
            calls == call_views(o.tool_calls@),
            places(out@) == named(calls.take(i as int)),
            forall|j: int| 0 <= j < out@.len() ==> (#[trigger] out@[j]) < n,
    {
        assert(calls.take(i + 1).drop_last() =~= calls.take(i as int));
        assert(calls.take(i + 1).last() == o.tool_calls@[i as int]@);
        if !o.tool_calls[i].name.as_str().is_empty() {
            let ghost before = places(out@);
            out.push(i);
            assert(places(out@) =~= before.push(i as int));
        }
    }
    assert(calls.take(n as int) =~= calls);
    proof {
        assert(places(out@).len() == out@.len());
        named_are_those_with_a_name(calls);
        if out@.len() > 0 {
            let k = named(calls)[0];
            assert(calls[k].name.len() > 0);
        }
        if asks_for_tools(calls) {
            let k = choose|k: int| 0 <= k < calls.len() && (#[trigger] calls[k]).name.len() > 0;
            assert(named(calls).contains(k));
        }
    }
    out
}

/// The calls that are run are those that have a name, each once and in their order.
pub proof fn named_are_those_with_a_name(calls: Seq<Call>)
    ensures
        forall|k: int| named(calls).contains(k) <==> 0 <= k < calls.len() && (#[trigger] calls[k]).name.len() > 0,
        forall|i: int, j: int| 0 <= i < j < named(calls).len() ==> named(calls)[i] < named(calls)[j],
    decreases calls.len(),
{
    if calls.len() > 0 {
        let less = calls.drop_last();
        named_are_those_with_a_name(less);
        let n = calls.len() - 1;
        let s = named(calls);
        assert forall|k: int| s.contains(k) <==> 0 <= k < calls.len() && (#[trigger] calls[k]).name.len() > 0 by {
            if 0 <= k < n {
                assert(less[k] == calls[k]);
            }
            assert(named(less).contains(k) <==> 0 <= k < less.len() && less[k].name.len() > 0);
            if calls.last().name.len() > 0 {
                assert(s == named(less).push(n));
                if k == n {
                    assert(s[s.len() - 1] == n);
                }
                if named(less).contains(k) {
                    let i = named(less).index_of(k);
                    assert(s[i] == k);
                }
                if s.contains(k) && k != n {
                    let i = choose|i: int| 0 <= i < s.len() && s[i] == k;
                    assert(named(less)[i] == k);
                }
            }
        }
        assert forall|i: int, j: int| 0 <= i < j < s.len() implies s[i] < s[j] by {
            if calls.last().name.len() > 0 {
                assert(s == named(less).push(n));
                assert(s[i] == named(less)[i]);
                if j == s.len() - 1 {
                    assert(named(less).contains(s[i]));
                    assert(less[s[i]].name.len() > 0);
                } else {
                    assert(s[j] == named(less)[j]);
                }
            }
        }
    }
}

/// A conversation is opened by the system message and ends in the question; of the past it
/// holds the last messages, in their order and never more than 16.
pub proof fn opening_is_bounded(system: Seq<char>, history: Seq<Message>, text: Seq<char>)
    ensures
        opening(system, history, text).len() <= MEMORY + 2,
        opening(system, history, text)[0] == sent("system"@, system),
        opening(system, history, text).last() == sent("user"@, text),
        forall|i: int|
            0 <= i < recent(history).len() ==> #[trigger] opening(system, history, text)[i + 1] == sent(
                history[history.len() - recent(history).len() + i].role.called(),
                history[history.len() - recent(history).len() + i].content,
            ),
{
    let o = opening(system, history, text);
    assert forall|i: int| 0 <= i < recent(history).len() implies #[trigger] o[i + 1] == sent(
        history[history.len() - recent(history).len() + i].role.called(),
        history[history.len() - recent(history).len() + i].content,
    ) by {
        assert(sent_all(recent(history))[i] == sent(recent(history)[i].role.called(), recent(history)[i].content));
    }
}

/// A reply that does not end the conversation, and the results of the tools that it asks for, in
/// the order in which they are run.
pub struct Exchange {
    pub reply: Said,
    pub results: Seq<Seq<char>>,
}

/// The conversation with the results of the first `n` tools that an answer asks for.
pub open spec fn with_results(t: Talk, calls: Seq<Call>, results: Seq<Seq<char>>, n: int) -> Talk
    decreases n,
{
    if n <= 0 {
        t
    } else {
        with_results(t, calls, results, n - 1).with_result(calls[named(calls)[n - 1]].id, results[n - 1])
    }
}

/// The conversation after one more exchange.
pub open spec fn exchanged(t: Talk, x: Exchange) -> Talk {
    let next = t.after(x.reply).0;
    match x.reply {
        Said::Answered(o, _) => with_results(next, o.calls, x.results, named(o.calls).len() as int),
        _ => next,
    }
}

/// The conversation after some exchanges.
pub open spec fn talked(t: Talk, all: Seq<Exchange>) -> Talk
    decreases all.len(),
{
    if all.len() == 0 {
        t
    } else {
        exchanged(talked(t, all.drop_last()), all.last())
    }
}

/// No exchange of some ends the conversation, and their tokens can be counted.
pub open spec fn goes_on(t: Talk, all: Seq<Exchange>) -> bool
    decreases all.len(),
{
    all.len() == 0 || {
        let before = talked(t, all.drop_last());
        &&& goes_on(t, all.drop_last())
        &&& can_follow(before, all.last().reply)
        &&& !(before.after(all.last().reply).1 is Finished)
    }
}

/// What a reply took.
pub open spec fn reply_usage(reply: Said) -> Option<Taken> {
    match reply {
        Said::Answered(o, _) => o.usage,
        _ => None,
    }
}

/// What the replies took that said so, field by field.
pub open spec fn sums(replies: Seq<Said>) -> (int, int, int)
    decreases replies.len(),
{
    if replies.len() == 0 {
        (0, 0, 0)
    } else {
        let (prompt, completion, total) = sums(replies.drop_last());
        match reply_usage(replies.last()) {
            Some(u) => (prompt + u.prompt, completion + u.completion, total + u.total),
            None => (prompt, completion, total),
        }
    }
}

/// What all answers cost, as the last reply that said what it took has it.
pub open spec fn last_cost(replies: Seq<Said>) -> Scalar
    decreases replies.len(),
{
    if replies.len() == 0 {
        no_usage().cost
    } else {
        match (replies.last(), reply_usage(replies.last())) {
            (Said::Answered(_, cost), Some(_)) => cost,
            _ => last_cost(replies.drop_last()),
        }
    }
}

/// Some reply said what it took.
pub open spec fn some_usage(replies: Seq<Said>) -> bool {
    exists|i: int| 0 <= i < replies.len() && reply_usage(#[trigger] replies[i]) is Some
}

pub open spec fn replies_of(all: Seq<Exchange>) -> Seq<Said> {
    all.map_values(|x: Exchange| x.reply)
}

/// How many replies were no answer.
pub open spec fn failures(replies: Seq<Said>) -> int
    decreases replies.len(),
{
    if replies.len() == 0 {
        0
    } else {
        failures(replies.drop_last()) + if replies.last() is Failed {
            1int
        } else {
            0
        }
    }
}

proof fn results_keep_counts(t: Talk, calls: Seq<Call>, results: Seq<Seq<char>>, n: int)
    ensures
        ({
            let r = with_results(t, calls, results, n);
            &&& r.tools_enabled == t.tools_enabled
            &&& r.usage_streaming == t.usage_streaming
            &&& r.usage_sum == t.usage_sum
            &&& r.has_usage == t.has_usage
        }),
    decreases n,
{
    if n > 0 {
        results_keep_counts(t, calls, results, n - 1);
    }
}

proof fn some_usage_grows(replies: Seq<Said>)
    requires
        replies.len() > 0,
    ensures
        some_usage(replies) == (some_usage(replies.drop_last()) || reply_usage(replies.last()) is Some),
{
    let less = replies.drop_last();
    if some_usage(less) {
        let i = choose|i: int| 0 <= i < less.len() && reply_usage(#[trigger] less[i]) is Some;
        assert(reply_usage(replies[i]) is Some);
    }
    if reply_usage(replies.last()) is Some {
        assert(reply_usage(replies[replies.len() - 1]) is Some);
    }
    if some_usage(replies) && reply_usage(replies.last()) is None {
        let i = choose|i: int| 0 <= i < replies.len() && reply_usage(#[trigger] replies[i]) is Some;
        assert(reply_usage(less[i]) is Some);
    }
}

/// The counts of a conversation are those of its replies.
spec fn counts_are(t: Talk, replies: Seq<Said>) -> bool {
    &&& (t.usage_sum.prompt as int, t.usage_sum.completion as int, t.usage_sum.total as int) == sums(replies)
    &&& t.usage_sum.cost == last_cost(replies)
    &&& t.has_usage == some_usage(replies)
}

proof fn reply_is_counted(t: Talk, replies: Seq<Said>, reply: Said)
    requires
        counts_are(t, replies),
        can_follow(t, reply),
    ensures
        counts_are(t.after(reply).0, replies.push(reply)),
{
    let all = replies.push(reply);
    assert(all.drop_last() =~= replies);
    some_usage_grows(all);
}

proof fn exchanges_are_counted(start: Talk, all: Seq<Exchange>)
    requires
        goes_on(start, all),
        start.usage_sum == no_usage(),
        !start.has_usage,
        start.tools_enabled,
        start.usage_streaming,
    ensures
        counts_are(talked(start, all), replies_of(all)),
        failures(replies_of(all)) + talked(start, all).patience() == 2,
    decreases all.len(),
{
    if all.len() > 0 {
        let less = all.drop_last();
        let x = all.last();
        exchanges_are_counted(start, less);
        let before = talked(start, less);
        reply_is_counted(before, replies_of(less), x.reply);
        assert(replies_of(all) =~= replies_of(less).push(x.reply));
        assert(replies_of(all).drop_last() =~= replies_of(less));
        if let Said::Answered(o, _) = x.reply {
            results_keep_counts(before.after(x.reply).0, o.calls, x.results, named(o.calls).len() as int);
        }
    }
}

/// At the end of a conversation, what is told of what it took is the sum over all replies that
/// said so, field by field, and nothing where none did; the cost is the one that came with the
/// last of them. The error is that of the last reply. Before the end it asked again for want of
/// an answer at most twice.
pub proof fn end_sums_the_conversation(
    system: Seq<char>,
    history: Seq<Message>,
    text: Seq<char>,
    all: Seq<Exchange>,
    last: Said,
)
    requires
        goes_on(opened(system, history, text), all),
        can_follow(talked(opened(system, history, text), all), last),
        talked(opened(system, history, text), all).after(last).1 is Finished,
    ensures
        ({
            let replies = replies_of(all).push(last);
            let (prompt, completion, total) = sums(replies);
            talked(opened(system, history, text), all).after(last).1 matches Turn::Finished { error, usage } && {
                &&& error == (match last {
                    Said::Failed(e) => Some(e),
                    _ => None,
                })
                &&& usage is Some == some_usage(replies)
                &&& usage matches Some(u) ==> {
                    &&& u.prompt == prompt
                    &&& u.completion == completion
                    &&& u.total == total
                    &&& u.cost == last_cost(replies)
                }
            }
        }),
        failures(replies_of(all)) <= 2,
{
    let start = opened(system, history, text);
    exchanges_are_counted(start, all);
    reply_is_counted(talked(start, all), replies_of(all), last);
}

/// What an exchange adds to the messages: an answer that asks for tools, and behind it the result
/// of each of them, in their order.
pub open spec fn exchange_messages(x: Exchange) -> Seq<JsonTree> {
    match x.reply {
        Said::Answered(o, _) => seq![sent_answer(o)] + Seq::new(
            named(o.calls).len(),
            |k: int| sent_result(o.calls[named(o.calls)[k]].id, x.results[k]),
        ),
        _ => Seq::empty(),
    }
}

/// What exchanges add to the messages.
pub open spec fn added_messages(all: Seq<Exchange>) -> Seq<JsonTree>
    decreases all.len(),
{
    if all.len() == 0 {
        Seq::empty()
    } else {
        added_messages(all.drop_last()) + exchange_messages(all.last())
    }
}

proof fn results_are_sent(t: Talk, calls: Seq<Call>, results: Seq<Seq<char>>, n: int)
    requires
        0 <= n,
    ensures
        with_results(t, calls, results, n).messages == t.messages + Seq::new(
            n as nat,
            |k: int| sent_result(calls[named(calls)[k]].id, results[k]),
        ),
    decreases n,
{
    let all = Seq::new(n as nat, |k: int| sent_result(calls[named(calls)[k]].id, results[k]));
    if n > 0 {
        results_are_sent(t, calls, results, n - 1);
        let less = Seq::new((n - 1) as nat, |k: int| sent_result(calls[named(calls)[k]].id, results[k]));
        assert(t.messages + all =~= (t.messages + less).push(all[n - 1]));
    } else {
        assert(t.messages + all =~= t.messages);
    }
}

/// What is sent with a question is how the conversation was opened, and behind it each answer
/// that asked for tools with the results of these, in their order. A reply that was no answer
/// adds nothing.
pub proof fn conversation_is_sent(t: Talk, all: Seq<Exchange>)
    requires
        goes_on(t, all),
    ensures
        talked(t, all).messages == t.messages + added_messages(all),
    decreases all.len(),
{
    if all.len() == 0 {
        assert(t.messages + added_messages(all) =~= t.messages);
    } else {
        let less = all.drop_last();
        let x = all.last();
        conversation_is_sent(t, less);
        let before = talked(t, less);
        if let Said::Answered(o, _) = x.reply {
            results_are_sent(before.after(x.reply).0, o.calls, x.results, named(o.calls).len() as int);
        }
        assert(talked(t, all).messages =~= t.messages + added_messages(all));
    }
}

/// Of the past the last 16 messages are sent, or all where there are fewer.
pub proof fn last_messages_are_sent(p: Seq<Message>, q: Seq<Message>)
    ensures
        q.len() <= 16 ==> recent(q) == q,
        q.len() == 16 ==> recent(p + q) == q,
{
    if q.len() == 16 {
        assert(recent(p + q) =~= q);
    }
}

/// An error that speaks of status 400 anywhere is blamed on the request, and no other.
pub proof fn bad_requests_are_told_by_400(a: Seq<char>, b: Seq<char>, error: Seq<char>)
    ensures
        blames_request(a + "400"@ + b),
        blames_request(error) ==> exists|i: int|
            0 <= i && i + 3 <= error.len() && #[trigger] error.subrange(i, i + 3) == "400"@,
{
    reveal_strlit("400");
    assert("400"@.len() == 3);
    let all = a + "400"@ + b;
    let n = a.len() as int;
    find_is_first(all, "400"@, 0);
    assert(all.subrange(n, n + 3) =~= "400"@);
    assert(matches_at(all, n, "400"@));
    find_is_first(error, "400"@, 0);
    if let Some(i) = find(error, "400"@, 0) {
        assert(error.subrange(i, i + 3) == "400"@);
    }
}

/// Slashes at the end of an address make no difference.
pub proof fn slashes_at_the_end_go(s: Seq<char>)
    ensures
        without_slashes(s.push('/')) == without_slashes(s),
        s.len() > 0 && s.last() != '/' ==> without_slashes(s) == s,
{
    assert(s.push('/').drop_last() =~= s);
}

/// Of the result of a tool the first 6000 characters are sent, under the id of its call.
pub proof fn results_are_sent_under_their_ids(id: Seq<char>, result: Seq<char>)
    ensures
        sent_result(id, result).at("role"@) == JsonTree::Text("tool"@),
        sent_result(id, result).at("tool_call_id"@) == JsonTree::Text(id),
        sent_result(id, result).at("content"@) matches JsonTree::Text(t) && t.is_prefix_of(result) && t.len() == (
        if result.len() <= 6000 {
            result.len()
        } else {
            6000
        }),
{
    let m = sent_result(id, result)->Object_0;
    reveal_strlit("role");
    reveal_strlit("tool_call_id");
    reveal_strlit("content");
    assert("role"@.len() == 4 && "tool_call_id"@.len() == 12 && "content"@.len() == 7);
    let none = Seq::<(Seq<char>, JsonTree)>::empty();
    assert(m =~= none + seq![m[0]] + m.skip(1));
    member_is_found(none, "role"@, m[0].1, m.skip(1));
    assert(m =~= m.take(1) + seq![m[1]] + m.skip(2));
    member_is_found(m.take(1), "tool_call_id"@, m[1].1, m.skip(2));
    assert(m =~= m.take(2) + seq![m[2]] + none);
    member_is_found(m.take(2), "content"@, m[2].1, none);
}

/// A message is sent with its role and its content.
pub proof fn messages_are_sent_with_their_roles(role: Seq<char>, content: Seq<char>)
    ensures
        sent(role, content).at("role"@) == JsonTree::Text(role),
        sent(role, content).at("content"@) == JsonTree::Text(content),
{
    let m = sent(role, content)->Object_0;
    reveal_strlit("role");
    reveal_strlit("content");
    assert("role"@.len() == 4 && "content"@.len() == 7);
    let none = Seq::<(Seq<char>, JsonTree)>::empty();
    assert(m =~= none + seq![m[0]] + m.skip(1));
    member_is_found(none, "role"@, m[0].1, m.skip(1));
    assert(m =~= m.take(1) + seq![m[1]] + none);
    member_is_found(m.take(1), "content"@, m[1].1, none);
}

} // verus!
