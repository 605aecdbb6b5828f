//! The messages of the chat, and how they are stored.

use vstd::prelude::*;
use vstd::string::*;
use crate::decimal::{decimal, decimal_spells, is_digit, natural_text, printed_number_reads_back, read_natural, read_natural_text};
use crate::scalar::Scalar;
use crate::text::{blank, chars_of, find_char, find_char_is_first, join, joined, joined_begins_with_the_first, lines, lines_of, pieces, split, text_is, text_view, trim_text, trimmed, views, without_cr};

verus! {

/// The model that is used where none is named.
pub open spec fn default_model() -> Seq<char> {
    "openai/gpt-4o-mini"@
}

/// The models that are offered, from the list of their names: one on each line that is not
/// empty.
pub fn model_presets(list: &str) -> (r: Vec<String>)
    ensures
        views(r@) == not_empty(lines_of(list@)),
{
    full_lines(list)
}

/// Whether a model is one of those offered.
pub fn is_preset(model: &str, offered: &Vec<String>) -> (r: bool)
    ensures
        r == views(offered@).contains(model@),
{
    let n: usize = offered.len();
    let ghost names = views(offered@);
    for i in 0..n
        invariant
            n == offered@.len(),
            names == views(offered@),
            forall|j: int| 0 <= j < i ==> names[j] != model@,
    {
        assert(names[i as int] == offered@[i as int]@);
        if text_is(offered[i].as_str(), model) {
            return true;
        }
    }
    false
}

/// The model that a choice stands for.
pub open spec fn resolved(model: Seq<char>) -> Seq<char> {
    if trimmed(model).len() == 0 {
        default_model()
    } else {
        trimmed(model)
    }
}

/// The model that a choice stands for: the choice without white space around it, or the usual
/// one where it is blank.
pub fn resolve_model(model: &str) -> (r: String)
    ensures
        r@ == resolved(model@),
{
    if blank(model) {
        String::from_str("openai/gpt-4o-mini")
    } else {
        trim_text(model)
    }
}

#[derive(Clone, Copy, PartialEq, Eq, Structural, Debug)]
pub enum ChatRole {
    User,
    Assistant,
}

impl ChatRole {
    /// The name of a role.
    pub open spec fn called(self) -> Seq<char> {
        match self {
            ChatRole::User => "user"@,
            ChatRole::Assistant => "assistant"@,
        }
    }

    /// The name under which a role is sent and stored.
    pub fn api(&self) -> (r: &'static str)
        ensures
            r@ == self.called(),
    {
        match self {
            ChatRole::User => "user",
            ChatRole::Assistant => "assistant",
        }
    }

    /// What stands before a message of a role.
    pub fn prefix(&self) -> (r: &'static str)
        ensures
            r@ == (match self {
                ChatRole::User => "* you"@,
                ChatRole::Assistant => "* ai"@,
            }),
    {
        match self {
            ChatRole::User => "* you",
            ChatRole::Assistant => "* ai",
        }
    }

    /// The role that is stored under a name.
    pub fn from_stored(name: &str) -> (r: ChatRole)
        ensures
            r == (if name@ == "user"@ {
                ChatRole::User
            } else {
                ChatRole::Assistant
            }),
    {
        if text_is(name, "user") {
            ChatRole::User
        } else {
            ChatRole::Assistant
        }
    }
}

/// What an answer took.
#[derive(Clone, Copy, PartialEq, Eq, Structural, Debug)]
pub struct Usage {
    pub prompt: u64,
    pub completion: u64,
    pub total: u64,
    pub cost: Scalar,
}

/// A message of the chat.
#[derive(Debug)]
pub struct ChatMessage {
    pub role: ChatRole,
    pub content: String,
    pub reasoning: String,
    pub tool_log: Vec<String>,
    pub usage: Option<Usage>,
}

/// What a [`ChatMessage`] says.
pub struct Message {
    pub role: ChatRole,
    pub content: Seq<char>,
    pub reasoning: Seq<char>,
    pub tool_log: Seq<Seq<char>>,
    pub usage: Option<Usage>,
}

impl View for ChatMessage {
    type V = Message;

    open spec fn view(&self) -> Message {
        Message {
            role: self.role,
            content: self.content@,
            reasoning: self.reasoning@,
            tool_log: views(self.tool_log@),
            usage: self.usage,
        }
    }
}

pub open spec fn message_views(v: Seq<ChatMessage>) -> Seq<Message> {
    v.map_values(|m: ChatMessage| m@)
}

/// A copy of a list of texts.
pub fn copy_texts(v: &Vec<String>) -> (r: Vec<String>)
    ensures
        views(r@) == views(v@),
{
    let n: usize = v.len();
    let mut out: Vec<String> = Vec::new();
    for i in 0..n
        invariant
            n == v@.len(),
            views(out@) == views(v@).take(i as int),
    {
        let ghost prior = views(out@);
        let s = v[i].clone();
        out.push(s);
        assert(views(out@) =~= prior.push(s@));
        assert(views(v@).take(i + 1) =~= views(v@).take(i as int).push(views(v@)[i as int]));
    }
    assert(views(v@).take(n as int) =~= views(v@));
    out
}

impl ChatMessage {
    /// A copy of the message.
    pub fn copy(&self) -> (r: ChatMessage)
        ensures
            r@ == self@,
    {
        ChatMessage {
            role: self.role,
            content: self.content.clone(),
            reasoning: self.reasoning.clone(),
            tool_log: copy_texts(&self.tool_log),
            usage: self.usage,
        }
    }
}

/// The conversation, and the answer that is coming in.
#[derive(Debug)]
pub struct ChatState {
    pub messages: Vec<ChatMessage>,
    /// What is being written.
    pub input: String,
    /// An answer is awaited.
    pub busy: bool,
    pub error: Option<String>,
    /// The model that was chosen.
    pub model: String,
    pub stream_content: String,
    pub stream_reasoning: String,
    pub stream_tool_lines: Vec<String>,
    pub cost_total: Scalar,
    pub tok_total: u64,
}

/// What a [`ChatState`] holds.
pub struct Chat {
    pub messages: Seq<Message>,
    pub input: Seq<char>,
    pub busy: bool,
    pub error: Option<Seq<char>>,
    pub model: Seq<char>,
    pub content: Seq<char>,
    pub reasoning: Seq<char>,
    pub tool_lines: Seq<Seq<char>>,
    pub cost_total: Scalar,
    pub tok_total: u64,
}

impl View for ChatState {
    type V = Chat;

    open spec fn view(&self) -> Chat {
        Chat {
            messages: message_views(self.messages@),
            input: self.input@,
            busy: self.busy,
            error: text_view(self.error),
            model: self.model@,
            content: self.stream_content@,
            reasoning: self.stream_reasoning@,
            tool_lines: views(self.stream_tool_lines@),
            cost_total: self.cost_total,
            tok_total: self.tok_total,
        }
    }
}

impl Chat {
    /// The answer as far as it came in.
    pub open spec fn live(self, usage: Option<Usage>) -> Message {
        Message {
            role: ChatRole::Assistant,
            content: self.content,
            reasoning: self.reasoning,
            tool_log: self.tool_lines,
            usage,
        }
    }

    /// Something of an answer came in, or one is awaited.
    pub open spec fn active(self) -> bool {
        self.busy || self.content.len() > 0 || self.reasoning.len() > 0 || self.tool_lines.len() > 0
    }

    /// After an answer came to its end. One that failed stays where it came in; any other is
    /// put behind the messages. What it took is added up.
    pub open spec fn done(self, error: Option<Seq<char>>, usage: Option<Usage>, cost: Scalar) -> Chat {
        let counted = match usage {
            Some(u) => Chat { cost_total: cost, tok_total: (self.tok_total + u.total) as u64, ..self },
            None => self,
        };
        match error {
            Some(e) => Chat { error: Some(e), busy: false, ..counted },
            None => Chat {
                messages: self.messages.push(self.live(usage)),
                content: Seq::empty(),
                reasoning: Seq::empty(),
                tool_lines: Seq::empty(),
                busy: false,
                ..counted
            },
        }
    }

    /// A question that can be asked was written.
    pub open spec fn ready(self) -> bool {
        !self.busy && trimmed(self.input).len() > 0
    }

    /// The message with what was written.
    pub open spec fn question(self) -> Message {
        Message {
            role: ChatRole::User,
            content: trimmed(self.input),
            reasoning: Seq::empty(),
            tool_log: Seq::empty(),
            usage: None,
        }
    }

    /// After what was written is put behind the messages.
    pub open spec fn asked(self) -> Chat {
        Chat {
            messages: self.messages.push(self.question()),
            input: Seq::empty(),
            error: None,
            content: Seq::empty(),
            reasoning: Seq::empty(),
            tool_lines: Seq::empty(),
            ..self
        }
    }

    /// After the conversation was cleared.
    pub open spec fn cleared(self) -> Chat {
        Chat {
            messages: Seq::empty(),
            error: None,
            cost_total: Scalar { bits: 0 },
            tok_total: 0,
            content: Seq::empty(),
            reasoning: Seq::empty(),
            tool_lines: Seq::empty(),
            ..self
        }
    }
}

proof fn nothing_said(c: ChatState)
    requires
        c.stream_content@.len() == 0,
        c.stream_reasoning@.len() == 0,
        c.stream_tool_lines@.len() == 0,
    ensures
        c@.content == Seq::<char>::empty(),
        c@.reasoning == Seq::<char>::empty(),
        c@.tool_lines == Seq::<Seq<char>>::empty(),
{
    assert(c@.content =~= Seq::<char>::empty());
    assert(c@.reasoning =~= Seq::<char>::empty());
    assert(c@.tool_lines =~= Seq::<Seq<char>>::empty());
}

impl ChatState {
    /// The conversation at the start, with what was stored of it. Where no model was stored,
    /// the first of those offered is chosen; a count that cannot be read is 0.
    pub fn restore(messages: Vec<ChatMessage>, model: &str, tokens: &str, cost_total: Scalar) -> (r: ChatState)
        ensures
            r@ == (Chat {
                messages: message_views(messages@),
                input: Seq::empty(),
                busy: false,
                error: None,
                model: if model@.len() == 0 {
                    default_model()
                } else {
                    model@
                },
                content: Seq::empty(),
                reasoning: Seq::empty(),
                tool_lines: Seq::empty(),
                cost_total,
                tok_total: stored_count(tokens@),
            }),
    {
        let model = if model.is_empty() {
            String::from_str("openai/gpt-4o-mini")
        } else {
            String::from_str(model)
        };
        let r = ChatState {
            messages,
            input: String::new(),
            busy: false,
            error: None,
            model,
            stream_content: String::new(),
            stream_reasoning: String::new(),
            stream_tool_lines: Vec::new(),
            cost_total,
            tok_total: read_count(tokens),
        };
        proof {
            nothing_said(r);
        }
        assert(r@.input =~= Seq::<char>::empty());
        r
    }

    /// The answer as far as it came in, while something of it did or one is awaited.
    pub fn live_message(&self) -> (r: Option<ChatMessage>)
        ensures
            r is Some == self@.active(),
            r matches Some(m) ==> m@ == self@.live(None),
    {
        assert(views(self.stream_tool_lines@).len() == self.stream_tool_lines@.len());
        if self.busy || !self.stream_content.as_str().is_empty() || !self.stream_reasoning.as_str().is_empty()
            || self.stream_tool_lines.len() > 0 {
            Some(
                ChatMessage {
                    role: ChatRole::Assistant,
                    content: self.stream_content.clone(),
                    reasoning: self.stream_reasoning.clone(),
                    tool_log: copy_texts(&self.stream_tool_lines),
                    usage: None,
                },
            )
        } else {
            None
        }
    }

    /// Takes in a piece of the answer.
    pub fn take_content(&mut self, piece: &str)
        ensures
            final(self)@ == (Chat { content: old(self)@.content + piece@, ..old(self)@ }),
    {
        self.stream_content.append(piece);
    }

    /// Takes in a piece of the reasoning.
    pub fn take_reasoning(&mut self, piece: &str)
        ensures
            final(self)@ == (Chat { reasoning: old(self)@.reasoning + piece@, ..old(self)@ }),
    {
        self.stream_reasoning.append(piece);
    }

    /// Takes in a line that tells of the use of a tool.
    pub fn take_tool_line(&mut self, line: String)
        ensures
            final(self)@ == (Chat { tool_lines: old(self)@.tool_lines.push(line@), ..old(self)@ }),
    {
        let ghost before = views(self.stream_tool_lines@);
        self.stream_tool_lines.push(line);
        assert(views(self.stream_tool_lines@) =~= before.push(line@));
    }

    /// Takes in the end of an answer: why it failed, if it did, what it took, and what all
    /// answers cost with it. Gives the message that was put behind the others.
    pub fn take_done(&mut self, error: Option<String>, usage: Option<Usage>, cost: Scalar) -> (r: Option<ChatMessage>)
        requires
            usage matches Some(u) ==> old(self).tok_total + u.total <= u64::MAX,
        ensures
            final(self)@ == old(self)@.done(text_view(error), usage, cost),
            r is Some == error is None,
            r matches Some(m) ==> m@ == old(self)@.live(usage),
    {
        let ghost before = self@;
        if let Some(u) = usage {
            self.cost_total = cost;
            self.tok_total = self.tok_total + u.total;
        }
        self.busy = false;
        match error {
            Some(e) => {
                self.error = Some(e);
                None
            },
            None => {
                let content = self.stream_content.clone();
                let reasoning = self.stream_reasoning.clone();
                let tool_log = copy_texts(&self.stream_tool_lines);
                let msg = ChatMessage { role: ChatRole::Assistant, content, reasoning, tool_log, usage };
                self.stream_content = String::new();
                self.stream_reasoning = String::new();
                self.stream_tool_lines = Vec::new();
                let copy = msg.copy();
                self.messages.push(msg);
                assert(self@.messages =~= before.messages.push(msg@));
                proof {
                    nothing_said(*self);
                }
                Some(copy)
            },
        }
    }

    /// Puts what was written behind the messages, if it is a question that can be asked, and
    /// gives that message.
    pub fn ask(&mut self) -> (r: Option<ChatMessage>)
        ensures
            r is Some == old(self)@.ready(),
            r matches Some(m) ==> m@ == old(self)@.question() && final(self)@ == old(self)@.asked(),
            r is None ==> final(self)@ == old(self)@,
    {
        if self.busy || blank(self.input.as_str()) {
            return None;
        }
        let ghost before = self@;
        let content = trim_text(self.input.as_str());
        let msg = ChatMessage {
            role: ChatRole::User,
            content,
            reasoning: String::new(),
            tool_log: Vec::new(),
            usage: None,
        };
        assert(msg@.reasoning =~= Seq::<char>::empty());
        assert(msg@.tool_log =~= Seq::<Seq<char>>::empty());
        self.input = String::new();
        self.error = None;
        self.stream_content = String::new();
        self.stream_reasoning = String::new();
        self.stream_tool_lines = Vec::new();
        let copy = msg.copy();
        self.messages.push(msg);
        assert(self@.messages =~= before.messages.push(msg@));
        assert(self@.input =~= Seq::<char>::empty());
        proof {
            nothing_said(*self);
        }
        Some(copy)
    }

    /// Clears the conversation. What is being written stays.
    pub fn clear(&mut self)
        ensures
            final(self)@ == old(self)@.cleared(),
    {
        self.messages = Vec::new();
        self.error = None;
        self.cost_total = Scalar { bits: 0 };
        self.tok_total = 0;
        self.stream_content = String::new();
        self.stream_reasoning = String::new();
        self.stream_tool_lines = Vec::new();
        assert(self@.messages =~= Seq::<Message>::empty());
        proof {
            nothing_said(*self);
        }
    }

    /// Copies of the messages but the last.
    pub fn history(&self) -> (r: Vec<ChatMessage>)
        ensures
            message_views(r@) == (if self@.messages.len() == 0 {
                self@.messages
            } else {
                self@.messages.drop_last()
            }),
    {
        let n: usize = self.messages.len();
        let m: usize = if n == 0 {
            0
        } else {
            n - 1
        };
        let mut out: Vec<ChatMessage> = Vec::new();
        for i in 0..m
            invariant
                m <= n,
                n == self.messages@.len(),
                out@.len() == i,
                forall|j: int| 0 <= j < i ==> (#[trigger] out@[j])@ == self.messages@[j]@,
        {
            out.push(self.messages[i].copy());
        }
        assert(message_views(out@) =~= self@.messages.take(m as int));
        if n > 0 {
            assert(self@.messages.take(m as int) =~= self@.messages.drop_last());
        } else {
            assert(message_views(out@) =~= self@.messages);
        }
        out
    }
}

/// So many dots.
pub open spec fn dots(n: int) -> Seq<char> {
    Seq::new(
        if n < 0 {
            0
        } else {
            n as nat
        },
        |i: int| '.',
    )
}

/// What is shown while an answer is awaited, at the `beat`-th beat: none to three dots come and
/// go.
pub fn thinking(beat: usize) -> (r: String)
    ensures
        r@ == "* thinking"@ + dots(beat as int % 4),
{
    let mut t = String::from_str("* thinking");
    let n: usize = beat % 4;
    assert(t@ =~= "* thinking"@ + dots(0));
    for i in 0..n
        invariant
            t@ == "* thinking"@ + dots(i as int),
    {
        t.push('.');
        assert(t@ =~= "* thinking"@ + dots(i + 1));
    }
    t
}

/// An answer that came in whole is the last message, and nothing of it is left behind.
pub proof fn answer_is_kept(c: Chat, usage: Option<Usage>, cost: Scalar)
    ensures
        c.done(None, usage, cost).messages.last() == c.live(usage),
        !c.done(None, usage, cost).active(),
        c.done(None, usage, cost).messages.drop_last() == c.messages,
{
    assert(c.done(None, usage, cost).messages.drop_last() =~= c.messages);
}

/// An answer that failed changes none of the messages, and what came in of it stays in sight.
pub proof fn failure_keeps_messages(c: Chat, error: Seq<char>, usage: Option<Usage>, cost: Scalar)
    ensures
        c.done(Some(error), usage, cost).messages == c.messages,
        c.done(Some(error), usage, cost).content == c.content,
        c.done(Some(error), usage, cost).error == Some(error),
        !c.done(Some(error), usage, cost).busy,
{
}

/// What was stored of the usage of an answer. The cost is left as text.
#[derive(Debug)]
pub struct StoredUsage {
    pub prompt: u64,
    pub completion: u64,
    pub total: u64,
    pub cost: String,
}

/// The stored form of a usage.
pub open spec fn usage_form(prompt: u64, completion: u64, total: u64, cost: Seq<char>) -> Seq<char> {
    decimal(prompt as nat) + seq!['|'] + decimal(completion as nat) + seq!['|'] + decimal(total as nat) + seq![
        '|',
    ] + cost
}

/// The stored form of a usage: the three counts and the cost, with bars between.
pub fn usage_text(u: &Usage, cost: &str) -> (r: String)
    ensures
        r@ == usage_form(u.prompt, u.completion, u.total, cost@),
{
    let mut s = natural_text(u.prompt);
    s.push('|');
    s.append(natural_text(u.completion).as_str());
    s.push('|');
    s.append(natural_text(u.total).as_str());
    s.push('|');
    s.append(cost);
    assert(s@ =~= usage_form(u.prompt, u.completion, u.total, cost@));
    s
}

/// A count as it was stored, and 0 where it is none.
pub open spec fn stored_count(s: Seq<char>) -> u64 {
    match read_natural(s) {
        Some(n) => n,
        None => 0,
    }
}

fn read_count(s: &str) -> (r: u64)
    ensures
        r == stored_count(s@),
{
    match read_natural_text(s) {
        Some(n) => n,
        None => 0,
    }
}

/// The usage that a text stores: there is one where the text has four parts.
pub fn read_usage(s: &str) -> (r: Option<StoredUsage>)
    ensures
        r is Some == (pieces(s@, '|').len() == 4),
        r matches Some(u) ==> {
            &&& u.prompt == stored_count(pieces(s@, '|')[0])
            &&& u.completion == stored_count(pieces(s@, '|')[1])
            &&& u.total == stored_count(pieces(s@, '|')[2])
            &&& u.cost@ == pieces(s@, '|')[3]
        },
{
    let v = chars_of(s);
    let parts = split(v.as_slice(), '|');
    assert(views(parts@).len() == parts@.len());
    if parts.len() == 4 {
        assert(views(parts@)[0] == parts@[0]@ && views(parts@)[1] == parts@[1]@ && views(parts@)[2]
            == parts@[2]@ && views(parts@)[3] == parts@[3]@);
        Some(
            StoredUsage {
                prompt: read_count(parts[0].as_str()),
                completion: read_count(parts[1].as_str()),
                total: read_count(parts[2].as_str()),
                cost: parts[3].clone(),
            },
        )
    } else {
        None
    }
}

/// The stored form of a tool log: its lines.
pub fn tool_log_text(log: &Vec<String>) -> (r: String)
    ensures
        r@ == joined(views(log@), "\n"@),
{
    join(log, "\n")
}

/// The texts of `s` that are not empty.
pub open spec fn not_empty(s: Seq<Seq<char>>) -> Seq<Seq<char>>
    decreases s.len(),
{
    if s.len() == 0 {
        s
    } else if s.last().len() > 0 {
        not_empty(s.drop_last()).push(s.last())
    } else {
        not_empty(s.drop_last())
    }
}

/// The tool log that a text stores: its lines that are not empty.
pub fn read_tool_log(s: &str) -> (r: Vec<String>)
    ensures
        views(r@) == not_empty(lines_of(s@)),
{
    full_lines(s)
}

fn full_lines(s: &str) -> (r: Vec<String>)
    ensures
        views(r@) == not_empty(lines_of(s@)),
{
    let v = chars_of(s);
    let all = lines(v.as_slice());
    let n: usize = all.len();
    let ghost lv = views(all@);
    let mut out: Vec<String> = Vec::new();
    assert(views(out@) =~= Seq::<Seq<char>>::empty());
    for i in 0..n
        invariant
            n == all@.len(),
            lv == views(all@),
            views(out@) == not_empty(lv.take(i as int)),
    {
        assert(lv.take(i + 1).drop_last() =~= lv.take(i as int));
        assert(lv.take(i + 1).last() == all@[i as int]@);
        if !all[i].as_str().is_empty() {
            let ghost prior = views(out@);
            let s = all[i].clone();
            out.push(s);
            assert(views(out@) =~= prior.push(s@));
        }
    }
    assert(lv.take(n as int) =~= lv);
    out
}

proof fn pieces_of_joint(a: Seq<char>, c: char, b: Seq<char>)
    requires
        !a.contains(c),
    ensures
        pieces(a + seq![c] + b, c) == seq![a] + pieces(b, c),
{
    let s = a + seq![c] + b;
    find_char_is_first(s, c, 0);
    assert(s[a.len() as int] == c);
    let i = find_char(s, c, 0)->0;
    if i < a.len() {
        assert(s[i] == a[i]);
        assert(a.contains(c));
    }
    assert(i == a.len());
    assert(s.take(i) =~= a);
    assert(s.skip(i + 1) =~= b);
}

proof fn digits_hold_no_bar(n: nat)
    ensures
        !decimal(n).contains('|'),
{
    decimal_spells(n);
    if decimal(n).contains('|') {
        let i = choose|i: int| 0 <= i < decimal(n).len() && decimal(n)[i] == '|';
        assert(is_digit(decimal(n)[i]));
    }
}

/// A stored usage comes back as it was, as long as its cost is written without a bar.
pub proof fn usage_comes_back(prompt: u64, completion: u64, total: u64, cost: Seq<char>)
    requires
        !cost.contains('|'),
    ensures
        pieces(usage_form(prompt, completion, total, cost), '|').len() == 4,
        stored_count(pieces(usage_form(prompt, completion, total, cost), '|')[0]) == prompt,
        stored_count(pieces(usage_form(prompt, completion, total, cost), '|')[1]) == completion,
        stored_count(pieces(usage_form(prompt, completion, total, cost), '|')[2]) == total,
        pieces(usage_form(prompt, completion, total, cost), '|')[3] == cost,
{
    let a = decimal(prompt as nat);
    let b = decimal(completion as nat);
    let c = decimal(total as nat);
    let bar = seq!['|'];
    digits_hold_no_bar(prompt as nat);
    digits_hold_no_bar(completion as nat);
    digits_hold_no_bar(total as nat);
    printed_number_reads_back(prompt);
    printed_number_reads_back(completion);
    printed_number_reads_back(total);
    assert(usage_form(prompt, completion, total, cost) =~= a + bar + (b + bar + (c + bar + cost)));
    pieces_of_joint(a, '|', b + bar + (c + bar + cost));
    pieces_of_joint(b, '|', c + bar + cost);
    pieces_of_joint(c, '|', cost);
    find_char_is_first(cost, '|', 0);
    if find_char(cost, '|', 0) is Some {
        assert(cost[find_char(cost, '|', 0)->0] == '|');
    }
    assert(pieces(cost, '|') == seq![cost]);
    assert(pieces(usage_form(prompt, completion, total, cost), '|') =~= seq![a, b, c, cost]);
}

/// A count comes back as it was stored.
pub proof fn count_comes_back(n: u64)
    ensures
        stored_count(decimal(n as nat)) == n,
{
    printed_number_reads_back(n);
}

/// Where no usage was stored, none comes back.
pub proof fn no_usage_comes_back()
    ensures
        pieces(Seq::empty(), '|').len() == 1,
{
}

/// A role comes back as it was stored.
pub proof fn role_comes_back(r: ChatRole)
    ensures
        r == (if r.called() == "user"@ {
            ChatRole::User
        } else {
            ChatRole::Assistant
        }),
{
    reveal_strlit("user");
    reveal_strlit("assistant");
    assert("user"@.len() != "assistant"@.len());
}

proof fn joined_from_front(parts: Seq<Seq<char>>, sep: Seq<char>)
    requires
        parts.len() >= 2,
    ensures
        joined(parts, sep) == parts[0] + sep + joined(parts.skip(1), sep),
    decreases parts.len(),
{
    joined_begins_with_the_first(parts, sep);
}

proof fn lines_of_joint(a: Seq<char>, b: Seq<char>)
    requires
        !a.contains('\n'),
    ensures
        lines_of(a + seq!['\n'] + b) == seq![without_cr(a)] + lines_of(b),
{
    let s = a + seq!['\n'] + b;
    find_char_is_first(s, '\n', 0);
    assert(s[a.len() as int] == '\n');
    let i = find_char(s, '\n', 0)->0;
    if i < a.len() {
        assert(s[i] == a[i]);
        assert(a.contains('\n'));
    }
    assert(i == a.len());
    assert(s.take(i) =~= a);
    assert(s.skip(i + 1) =~= b);
}

proof fn not_empty_keeps(s: Seq<Seq<char>>)
    requires
        forall|i: int| 0 <= i < s.len() ==> (#[trigger] s[i]).len() > 0,
    ensures
        not_empty(s) == s,
    decreases s.len(),
{
    if s.len() > 0 {
        let t = s.drop_last();
        assert forall|i: int| 0 <= i < t.len() implies (#[trigger] t[i]).len() > 0 by {
            assert(t[i] == s[i]);
        }
        not_empty_keeps(t);
        assert(s.last() == s[s.len() - 1]);
        assert(t.push(s.last()) =~= s);
    }
}

proof fn log_lines(log: Seq<Seq<char>>)
    requires
        log.len() > 0,
        forall|i: int| 0 <= i < log.len() ==> (#[trigger] log[i]).len() > 0 && !log[i].contains('\n'),
        forall|i: int| 0 <= i < log.len() - 1 ==> (#[trigger] log[i]).last() != '\r',
    ensures
        lines_of(joined(log, seq!['\n'])) == log,
    decreases log.len(),
{
    let nl = seq!['\n'];
    if log.len() == 1 {
        let a = log[0];
        find_char_is_first(a, '\n', 0);
        if find_char(a, '\n', 0) is Some {
            assert(a[find_char(a, '\n', 0)->0] == '\n');
        }
        assert(seq![a] =~= log);
    } else {
        joined_from_front(log, nl);
        let rest = log.skip(1);
        assert forall|i: int| 0 <= i < rest.len() implies (#[trigger] rest[i]).len() > 0 && !rest[i].contains('\n') by {
            assert(rest[i] == log[i + 1]);
        }
        assert forall|i: int| 0 <= i < rest.len() - 1 implies (#[trigger] rest[i]).last() != '\r' by {
            assert(rest[i] == log[i + 1]);
        }
        log_lines(rest);
        lines_of_joint(log[0], joined(rest, nl));
        assert(seq![log[0]] + rest =~= log);
    }
}

/// A stored tool log comes back as it was, as long as none of its lines is empty or holds a
/// line feed, and none but the last ends in a carriage return.
pub proof fn tool_log_comes_back(log: Seq<Seq<char>>)
    requires
        forall|i: int| 0 <= i < log.len() ==> (#[trigger] log[i]).len() > 0 && !log[i].contains('\n'),
        forall|i: int| 0 <= i < log.len() - 1 ==> (#[trigger] log[i]).last() != '\r',
    ensures
        not_empty(lines_of(joined(log, "\n"@))) == log,
{
    reveal_strlit("\n");
    assert("\n"@ =~= seq!['\n']);
    if log.len() > 0 {
        log_lines(log);
    } else {
        assert(log =~= Seq::<Seq<char>>::empty());
    }
    not_empty_keeps(log);
}

/// A message as it is stored.
#[derive(Debug)]
pub struct MessageRow {
    pub role: String,
    pub content: String,
    pub reasoning: String,
    pub tool_log: String,
    pub usage: String,
}

/// What a [`MessageRow`] holds.
pub struct StoredMessage {
    pub role: Seq<char>,
    pub content: Seq<char>,
    pub reasoning: Seq<char>,
    pub tool_log: Seq<char>,
    pub usage: Seq<char>,
}

impl View for MessageRow {
    type V = StoredMessage;

    open spec fn view(&self) -> StoredMessage {
        StoredMessage {
            role: self.role@,
            content: self.content@,
            reasoning: self.reasoning@,
            tool_log: self.tool_log@,
            usage: self.usage@,
        }
    }
}

/// A message as it is stored; `cost` is how its cost is written.
pub open spec fn stored(m: Message, cost: Seq<char>) -> StoredMessage {
    StoredMessage {
        role: m.role.called(),
        content: m.content,
        reasoning: m.reasoning,
        tool_log: joined(m.tool_log, "\n"@),
        usage: match m.usage {
            Some(u) => usage_form(u.prompt, u.completion, u.total, cost),
            None => Seq::empty(),
        },
    }
}

/// A message as it is stored; `cost` is how its cost is written.
pub fn store_message(m: &ChatMessage, cost: &str) -> (r: MessageRow)
    ensures
        r@ == stored(m@, cost@),
{
    let usage = match &m.usage {
        Some(u) => usage_text(u, cost),
        None => String::new(),
    };
    let r = MessageRow {
        role: String::from_str(m.role.api()),
        content: m.content.clone(),
        reasoning: m.reasoning.clone(),
        tool_log: tool_log_text(&m.tool_log),
        usage,
    };
    assert(r@.usage =~= stored(m@, cost@).usage);
    r
}

/// A message of which the cost is still text.
#[derive(Debug)]
pub struct LoadedMessage {
    pub role: ChatRole,
    pub content: String,
    pub reasoning: String,
    pub tool_log: Vec<String>,
    pub usage: Option<StoredUsage>,
}

/// What a [`StoredUsage`] holds.
pub open spec fn usage_parts(u: StoredUsage) -> (u64, u64, u64, Seq<char>) {
    (u.prompt, u.completion, u.total, u.cost@)
}

/// What a [`LoadedMessage`] holds.
#[verifier::ext_equal]
pub struct Recalled {
    pub role: ChatRole,
    pub content: Seq<char>,
    pub reasoning: Seq<char>,
    pub tool_log: Seq<Seq<char>>,
    pub usage: Option<(u64, u64, u64, Seq<char>)>,
}

impl View for LoadedMessage {
    type V = Recalled;

    open spec fn view(&self) -> Recalled {
        Recalled {
            role: self.role,
            content: self.content@,
            reasoning: self.reasoning@,
            tool_log: views(self.tool_log@),
            usage: match self.usage {
                Some(u) => Some(usage_parts(u)),
                None => None,
            },
        }
    }
}

/// The usage that a text stores.
pub open spec fn loaded_usage(s: Seq<char>) -> Option<(u64, u64, u64, Seq<char>)> {
    let p = pieces(s, '|');
    if p.len() == 4 {
        Some((stored_count(p[0]), stored_count(p[1]), stored_count(p[2]), p[3]))
    } else {
        None
    }
}

/// The message that a row stores.
pub open spec fn recalled(row: StoredMessage) -> Recalled {
    Recalled {
        role: if row.role == "user"@ {
            ChatRole::User
        } else {
            ChatRole::Assistant
        },
        content: row.content,
        reasoning: row.reasoning,
        tool_log: not_empty(lines_of(row.tool_log)),
        usage: loaded_usage(row.usage),
    }
}

/// The message that a row stores.
pub fn load_message(row: MessageRow) -> (r: LoadedMessage)
    ensures
        r@ == recalled(row@),
{
    LoadedMessage {
        role: ChatRole::from_stored(row.role.as_str()),
        tool_log: read_tool_log(row.tool_log.as_str()),
        usage: read_usage(row.usage.as_str()),
        content: row.content,
        reasoning: row.reasoning,
    }
}

pub open spec fn row_views(v: Seq<MessageRow>) -> Seq<StoredMessage> {
    v.map_values(|m: MessageRow| m@)
}

pub open spec fn loaded_views(v: Seq<LoadedMessage>) -> Seq<Recalled> {
    v.map_values(|m: LoadedMessage| m@)
}

/// The messages that rows store, in their order.
pub open spec fn all_recalled(rows: Seq<StoredMessage>) -> Seq<Recalled> {
    rows.map_values(|r: StoredMessage| recalled(r))
}

/// The conversation that rows store: their messages, in their order.
pub fn load_messages(rows: Vec<MessageRow>) -> (r: Vec<LoadedMessage>)
    ensures
        loaded_views(r@) == all_recalled(row_views(rows@)),
{
    let ghost all = rows@;
    let mut out: Vec<LoadedMessage> = Vec::new();
    for row in it: rows
        invariant
            it.seq() == all,
            out@.len() == it.index(),
            forall|j: int| 0 <= j < out@.len() ==> (#[trigger] out@[j])@ == recalled(all[j]@),
    {
        out.push(load_message(row));
    }
    assert(loaded_views(out@) =~= all_recalled(row_views(all)));
    out
}

/// A message with its cost as it is written.
pub open spec fn costed(m: Message, cost: Seq<char>) -> Recalled {
    Recalled {
        role: m.role,
        content: m.content,
        reasoning: m.reasoning,
        tool_log: m.tool_log,
        usage: match m.usage {
            Some(u) => Some((u.prompt, u.completion, u.total, cost)),
            None => None,
        },
    }
}

/// The cost is written without a bar, no line of the tool log is empty or holds a line feed, and
/// none but the last ends in a carriage return.
pub open spec fn storable(m: Message, cost: Seq<char>) -> bool {
    &&& !cost.contains('|')
    &&& forall|i: int|
        0 <= i < m.tool_log.len() ==> (#[trigger] m.tool_log[i]).len() > 0 && !m.tool_log[i].contains('\n')
    &&& forall|i: int| 0 <= i < m.tool_log.len() - 1 ==> (#[trigger] m.tool_log[i]).last() != '\r'
}

/// A message comes back as it was stored, as long as its cost is written without a bar, no line
/// of its tool log is empty or holds a line feed, and none but the last ends in a carriage
/// return.
pub proof fn message_comes_back(m: Message, cost: Seq<char>)
    requires
        storable(m, cost),
    ensures
        recalled(stored(m, cost)) == costed(m, cost),
{
    role_comes_back(m.role);
    tool_log_comes_back(m.tool_log);
    match m.usage {
        Some(u) => {
            usage_comes_back(u.prompt, u.completion, u.total, cost);
        },
        None => {
            no_usage_comes_back();
        },
    }
}

/// A conversation comes back as it was stored, one message after the other: none is lost, none
/// is added, and their order is kept. `costs` is how the cost of each is written.
pub proof fn conversation_comes_back(messages: Seq<Message>, costs: Seq<Seq<char>>)
    requires
        messages.len() == costs.len(),
        forall|i: int| 0 <= i < messages.len() ==> storable(#[trigger] messages[i], costs[i]),
    ensures
        all_recalled(Seq::new(messages.len(), |i: int| stored(messages[i], costs[i]))) == Seq::new(
            messages.len(),
            |i: int| costed(messages[i], costs[i]),
        ),
{
    let rows = Seq::new(messages.len(), |i: int| stored(messages[i], costs[i]));
    let back = Seq::new(messages.len(), |i: int| costed(messages[i], costs[i]));
    assert forall|i: int| 0 <= i < messages.len() implies #[trigger] all_recalled(rows)[i] == back[i] by {
        message_comes_back(messages[i], costs[i]);
    }
    assert(all_recalled(rows) =~= back);
}

/// What an answer took is added to what all took so far, whether it failed or not; without a word
/// of it the counts stay.
pub proof fn counts_add_up(c: Chat, error: Option<Seq<char>>, usage: Option<Usage>, cost: Scalar)
    requires
        usage matches Some(u) ==> c.tok_total + u.total <= u64::MAX,
    ensures
        usage matches Some(u) ==> c.done(error, usage, cost).tok_total == c.tok_total + u.total && c.done(
            error,
            usage,
            cost,
        ).cost_total == cost,
        usage is None ==> c.done(error, usage, cost).tok_total == c.tok_total && c.done(error, usage, cost).cost_total
            == c.cost_total,
        c.done(error, usage, cost).model == c.model,
        c.done(error, usage, cost).input == c.input,
        error is None ==> c.done(error, usage, cost).messages == c.messages.push(
            Message {
                role: ChatRole::Assistant,
                content: c.content,
                reasoning: c.reasoning,
                tool_log: c.tool_lines,
                usage,
            },
        ),
{
}

/// A question that is asked is put behind the messages, as the user's, without white space around
/// it; the field for it is empty then, and nothing of the last answer is left. The model and the
/// counts stay.
pub proof fn question_is_what_was_written(c: Chat)
    ensures
        c.ready() <==> !c.busy && trimmed(c.input).len() > 0,
        c.asked().messages == c.messages.push(
            Message {
                role: ChatRole::User,
                content: trimmed(c.input),
                reasoning: Seq::empty(),
                tool_log: Seq::empty(),
                usage: None,
            },
        ),
        c.asked().input.len() == 0,
        c.asked().error is None,
        c.asked().content.len() == 0 && c.asked().reasoning.len() == 0 && c.asked().tool_lines.len() == 0,
        c.asked().model == c.model,
        c.asked().tok_total == c.tok_total,
        c.asked().cost_total == c.cost_total,
        c.asked().busy == c.busy,
{
}

/// A conversation that is cleared leaves nothing behind but what is being written and the model.
pub proof fn cleared_chat_is_empty(c: Chat)
    ensures
        c.cleared().messages.len() == 0,
        c.cleared().error is None,
        c.cleared().tok_total == 0,
        c.cleared().cost_total.zero(),
        c.cleared().content.len() == 0 && c.cleared().reasoning.len() == 0 && c.cleared().tool_lines.len() == 0,
        c.cleared().input == c.input,
        c.cleared().model == c.model,
        c.cleared().busy == c.busy,
{
}

/// The lines that are not empty are kept one by one, in their order.
pub proof fn full_lines_are_kept(a: Seq<Seq<char>>, b: Seq<Seq<char>>, line: Seq<char>)
    ensures
        not_empty(a + b) == not_empty(a) + not_empty(b),
        not_empty(seq![line]) == (if line.len() > 0 {
            seq![line]
        } else {
            Seq::empty()
        }),
    decreases b.len(),
{
    assert(not_empty(Seq::empty()) =~= Seq::<Seq<char>>::empty());
    assert(seq![line].drop_last() =~= Seq::<Seq<char>>::empty());
    if line.len() > 0 {
        assert(not_empty(seq![line]) =~= seq![line]);
    }
    if b.len() == 0 {
        assert(a + b =~= a);
        assert(not_empty(a) + not_empty(b) =~= not_empty(a));
    } else {
        full_lines_are_kept(a, b.drop_last(), line);
        assert((a + b).drop_last() =~= a + b.drop_last());
        assert(not_empty(a + b) =~= not_empty(a) + not_empty(b));
    }
}

/// A model that is named is the one that is used, without white space around its name; a blank name
/// stands for the usual one.
pub proof fn named_model_is_used(model: Seq<char>)
    ensures
        trimmed(model).len() > 0 ==> resolved(model) == trimmed(model),
        trimmed(model).len() == 0 ==> resolved(model) == "openai/gpt-4o-mini"@,
{
}

} // verus!
