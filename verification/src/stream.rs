//! An answer as it comes in, line by line.

use vstd::prelude::*;
use vstd::slice::slice_subrange;
use vstd::string::*;
use crate::json::{json_document, member_text, read_json, read_member_text, text_or_empty, trees, Json, JsonTree};
use crate::text::{chars_of, matches_at, matches_here, text_is, text_of, text_view, trim, trimmed};

verus! {

/// A tool that an answer asks for, as far as it is known.
#[derive(Debug)]
pub struct ToolCallAcc {
    pub id: String,
    pub name: String,
    pub args: String,
}

/// What a [`ToolCallAcc`] holds.
pub struct Call {
    pub id: Seq<char>,
    pub name: Seq<char>,
    pub args: Seq<char>,
}

impl View for ToolCallAcc {
    type V = Call;

    open spec fn view(&self) -> Call {
        Call { id: self.id@, name: self.name@, args: self.args@ }
    }
}

pub open spec fn call_views(v: Seq<ToolCallAcc>) -> Seq<Call> {
    v.map_values(|c: ToolCallAcc| c@)
}

/// What an answer says it took. The cost is left as it is written.
#[derive(Debug)]
pub struct StreamUsage {
    pub prompt: u64,
    pub completion: u64,
    pub total: u64,
    pub cost: Option<String>,
}

/// What a [`StreamUsage`] holds.
pub struct Taken {
    pub prompt: u64,
    pub completion: u64,
    pub total: u64,
    pub cost: Option<Seq<char>>,
}

impl View for StreamUsage {
    type V = Taken;

    open spec fn view(&self) -> Taken {
        Taken {
            prompt: self.prompt,
            completion: self.completion,
            total: self.total,
            cost: text_view(self.cost),
        }
    }
}

/// What came in of an answer.
#[derive(Debug)]
pub struct StreamOutcome {
    pub content: String,
    pub reasoning: String,
    pub tool_calls: Vec<ToolCallAcc>,
    pub usage: Option<StreamUsage>,
}

/// What a [`StreamOutcome`] holds.
pub struct Outcome {
    pub content: Seq<char>,
    pub reasoning: Seq<char>,
    pub calls: Seq<Call>,
    pub usage: Option<Taken>,
}

impl View for StreamOutcome {
    type V = Outcome;

    open spec fn view(&self) -> Outcome {
        Outcome {
            content: self.content@,
            reasoning: self.reasoning@,
            calls: call_views(self.tool_calls@),
            usage: match self.usage {
                Some(u) => Some(u@),
                None => None,
            },
        }
    }
}

impl Outcome {
    /// Nothing came in yet.
    pub open spec fn nothing() -> Outcome {
        Outcome { content: Seq::empty(), reasoning: Seq::empty(), calls: Seq::empty(), usage: None }
    }
}

impl Default for StreamOutcome {
    fn default() -> (r: StreamOutcome)
        ensures
            r@ == Outcome::nothing(),
    {
        let r = StreamOutcome {
            content: String::new(),
            reasoning: String::new(),
            tool_calls: Vec::new(),
            usage: None,
        };
        assert(r@.content =~= Seq::<char>::empty());
        assert(r@.reasoning =~= Seq::<char>::empty());
        assert(r@.calls =~= Seq::<Call>::empty());
        r
    }
}

pub open spec fn natural_or_zero(v: JsonTree) -> u64 {
    match v.as_natural() {
        Some(n) => n,
        None => 0,
    }
}

/// The part of a value that holds what is new; there is none without a first choice.
pub open spec fn delta(v: JsonTree) -> JsonTree {
    match v.at("choices"@).item(0) {
        Some(choice) => choice.at("delta"@),
        None => JsonTree::Null,
    }
}

/// The calls, or pieces of calls, that a value holds.
pub open spec fn call_parts(v: JsonTree) -> Seq<JsonTree> {
    match delta(v).at("tool_calls"@).as_items() {
        Some(items) => items,
        None => Seq::empty(),
    }
}

pub open spec fn call_index(part: JsonTree) -> u64 {
    natural_or_zero(part.at("index"@))
}

/// Calls with empty ones added until there are `n`.
pub open spec fn padded(calls: Seq<Call>, n: int) -> Seq<Call> {
    if n <= calls.len() {
        calls
    } else {
        calls + Seq::new(
            (n - calls.len()) as nat,
            |i: int| Call { id: Seq::empty(), name: Seq::empty(), args: Seq::empty() },
        )
    }
}

/// Calls with one piece taken in: its id replaces that of the call with its index, its name
/// and its arguments are put behind those of the call.
pub open spec fn with_part(calls: Seq<Call>, part: JsonTree) -> Seq<Call> {
    let i = call_index(part) as int;
    let all = padded(calls, i + 1);
    let f = part.at("function"@);
    all.update(
        i,
        Call {
            id: match part.at("id"@).as_text() {
                Some(id) => id,
                None => all[i].id,
            },
            name: all[i].name + text_or_empty(f.at("name"@)),
            args: all[i].args + text_or_empty(f.at("arguments"@)),
        },
    )
}

/// Calls with all pieces taken in.
pub open spec fn with_parts(calls: Seq<Call>, parts: Seq<JsonTree>) -> Seq<Call>
    decreases parts.len(),
{
    if parts.len() == 0 {
        calls
    } else {
        with_part(with_parts(calls, parts.drop_last()), parts.last())
    }
}

/// What a value says the answer took.
pub open spec fn taken(v: JsonTree) -> Option<Taken> {
    let u = v.at("usage"@);
    let prompt = natural_or_zero(u.at("prompt_tokens"@));
    let completion = natural_or_zero(u.at("completion_tokens"@));
    if u == JsonTree::Null {
        None
    } else {
        Some(
            Taken {
                prompt,
                completion,
                total: match u.at("total_tokens"@).as_natural() {
                    Some(t) => t,
                    None => (prompt + completion) as u64,
                },
                cost: u.at("cost"@).as_decimal(),
            },
        )
    }
}

/// The sum of the tokens can be counted, and so can the calls.
pub open spec fn fits(v: JsonTree) -> bool {
    let u = v.at("usage"@);
    &&& natural_or_zero(u.at("prompt_tokens"@)) + natural_or_zero(u.at("completion_tokens"@)) <= u64::MAX
    &&& forall|i: int| 0 <= i < call_parts(v).len() ==> call_index(#[trigger] call_parts(v)[i]) < usize::MAX
}

/// What came in, with one more value.
pub open spec fn absorbed(o: Outcome, v: JsonTree) -> Outcome {
    Outcome {
        content: o.content + text_or_empty(delta(v).at("content"@)),
        reasoning: o.reasoning + text_or_empty(delta(v).at("reasoning"@)),
        calls: with_parts(o.calls, call_parts(v)),
        usage: match taken(v) {
            Some(u) => Some(u),
            None => o.usage,
        },
    }
}

/// What a line of the answer says.
pub enum Event {
    /// Nothing that matters.
    Nothing,
    /// That the answer is complete.
    Ended,
    /// That there is no answer, and why.
    Refused(Seq<char>),
    /// A value of the answer.
    Value(JsonTree),
}

/// What stands behind the mark of a line.
pub open spec fn line_data(line: Seq<char>) -> Seq<char> {
    if matches_at(line, 0, "data:"@) {
        trimmed(line.skip(5))
    } else {
        Seq::empty()
    }
}

/// What a line says.
pub open spec fn event(line: Seq<char>) -> Event {
    let data = line_data(line);
    if data.len() == 0 {
        Event::Nothing
    } else if data == "[DONE]"@ {
        Event::Ended
    } else {
        match json_document(data) {
            Err(_) => Event::Nothing,
            Ok(v) => match v.get("error"@) {
                Some(e) => Event::Refused(
                    match e.at("message"@).as_text() {
                        Some(m) => m,
                        None => member_text(data, "error"@)->0,
                    },
                ),
                None => Event::Value(v),
            },
        }
    }
}

/// What came in, with one more line. A line that holds no value adds nothing, nor does one with
/// a number that is too large to count with.
pub open spec fn with_line(o: Outcome, line: Seq<char>) -> Outcome {
    match event(line) {
        Event::Value(v) => if fits(v) {
            absorbed(o, v)
        } else {
            o
        },
        _ => o,
    }
}

/// Nothing is read behind a line: it ends the answer, refuses it, or cannot be counted with.
pub open spec fn stops(line: Seq<char>) -> bool {
    match event(line) {
        Event::Nothing => false,
        Event::Ended => true,
        Event::Refused(_) => true,
        Event::Value(v) => !fits(v),
    }
}

/// What came of a line.
#[derive(Debug)]
pub enum Step {
    Nothing,
    Ended,
    Refused(String),
    /// A value was taken in; the texts that it added, where they are not empty.
    Added { content: Option<String>, reasoning: Option<String> },
}

/// A text, unless it is empty.
pub open spec fn unless_empty(s: Seq<char>) -> Option<Seq<char>> {
    if s.len() == 0 {
        None
    } else {
        Some(s)
    }
}

fn delta_of(v: &Json) -> (r: Option<&Json>)
    ensures
        r matches Some(d) ==> d.tree() == delta(v.tree()),
        r is None ==> delta(v.tree()) == JsonTree::Null,
{
    match v.get("choices") {
        Some(choices) => match choices.item(0) {
            Some(choice) => choice.get("delta"),
            None => None,
        },
        None => None,
    }
}

fn added_text(d: Option<&Json>, key: &str) -> (r: String)
    ensures
        d matches Some(j) ==> r@ == text_or_empty(j.tree().at(key@)),
        d is None ==> r@ == Seq::<char>::empty(),
{
    match d {
        Some(j) => match j.text_at(key) {
            Some(t) => String::from_str(t),
            None => String::new(),
        },
        None => String::new(),
    }
}

fn shown(s: String) -> (r: Option<String>)
    ensures
        text_view(r) == unless_empty(s@),
{
    if s.as_str().is_empty() {
        None
    } else {
        Some(s)
    }
}

fn take_part(calls: &mut Vec<ToolCallAcc>, part: &Json)
    requires
        call_index(part.tree()) < usize::MAX,
    ensures
        call_views(final(calls)@) == with_part(call_views(old(calls)@), part.tree()),
{
    let index: u64 = match part.natural_at("index") {
        Some(n) => n,
        None => 0,
    };
    let i: usize = index as usize;
    let ghost before = call_views(calls@);
    while calls.len() <= i
        invariant
            i < usize::MAX,
            before.len() <= calls@.len(),
            calls@.len() <= before.len() || calls@.len() <= i + 1,
            call_views(calls@) == padded(before, calls@.len() as int),
        decreases i + 1 - calls@.len(),
    {
        let ghost n = calls@.len() as int;
        let ghost prior = call_views(calls@);
        let blank = ToolCallAcc { id: String::new(), name: String::new(), args: String::new() };
        assert(blank@ == Call { id: Seq::empty(), name: Seq::empty(), args: Seq::empty() }) by {
            assert(blank.id@ =~= Seq::<char>::empty());
            assert(blank.name@ =~= Seq::<char>::empty());
            assert(blank.args@ =~= Seq::<char>::empty());
        }
        calls.push(blank);
        assert(call_views(calls@) =~= prior.push(blank@));
        assert(padded(before, n + 1) =~= padded(before, n).push(blank@));
    }
    assert(call_views(calls@) =~= padded(before, i + 1));
    let ghost all = call_views(calls@);
    let mut id: String = calls[i].id.clone();
    let mut name: String = calls[i].name.clone();
    let mut args: String = calls[i].args.clone();
    if let Some(t) = part.text_at("id") {
        id = String::from_str(t);
    }
    let f = part.get("function");
    name.append(added_text(f, "name").as_str());
    args.append(added_text(f, "arguments").as_str());
    assert(all[i as int] == calls@[i as int]@);
    assert(JsonTree::Null.at("name"@).as_text() is None);
    assert(JsonTree::Null.at("arguments"@).as_text() is None);
    let call = ToolCallAcc { id, name, args };
    calls.set(i, call);
    assert(call_views(calls@) =~= all.update(i as int, call@));
}

fn usage_of(v: &Json) -> (r: Option<StreamUsage>)
    requires
        fits(v.tree()),
    ensures
        r is Some == taken(v.tree()) is Some,
        r matches Some(u) ==> taken(v.tree()) == Some(u@),
{
    match v.get("usage") {
        Some(u) => {
            if u.is_null() {
                return None;
            }
            let prompt: u64 = match u.natural_at("prompt_tokens") {
                Some(n) => n,
                None => 0,
            };
            let completion: u64 = match u.natural_at("completion_tokens") {
                Some(n) => n,
                None => 0,
            };
            let total: u64 = match u.natural_at("total_tokens") {
                Some(n) => n,
                None => prompt + completion,
            };
            let cost: Option<String> = match u.decimal_at("cost") {
                Some(c) => Some(String::from_str(c)),
                None => None,
            };
            Some(StreamUsage { prompt, completion, total, cost })
        },
        None => None,
    }
}

/// Whether the tokens and the calls that a value speaks of can be counted.
pub fn fits_here(v: &Json) -> (r: bool)
    ensures
        r == fits(v.tree()),
{
    if let Some(u) = v.get("usage") {
        let prompt: u64 = match u.natural_at("prompt_tokens") {
            Some(n) => n,
            None => 0,
        };
        let completion: u64 = match u.natural_at("completion_tokens") {
            Some(n) => n,
            None => 0,
        };
        if prompt > u64::MAX - completion {
            return false;
        }
    } else {
        assert(JsonTree::Null.at("prompt_tokens"@).as_natural() is None);
        assert(JsonTree::Null.at("completion_tokens"@).as_natural() is None);
    }
    if let Some(d) = delta_of(v) {
        if let Some(parts) = d.items_at("tool_calls") {
            let n: usize = parts.len();
            let ghost all = call_parts(v.tree());
            assert(all == trees(parts@));
            for i in 0..n
                invariant
                    n == parts@.len(),
                    all == trees(parts@),
                    all == call_parts(v.tree()),
                    forall|j: int| 0 <= j < i ==> call_index(#[trigger] all[j]) < usize::MAX,
            {
                assert(all[i as int] == parts@[i as int].tree());
                let index: u64 = match parts[i].natural_at("index") {
                    Some(k) => k,
                    None => 0,
                };
                if index >= usize::MAX as u64 {
                    return false;
                }
            }
        }
    } else {
        assert(JsonTree::Null.at("tool_calls"@).as_items() is None);
    }
    true
}

impl StreamOutcome {
    /// Takes in a value of the answer, and gives the texts that it added.
    pub fn take_value(&mut self, v: &Json) -> (r: (Option<String>, Option<String>))
        requires
            fits(v.tree()),
        ensures
            final(self)@ == absorbed(old(self)@, v.tree()),
            text_view(r.0) == unless_empty(text_or_empty(delta(v.tree()).at("content"@))),
            text_view(r.1) == unless_empty(text_or_empty(delta(v.tree()).at("reasoning"@))),
    {
        let ghost before = self@;
        let usage = usage_of(v);
        if usage.is_some() {
            self.usage = usage;
        }
        let d = delta_of(v);
        assert(JsonTree::Null.at("content"@).as_text() is None);
        assert(JsonTree::Null.at("reasoning"@).as_text() is None);
        assert(JsonTree::Null.at("tool_calls"@).as_items() is None);
        let content = added_text(d, "content");
        self.content.append(content.as_str());
        let reasoning = added_text(d, "reasoning");
        self.reasoning.append(reasoning.as_str());
        let ghost parts = call_parts(v.tree());
        if let Some(j) = d {
            if let Some(items) = j.items_at("tool_calls") {
                let n: usize = items.len();
                assert(parts == trees(items@));
                assert(parts.take(0) =~= Seq::<JsonTree>::empty());
                let ghost content_now = self.content@;
                let ghost reasoning_now = self.reasoning@;
                let ghost usage_now = self.usage;
                for i in 0..n
                    invariant
                        n == items@.len(),
                        parts == trees(items@),
                        parts == call_parts(v.tree()),
                        fits(v.tree()),
                        self.content@ == content_now,
                        self.reasoning@ == reasoning_now,
                        self.usage == usage_now,
                        call_views(self.tool_calls@) == with_parts(before.calls, parts.take(i as int)),
                {
                    assert(parts[i as int] == items@[i as int].tree());
                    assert(parts.take(i + 1).drop_last() =~= parts.take(i as int));
                    assert(parts.take(i + 1).last() == parts[i as int]);
                    take_part(&mut self.tool_calls, &items[i]);
                }
                assert(parts.take(n as int) =~= parts);
            }
        }
        assert(self@.calls == with_parts(before.calls, parts));
        (shown(content), shown(reasoning))
    }

    /// Takes in a line of the answer. `None` where a number in it is too large to count with;
    /// nothing is taken in of such a line.
    pub fn take_line(&mut self, line: &str) -> (r: Option<Step>)
        ensures
            final(self)@ == with_line(old(self)@, line@),
            stops(line@) == !(r matches Some(Step::Nothing) || r matches Some(Step::Added { .. })),
            match event(line@) {
                Event::Nothing => r matches Some(Step::Nothing) && *final(self) == *old(self),
                Event::Ended => r matches Some(Step::Ended) && *final(self) == *old(self),
                Event::Refused(m) => r matches Some(Step::Refused(t)) && t@ == m && *final(self) == *old(self),
                Event::Value(v) => if fits(v) {
                    &&& final(self)@ == absorbed(old(self)@, v)
                    &&& r matches Some(Step::Added { content, reasoning })
                    &&& text_view(content) == unless_empty(text_or_empty(delta(v).at("content"@)))
                    &&& text_view(reasoning) == unless_empty(text_or_empty(delta(v).at("reasoning"@)))
                } else {
                    r is None && *final(self) == *old(self)
                },
            },
    {
        proof {
            reveal_strlit("data:");
            assert("data:"@.len() == 5);
        }
        let chars = chars_of(line);
        let mark = chars_of("data:");
        if !matches_here(chars.as_slice(), 0, mark.as_slice()) {
            return Some(Step::Nothing);
        }
        let rest = slice_subrange(chars.as_slice(), 5, chars.len());
        assert(rest@ =~= line@.skip(5));
        let data = text_of(trim(rest));
        if data.as_str().is_empty() {
            return Some(Step::Nothing);
        }
        if text_is(data.as_str(), "[DONE]") {
            return Some(Step::Ended);
        }
        match read_json(data.as_str()) {
            Err(_) => Some(Step::Nothing),
            Ok(v) => {
                if let Some(e) = v.get("error") {
                    return match e.text_at("message") {
                        Some(m) => Some(Step::Refused(String::from_str(m))),
                        None => match read_member_text(data.as_str(), "error") {
                            Some(t) => Some(Step::Refused(t)),
                            None => Some(Step::Nothing),
                        },
                    };
                }
                if !fits_here(&v) {
                    return None;
                }
                let (content, reasoning) = self.take_value(&v);
                Some(Step::Added { content, reasoning })
            },
        }
    }
}

/// A piece of a call leaves the other calls as they are, and never takes one away.
pub proof fn part_keeps_others(calls: Seq<Call>, part: JsonTree, i: int)
    requires
        0 <= i < calls.len(),
        i != call_index(part),
    ensures
        with_part(calls, part).len() >= calls.len(),
        with_part(calls, part)[i] == calls[i],
{
}

/// A call is there once a piece of it came in, and what was known of its name and its
/// arguments stays at their front.
pub proof fn part_grows_call(calls: Seq<Call>, part: JsonTree)
    ensures
        call_index(part) < with_part(calls, part).len(),
        call_index(part) < calls.len() ==> {
            let i = call_index(part) as int;
            &&& calls[i].name.is_prefix_of(with_part(calls, part)[i].name)
            &&& calls[i].args.is_prefix_of(with_part(calls, part)[i].args)
        },
{
}

/// The values that came in, from the first to the last.
pub open spec fn received(values: Seq<JsonTree>) -> Outcome
    decreases values.len(),
{
    if values.len() == 0 {
        Outcome::nothing()
    } else {
        absorbed(received(values.drop_last()), values.last())
    }
}

/// The texts that values add, one behind the other.
pub open spec fn added(values: Seq<JsonTree>, key: Seq<char>) -> Seq<char>
    decreases values.len(),
{
    if values.len() == 0 {
        Seq::empty()
    } else {
        added(values.drop_last(), key) + text_or_empty(delta(values.last()).at(key))
    }
}

/// The answer is what its values added, in the order in which they came.
pub proof fn answer_is_what_came(values: Seq<JsonTree>)
    ensures
        received(values).content == added(values, "content"@),
        received(values).reasoning == added(values, "reasoning"@),
    decreases values.len(),
{
    if values.len() > 0 {
        answer_is_what_came(values.drop_last());
    }
}

/// The answer that lines make, or why there is none. Each line is taken in, up to the first behind
/// which nothing is read.
pub open spec fn answer_of(lines: Seq<Seq<char>>) -> Result<Outcome, Seq<char>>
    decreases lines.len(),
{
    if lines.len() == 0 {
        Ok(Outcome::nothing())
    } else {
        let less = lines.drop_last();
        if exists|i: int| 0 <= i < less.len() && stops(#[trigger] less[i]) {
            answer_of(less)
        } else {
            match (event(lines.last()), answer_of(less)) {
                (Event::Refused(m), _) => Err(m),
                (_, Ok(o)) => Ok(with_line(o, lines.last())),
                (_, Err(e)) => Err(e),
            }
        }
    }
}

/// The values of the lines that hold one.
pub open spec fn values_of(lines: Seq<Seq<char>>) -> Seq<JsonTree>
    decreases lines.len(),
{
    if lines.len() == 0 {
        Seq::empty()
    } else {
        match event(lines.last()) {
            Event::Value(v) => values_of(lines.drop_last()).push(v),
            _ => values_of(lines.drop_last()),
        }
    }
}

/// What the last value that says so says the answer took.
pub open spec fn last_taken(values: Seq<JsonTree>) -> Option<Taken>
    decreases values.len(),
{
    if values.len() == 0 {
        None
    } else {
        match taken(values.last()) {
            Some(u) => Some(u),
            None => last_taken(values.drop_last()),
        }
    }
}

/// The pieces of calls that values hold, one behind the other.
pub open spec fn all_parts(values: Seq<JsonTree>) -> Seq<JsonTree>
    decreases values.len(),
{
    if values.len() == 0 {
        Seq::empty()
    } else {
        all_parts(values.drop_last()) + call_parts(values.last())
    }
}

proof fn parts_one_by_one(calls: Seq<Call>, a: Seq<JsonTree>, b: Seq<JsonTree>)
    ensures
        with_parts(calls, a + b) == with_parts(with_parts(calls, a), b),
    decreases b.len(),
{
    if b.len() == 0 {
        assert(a + b =~= a);
    } else {
        parts_one_by_one(calls, a, b.drop_last());
        assert((a + b).drop_last() =~= a + b.drop_last());
    }
}

/// The tools that an answer asks for are put together from all pieces that came in, in the order
/// in which they came, and what it took is what was said last.
pub proof fn calls_and_usage_are_what_came(values: Seq<JsonTree>)
    ensures
        received(values).calls == with_parts(Seq::empty(), all_parts(values)),
        received(values).usage == last_taken(values),
    decreases values.len(),
{
    if values.len() > 0 {
        let less = values.drop_last();
        calls_and_usage_are_what_came(less);
        parts_one_by_one(Seq::empty(), all_parts(less), call_parts(values.last()));
    }
}

proof fn lines_are_read(lines: Seq<Seq<char>>)
    requires
        forall|i: int| 0 <= i < lines.len() ==> !stops(#[trigger] lines[i]),
    ensures
        answer_of(lines) == Ok::<Outcome, Seq<char>>(received(values_of(lines))),
    decreases lines.len(),
{
    if lines.len() > 0 {
        let less = lines.drop_last();
        assert forall|i: int| 0 <= i < less.len() implies !stops(#[trigger] less[i]) by {
            assert(less[i] == lines[i]);
        }
        lines_are_read(less);
        assert(!stops(lines[lines.len() - 1]));
        if let Event::Value(v) = event(lines.last()) {
            assert(values_of(lines).drop_last() =~= values_of(less));
        }
    }
}

proof fn lines_behind_are_not_read(lines: Seq<Seq<char>>, behind: Seq<Seq<char>>)
    requires
        lines.len() > 0,
        stops(lines.last()),
    ensures
        answer_of(lines + behind) == answer_of(lines),
    decreases behind.len(),
{
    let all = lines + behind;
    if behind.len() == 0 {
        assert(all =~= lines);
    } else {
        let less = all.drop_last();
        lines_behind_are_not_read(lines, behind.drop_last());
        assert(less =~= lines + behind.drop_last());
        assert(less[lines.len() - 1] == lines.last());
    }
}

/// An answer is what its lines say, whether an end mark follows them or not: its content and its
/// reasoning are what the values of these lines added, one behind the other; the tools are put
/// together from their pieces; and what it took is what the last value that says so says. No
/// line behind the end mark counts.
pub proof fn answer_is_its_lines(lines: Seq<Seq<char>>, end: Seq<char>, behind: Seq<Seq<char>>)
    requires
        forall|i: int| 0 <= i < lines.len() ==> !stops(#[trigger] lines[i]),
        event(end) is Ended,
    ensures
        answer_of(lines) == Ok::<Outcome, Seq<char>>(
            Outcome {
                content: added(values_of(lines), "content"@),
                reasoning: added(values_of(lines), "reasoning"@),
                calls: with_parts(Seq::empty(), all_parts(values_of(lines))),
                usage: last_taken(values_of(lines)),
            },
        ),
        answer_of(lines.push(end) + behind) == answer_of(lines),
{
    lines_are_read(lines);
    answer_is_what_came(values_of(lines));
    calls_and_usage_are_what_came(values_of(lines));
    lines_behind_are_not_read(lines.push(end), behind);
    assert(lines.push(end).drop_last() =~= lines);
}

/// A line that refuses the answer leaves none, whatever came before it or stands behind it: the
/// reason is what the line says.
pub proof fn refused_answer_is_none(lines: Seq<Seq<char>>, end: Seq<char>, behind: Seq<Seq<char>>)
    requires
        forall|i: int| 0 <= i < lines.len() ==> !stops(#[trigger] lines[i]),
        event(end) is Refused,
    ensures
        answer_of(lines.push(end) + behind) == Err::<Outcome, Seq<char>>(event(end)->Refused_0),
{
    lines_behind_are_not_read(lines.push(end), behind);
    assert(lines.push(end).drop_last() =~= lines);
}

/// A piece of a call goes to the call with its index, 0 where it has none: what it has of the name
/// and of the arguments is put behind what came before, and an id replaces the one before.
pub proof fn part_goes_to_its_call(calls: Seq<Call>, part: JsonTree, i: int)
    requires
        part.at("index"@) matches JsonTree::Number(Some(n), _) && n == i || !(part.at("index"@) is Number) && i == 0,
        i < calls.len(),
    ensures
        ({
            let call = with_part(calls, part)[i];
            &&& with_part(calls, part).len() == calls.len()
            &&& part.at("function"@).at("name"@) matches JsonTree::Text(t) ==> call.name == calls[i].name + t
            &&& !(part.at("function"@).at("name"@) is Text) ==> call.name == calls[i].name
            &&& part.at("function"@).at("arguments"@) matches JsonTree::Text(t) ==> call.args == calls[i].args + t
            &&& !(part.at("function"@).at("arguments"@) is Text) ==> call.args == calls[i].args
            &&& part.at("id"@) matches JsonTree::Text(t) ==> call.id == t
            &&& !(part.at("id"@) is Text) ==> call.id == calls[i].id
        }),
{
    let call = with_part(calls, part)[i];
    assert(!(part.at("function"@).at("name"@) is Text) ==> call.name =~= calls[i].name);
    assert(!(part.at("function"@).at("arguments"@) is Text) ==> call.args =~= calls[i].args);
}

/// What a value says the answer took is read by its names; the total is the sum of the two parts
/// where it is not said, and a part that is not said counts as zero.
pub proof fn usage_is_read_by_its_names(v: JsonTree)
    requires
        fits(v),
    ensures
        taken(v) is None <==> v.at("usage"@) is Null,
        taken(v) matches Some(u) ==> {
            let said = v.at("usage"@);
            let prompt = match said.at("prompt_tokens"@) {
                JsonTree::Number(Some(n), _) => n as int,
                _ => 0,
            };
            let completion = match said.at("completion_tokens"@) {
                JsonTree::Number(Some(n), _) => n as int,
                _ => 0,
            };
            &&& u.prompt == prompt
            &&& u.completion == completion
            &&& u.total == (match said.at("total_tokens"@) {
                JsonTree::Number(Some(n), _) => n as int,
                _ => prompt + completion,
            })
            &&& u.cost == (match said.at("cost"@) {
                JsonTree::Number(_, t) => Some(t),
                _ => None,
            })
        },
{
}

/// What a value adds is what its first choice has under `delta`: a text under `content`, one under
/// `reasoning`, and pieces of calls under `tool_calls`.
pub proof fn value_adds_what_its_delta_holds(o: Outcome, v: JsonTree, choice: JsonTree, others: Seq<JsonTree>)
    requires
        v.at("choices"@) == JsonTree::Array(seq![choice] + others),
    ensures
        choice.at("delta"@).at("content"@) matches JsonTree::Text(t) ==> absorbed(o, v).content == o.content + t,
        !(choice.at("delta"@).at("content"@) is Text) ==> absorbed(o, v).content == o.content,
        choice.at("delta"@).at("reasoning"@) matches JsonTree::Text(t) ==> absorbed(o, v).reasoning == o.reasoning + t,
        !(choice.at("delta"@).at("reasoning"@) is Text) ==> absorbed(o, v).reasoning == o.reasoning,
        choice.at("delta"@).at("tool_calls"@) matches JsonTree::Array(parts) ==> absorbed(o, v).calls == with_parts(
            o.calls,
            parts,
        ),
        !(choice.at("delta"@).at("tool_calls"@) is Array) ==> absorbed(o, v).calls == o.calls,
        taken(v) is Some ==> absorbed(o, v).usage == taken(v),
        taken(v) is None ==> absorbed(o, v).usage == o.usage,
{
    let none = Seq::<char>::empty();
    assert(o.content + none =~= o.content);
    assert(o.reasoning + none =~= o.reasoning);
}

/// A line speaks where it begins with `data:`; what follows is taken without white space around it.
/// Any other line says nothing, and so does one with nothing behind the mark.
pub proof fn lines_speak_behind_their_mark(s: Seq<char>)
    ensures
        line_data("data:"@ + s) == trimmed(s),
        !"data:"@.is_prefix_of(s) ==> event(s) is Nothing,
        trimmed(s).len() == 0 ==> event("data:"@ + s) is Nothing,
        trimmed(s) == "[DONE]"@ ==> event("data:"@ + s) is Ended,
{
    reveal_strlit("data:");
    reveal_strlit("[DONE]");
    let all = "data:"@ + s;
    assert("data:"@.len() == 5 && "[DONE]"@.len() == 6);
    assert(all.subrange(0, 5) =~= "data:"@);
    assert(all.skip(5) =~= s);
    if matches_at(s, 0, "data:"@) {
        assert(s.subrange(0, 5) =~= "data:"@);
        assert("data:"@.is_prefix_of(s));
    }
}

/// A piece with an index that no call has yet makes one, and empty ones up to it.
pub proof fn part_makes_its_call(calls: Seq<Call>, part: JsonTree, n: u64)
    requires
        part.at("index"@) matches JsonTree::Number(Some(m), _) && m == n,
        n >= calls.len(),
    ensures
        ({
            let all = with_part(calls, part);
            &&& all.len() == n + 1
            &&& forall|i: int| 0 <= i < calls.len() ==> #[trigger] all[i] == calls[i]
            &&& forall|i: int|
                calls.len() <= i < n ==> (#[trigger] all[i]).name.len() == 0 && all[i].args.len() == 0 && all[i].id.len()
                    == 0
            &&& part.at("function"@).at("name"@) matches JsonTree::Text(t) ==> all[n as int].name == t
            &&& part.at("function"@).at("arguments"@) matches JsonTree::Text(t) ==> all[n as int].args == t
            &&& part.at("id"@) matches JsonTree::Text(t) ==> all[n as int].id == t
        }),
{
    let all = with_part(calls, part);
    let none = Seq::<char>::empty();
    assert(all[n as int].name =~= text_or_empty(part.at("function"@).at("name"@)));
    assert(all[n as int].args =~= text_or_empty(part.at("function"@).at("arguments"@)));
}

} // verus!
