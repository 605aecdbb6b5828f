//! The tools that an answer may ask for: what they fetch and what they give back.

use vstd::prelude::*;
use vstd::string::*;
use vstd::utf8::{encode_utf8, is_ascii_chars};
use crate::html::try_strip_html;
use crate::json::{json_document, read_json, text_or_empty, Json, JsonTree};
use crate::percent::{decoded, encoded, encoded_is_safe, encoding_is_undone, percent_encode_qs, text_in};
use crate::search::{brave_is_ascii, brave_listing, ends_in_mark, page_listing, plain, read_brave_results, try_parse_ddg_results};
use crate::text::{blank, cat, chars_of, part, text_is, text_of, trim_text, trimmed};

verus! {

/// What has to be done for a tool.
#[derive(Debug)]
pub enum ToolAction {
    /// Ask Brave Search, with that key.
    Brave { url: String, key: String },
    /// Get the result page of DuckDuckGo.
    DuckDuckGo { url: String },
    /// Get a page.
    Fetch { url: String },
    /// Nothing: this is the result.
    Answer(String),
}

/// What a [`ToolAction`] says.
pub enum Action {
    Brave(Seq<char>, Seq<char>),
    DuckDuckGo(Seq<char>),
    Fetch(Seq<char>),
    Answer(Seq<char>),
}

impl View for ToolAction {
    type V = Action;

    open spec fn view(&self) -> Action {
        match self {
            ToolAction::Brave { url, key } => Action::Brave(url@, key@),
            ToolAction::DuckDuckGo { url } => Action::DuckDuckGo(url@),
            ToolAction::Fetch { url } => Action::Fetch(url@),
            ToolAction::Answer(t) => Action::Answer(t@),
        }
    }
}

/// The use of a tool: the line that tells of it, and what has to be done.
#[derive(Debug)]
pub struct ToolPlan {
    pub line: String,
    pub action: ToolAction,
}

/// The line that tells of the use of a tool.
pub open spec fn tool_line(name: Seq<char>, args: JsonTree) -> Seq<char> {
    if name == "web_search"@ {
        "↳ web_search \""@ + text_or_empty(args.at("query"@)) + "\""@
    } else if name == "web_fetch"@ {
        "↳ web_fetch "@ + text_or_empty(args.at("url"@))
    } else {
        "↳ ? "@ + name
    }
}

/// What has to be done for a tool.
pub open spec fn tool_action(name: Seq<char>, args: JsonTree, brave_key: Seq<char>) -> Action {
    if name == "web_search"@ {
        let query = encoded(encode_utf8(text_or_empty(args.at("query"@))));
        if trimmed(brave_key).len() > 0 {
            Action::Brave(
                "https://api.search.brave.com/res/v1/web/search?q="@ + query + "&count=8"@,
                trimmed(brave_key),
            )
        } else {
            Action::DuckDuckGo("https://html.duckduckgo.com/html/?q="@ + query)
        }
    } else if name == "web_fetch"@ {
        Action::Fetch(text_or_empty(args.at("url"@)))
    } else {
        Action::Answer("unknown tool: "@ + name)
    }
}

/// The use of the tool `name`: a search goes to Brave Search where there is a key for it, and
/// to DuckDuckGo where there is none.
pub fn plan_tool(name: &str, args: &Json, brave_key: &str) -> (r: ToolPlan)
    ensures
        r.line@ == tool_line(name@, args.tree()),
        r.action@ == tool_action(name@, args.tree(), brave_key@),
{
    if text_is(name, "web_search") {
        let q = args.text_or_empty_at("query");
        let mut line = cat("↳ web_search \"", q);
        line.append("\"");
        let query = percent_encode_qs(q);
        let action = if !blank(brave_key) {
            let mut url = cat("https://api.search.brave.com/res/v1/web/search?q=", query.as_str());
            url.append("&count=8");
            ToolAction::Brave { url, key: trim_text(brave_key) }
        } else {
            ToolAction::DuckDuckGo { url: cat("https://html.duckduckgo.com/html/?q=", query.as_str()) }
        };
        ToolPlan { line, action }
    } else if text_is(name, "web_fetch") {
        let u = args.text_or_empty_at("url");
        ToolPlan { line: cat("↳ web_fetch ", u), action: ToolAction::Fetch { url: String::from_str(u) } }
    } else {
        ToolPlan { line: cat("↳ ? ", name), action: ToolAction::Answer(cat("unknown tool: ", name)) }
    }
}

/// How much of a page is given back.
pub const PAGE_ROOM: usize = 8000;

/// The first `room` characters of a text.
pub open spec fn clipped(s: Seq<char>, room: int) -> Seq<char> {
    if s.len() > room {
        s.take(room)
    } else {
        s
    }
}

/// The first `room` characters of a text.
pub fn clip(s: &str, room: usize) -> (r: String)
    ensures
        r@ == clipped(s@, room as int),
{
    let v = chars_of(s);
    let n: usize = v.len();
    if n > room {
        let p = part(v.as_slice(), 0, room);
        assert(p@ =~= s@.take(room as int));
        text_of(p.as_slice())
    } else {
        String::from_str(s)
    }
}

/// The text of a page as it is given back.
pub open spec fn page_text(text: Seq<char>) -> Seq<char> {
    if text.len() > PAGE_ROOM {
        clipped(text, PAGE_ROOM as int) + "\n…[truncated]"@
    } else {
        text
    }
}

/// The text of a page as it is given back: its first 8000 characters, with a mark where there
/// were more.
pub fn clip_page(text: &str) -> (r: String)
    ensures
        r@ == page_text(text@),
{
    let n: usize = chars_of(text).len();
    let mut out = clip(text, PAGE_ROOM);
    if n > PAGE_ROOM {
        out.append("\n…[truncated]");
    }
    out
}

/// What came back from where a tool went: a body, or why there is none.
pub enum Reply {
    Body(Seq<char>),
    Failure(Seq<char>),
}

pub open spec fn reply_view(reply: Result<&str, &str>) -> Reply {
    match reply {
        Ok(b) => Reply::Body(b@),
        Err(e) => Reply::Failure(e@),
    }
}

/// What a tool gives back. `None` where a page cannot be taken apart.
pub open spec fn result_of(action: Action, reply: Reply) -> Option<Seq<char>> {
    match (action, reply) {
        (Action::Answer(t), _) => Some(t),
        (Action::Fetch(_), Reply::Failure(e)) => Some("fetch failed: "@ + e),
        (_, Reply::Failure(e)) => Some("search failed: "@ + e),
        (Action::Brave(_, _), Reply::Body(b)) => match json_document(b) {
            Ok(v) => brave_listing(v),
            Err(e) => Some("search failed: "@ + e),
        },
        (Action::DuckDuckGo(_), Reply::Body(b)) => page_listing(b),
        (Action::Fetch(_), Reply::Body(b)) => match plain(b) {
            Some(t) => Some(page_text(t)),
            None => None,
        },
    }
}

/// What came back to a tool can always be read: a failure, an ASCII page, unless it is one of
/// search results and ends in the mark of a hit, and an answer with ASCII descriptions.
pub open spec fn readable(action: Action, reply: Reply) -> bool {
    match (action, reply) {
        (Action::Answer(_), _) => true,
        (_, Reply::Failure(_)) => true,
        (Action::Brave(_, _), Reply::Body(b)) => match json_document(b) {
            Ok(v) => brave_is_ascii(v),
            Err(_) => true,
        },
        (Action::DuckDuckGo(_), Reply::Body(b)) => is_ascii_chars(b) && !ends_in_mark(b),
        (Action::Fetch(_), Reply::Body(b)) => is_ascii_chars(b),
    }
}

/// What a tool gives back, from what came back to it. `None` where a page cannot be taken
/// apart.
pub fn tool_result(action: &ToolAction, reply: Result<&str, &str>) -> (r: Option<String>)
    ensures
        readable(action@, reply_view(reply)) ==> r is Some,
        r is Some == result_of(action@, reply_view(reply)) is Some,
        r matches Some(t) ==> result_of(action@, reply_view(reply)) == Some(t@),
{
    match action {
        ToolAction::Answer(t) => Some(t.clone()),
        ToolAction::Brave { url: _, key: _ } => match reply {
            Ok(b) => match read_brave_results(b) {
                Some(Ok(t)) => Some(t),
                Some(Err(e)) => Some(cat("search failed: ", e.as_str())),
                None => None,
            },
            Err(e) => Some(cat("search failed: ", e)),
        },
        ToolAction::DuckDuckGo { url: _ } => match reply {
            Ok(b) => try_parse_ddg_results(b),
            Err(e) => Some(cat("search failed: ", e)),
        },
        ToolAction::Fetch { url: _ } => match reply {
            Ok(b) => match try_strip_html(b) {
                Some(t) => Some(clip_page(t.as_str())),
                None => None,
            },
            Err(e) => Some(cat("fetch failed: ", e)),
        },
    }
}

/// The arguments of a call; null where they cannot be read.
pub open spec fn arguments(text: Seq<char>) -> JsonTree {
    match json_document(text) {
        Ok(v) => v,
        Err(_) => JsonTree::Null,
    }
}

/// The arguments of a call; null where they cannot be read.
pub fn read_arguments(text: &str) -> (r: Json)
    ensures
        r.tree() == arguments(text@),
{
    match read_json(text) {
        Ok(v) => v,
        Err(_) => Json::Null,
    }
}

/// A tool with one argument, which is a text, as it is offered.
pub open spec fn offer(name: Seq<char>, about: Seq<char>, argument: Seq<char>, about_argument: Seq<char>) -> JsonTree {
    let schema = JsonTree::Object(
        seq![("type"@, JsonTree::Text("string"@)), ("description"@, JsonTree::Text(about_argument))],
    );
    let parameters = JsonTree::Object(
        seq![
            ("type"@, JsonTree::Text("object"@)),
            ("properties"@, JsonTree::Object(seq![(argument, schema)])),
            ("required"@, JsonTree::Array(seq![JsonTree::Text(argument)])),
        ],
    );
    let function = JsonTree::Object(
        seq![
            ("name"@, JsonTree::Text(name)),
            ("description"@, JsonTree::Text(about)),
            ("parameters"@, parameters),
        ],
    );
    JsonTree::Object(seq![("type"@, JsonTree::Text("function"@)), ("function"@, function)])
}

/// The tools as they are offered.
pub open spec fn offers() -> JsonTree {
    JsonTree::Array(
        seq![
            offer(
                "web_search"@,
                "Search the web (Brave Search API when a key is set, else DuckDuckGo). Returns numbered titles, URLs and snippets."@,
                "query"@,
                "The search query"@,
            ),
            offer(
                "web_fetch"@,
                "Fetch an http(s) URL and return the page text (scripts/styles stripped, ~8KB truncated)."@,
                "url"@,
                "Absolute http(s) URL"@,
            ),
        ],
    )
}

fn offer_json(name: &str, about: &str, argument: &str, about_argument: &str) -> (r: Json)
    ensures
        r.tree() == offer(name@, about@, argument@, about_argument@),
{
    let schema = Json::object().with("type", Json::text("string")).with(
        "description",
        Json::text(about_argument),
    );
    assert(schema.tree()->Object_0 =~= seq![
        ("type"@, JsonTree::Text("string"@)),
        ("description"@, JsonTree::Text(about_argument@)),
    ]);
    let properties = Json::object().with(argument, schema);
    assert(properties.tree()->Object_0 =~= seq![(argument@, schema.tree())]);
    let mut names: Vec<Json> = Vec::new();
    names.push(Json::text(argument));
    let required = Json::array(names);
    assert(required.tree()->Array_0 =~= seq![JsonTree::Text(argument@)]);
    let parameters = Json::object().with("type", Json::text("object")).with("properties", properties).with(
        "required",
        required,
    );
    assert(parameters.tree()->Object_0 =~= seq![
        ("type"@, JsonTree::Text("object"@)),
        ("properties"@, properties.tree()),
        ("required"@, required.tree()),
    ]);
    let function = Json::object().with("name", Json::text(name)).with("description", Json::text(about)).with(
        "parameters",
        parameters,
    );
    assert(function.tree()->Object_0 =~= seq![
        ("name"@, JsonTree::Text(name@)),
        ("description"@, JsonTree::Text(about@)),
        ("parameters"@, parameters.tree()),
    ]);
    let r = Json::object().with("type", Json::text("function")).with("function", function);
    assert(r.tree()->Object_0 =~= seq![
        ("type"@, JsonTree::Text("function"@)),
        ("function"@, function.tree()),
    ]);
    r
}

/// The tools as they are offered.
pub fn chat_tools_json() -> (r: Json)
    ensures
        r.tree() == offers(),
{
    let mut v: Vec<Json> = Vec::new();
    v.push(
        offer_json(
            "web_search",
            "Search the web (Brave Search API when a key is set, else DuckDuckGo). Returns numbered titles, URLs and snippets.",
            "query",
            "The search query",
        ),
    );
    v.push(
        offer_json(
            "web_fetch",
            "Fetch an http(s) URL and return the page text (scripts/styles stripped, ~8KB truncated).",
            "url",
            "Absolute http(s) URL",
        ),
    );
    let r = Json::array(v);
    assert(r.tree()->Array_0 =~= offers()->Array_0);
    r
}

/// A tool fails only on a page that cannot be taken apart: whatever went wrong on the way is
/// told in the result.
pub proof fn failure_is_told(action: Action, e: Seq<char>)
    ensures
        result_of(action, Reply::Failure(e)) is Some,
{
}

/// What a page gives back is bounded.
pub proof fn page_text_is_bounded(text: Seq<char>)
    ensures
        page_text(text).len() <= PAGE_ROOM + 13,
{
    reveal_strlit("\n…[truncated]");
    assert("\n…[truncated]"@.len() == 13);
}

/// What is kept of a text is its front: all of it where it fits, and as much as fits where not.
pub proof fn clipped_is_the_front(s: Seq<char>, room: int)
    requires
        0 <= room,
    ensures
        s.len() <= room ==> clipped(s, room) == s,
        s.len() > room ==> clipped(s, room).len() == room,
        forall|i: int| 0 <= i < clipped(s, room).len() ==> #[trigger] clipped(s, room)[i] == s[i],
{
}

/// Of a page up to 8000 characters are given back as they are; a longer one is cut there, and marked.
pub proof fn page_is_given_back(front: Seq<char>, more: Seq<char>)
    ensures
        front.len() <= 8000 ==> page_text(front) == front,
        front.len() == 8000 && more.len() > 0 ==> page_text(front + more) == front + "\n…[truncated]"@,
{
    if front.len() == 8000 && more.len() > 0 {
        assert((front + more).take(8000) =~= front);
    }
}

/// A search asks for the text that the model gave: what stands behind `q=` decodes to it. It goes to
/// Brave Search where there is a key, with that key, and else to DuckDuckGo. A fetch goes where the
/// model said, and any other tool is named as unknown.
pub proof fn tools_do_what_was_asked(name: Seq<char>, args: JsonTree, text: Seq<char>, brave_key: Seq<char>)
    ensures
        name == "web_search"@ && args.at("query"@) == JsonTree::Text(text) && trimmed(brave_key).len() > 0
            ==> exists|q: Seq<char>| #[trigger]
            is_query(q, text) && tool_action(name, args, brave_key) == Action::Brave(
                "https://api.search.brave.com/res/v1/web/search?q="@ + q + "&count=8"@,
                trimmed(brave_key),
            ),
        name == "web_search"@ && args.at("query"@) == JsonTree::Text(text) && trimmed(brave_key).len() == 0
            ==> exists|q: Seq<char>| #[trigger]
            is_query(q, text) && tool_action(name, args, brave_key) == Action::DuckDuckGo(
                "https://html.duckduckgo.com/html/?q="@ + q,
            ),
        name == "web_fetch"@ && args.at("url"@) == JsonTree::Text(text) ==> tool_action(name, args, brave_key)
            == Action::Fetch(text),
        name != "web_search"@ && name != "web_fetch"@ ==> tool_action(name, args, brave_key) == Action::Answer(
            "unknown tool: "@ + name,
        ),
{
    let q = encoded(encode_utf8(text));
    reveal_strlit("web_search");
    reveal_strlit("web_fetch");
    assert("web_search"@.len() == 10 && "web_fetch"@.len() == 9);
    encoding_is_undone(text);
    assert forall|i: int| 0 <= i < q.len() implies #[trigger] q[i] != '&' && q[i] != '#' && q[i] != ' ' by {
        encoded_is_safe(encode_utf8(text), i);
    }
    assert(is_query(q, text));
}

/// A part of an address that stands for a text: it decodes to it, and holds nothing that would end it.
pub open spec fn is_query(q: Seq<char>, text: Seq<char>) -> bool {
    &&& decoded(encode_utf8(q)) matches Some(b) && text_in(b) == text
    &&& forall|i: int| 0 <= i < q.len() ==> #[trigger] q[i] != '&' && q[i] != '#' && q[i] != ' '
}

/// A fetched page is given back as its readable text, and a result page as its hits.
pub proof fn pages_are_given_back_readable(url: Seq<char>, body: Seq<char>)
    ensures
        plain(body) matches Some(t) ==> t.len() <= 8000 ==> result_of(Action::Fetch(url), Reply::Body(body)) == Some(t),
        result_of(Action::DuckDuckGo(url), Reply::Body(body)) == page_listing(body),
{
}

} // verus!
