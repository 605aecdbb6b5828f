//! The state of the application, and what each thing that happens does to it.

use vstd::prelude::*;
use vstd::string::*;
use crate::agent::LlmConfig;
use crate::budget::{place_of, BudgetState};
use crate::chat::{default_model, is_preset, message_views, resolve_model, resolved, Chat, ChatMessage, ChatState, Message, Usage};
use crate::country::Country;
use crate::decimal::{decimal, natural_text, printed_number_reads_back, read_natural, read_natural_text};
use crate::range::Range;
use crate::registry::{registry, spec_views, entries, SeriesSpec};
use crate::scalar::Scalar;
use crate::series::{with_point, Obs, Series, Tick};
use crate::table::SeriesTable;
use crate::text::{blank, cat, text_is, text_view, trim_text, trimmed, trimmed_end, trimmed_is_trimmed, trimmed_start, views};

verus! {

/// A part of the window.
#[derive(Clone, Copy, PartialEq, Eq, Structural, Debug)]
pub enum Tab {
    Dashboard,
    Budget,
}

impl Tab {
    pub open spec fn called(self) -> Seq<char> {
        match self {
            Tab::Dashboard => "Dashboard"@,
            Tab::Budget => "Budget"@,
        }
    }

    /// The name under which a tab is stored.
    pub fn name(&self) -> (r: &'static str)
        ensures
            r@ == self.called(),
    {
        match self {
            Tab::Dashboard => "Dashboard",
            Tab::Budget => "Budget",
        }
    }

    /// The tab that is stored under a name.
    pub fn from_stored(name: &str) -> (r: Tab)
        ensures
            r == (if name@ == "Budget"@ {
                Tab::Budget
            } else {
                Tab::Dashboard
            }),
    {
        if text_is(name, "Budget") {
            Tab::Budget
        } else {
            Tab::Dashboard
        }
    }
}

/// The keys that are asked for at the first start.
#[derive(Debug)]
pub struct KeyPrompt {
    pub fred: String,
    pub llm: String,
    pub brave: String,
}

impl KeyPrompt {
    /// Whether no key was given.
    pub fn is_blank(&self) -> (r: bool)
        ensures
            r == (trimmed(self.fred@).len() == 0 && trimmed(self.llm@).len() == 0 && trimmed(self.brave@).len() == 0),
    {
        blank(self.fred.as_str()) && blank(self.llm.as_str()) && blank(self.brave.as_str())
    }
}

/// The fields of the settings.
#[derive(Debug)]
pub struct SettingsForm {
    pub fred_key: String,
    pub llm_base_url: String,
    pub llm_key: String,
    pub llm_model: String,
    pub refresh_mins: String,
    pub brave_key: String,
}

/// What is open in front of the window.
#[derive(Debug)]
pub enum DialogState {
    Closed,
    Settings(SettingsForm),
    About,
    AddCategory { name: String, color: String, recurring: bool },
    EditCategory { id: i64, name: String, color: String },
    ConfirmDeleteCategory { id: i64, name: String },
    CustomModel { value: String },
}

/// Something that happened in the background.
#[allow(inconsistent_fields)]
#[derive(Debug)]
pub enum DataEvent {
    SeriesUpdated { symbol: String, obs: Vec<Obs> },
    IntradayUpdated { symbol: String, points: Vec<Tick> },
    Point { symbol: String, obs: Obs },
    Error { symbol: String, message: String },
    Status(String),
    ChatDelta { content: String },
    ChatReasoningDelta { content: String },
    ChatToolLine { line: String },
    ChatDone { error: Option<String>, usage: Option<Usage> },
}

/// Something that is to be stored.
#[derive(Debug)]
pub enum Effect {
    Config { key: &'static str, value: String },
    /// What all answers cost.
    Cost(Scalar),
    SaveObs { symbol: String, obs: Obs },
    SaveMessage(ChatMessage),
    ClearMessages,
    AddCategory { name: String, color: String, recurring: bool },
    UpdateCategory { id: i64, name: String, color: String },
    DeleteCategory { id: i64 },
    /// Colour all categories anew.
    Recolor,
    /// Load the month of the budget.
    LoadBudget,
}

/// What an [`Effect`] says.
pub enum Deed {
    Config(Seq<char>, Seq<char>),
    Cost(Scalar),
    SaveObs(Seq<char>, Obs),
    SaveMessage(Message),
    ClearMessages,
    AddCategory(Seq<char>, Seq<char>, bool),
    UpdateCategory(i64, Seq<char>, Seq<char>),
    DeleteCategory(i64),
    Recolor,
    LoadBudget,
}

impl View for Effect {
    type V = Deed;

    open spec fn view(&self) -> Deed {
        match self {
            Effect::Config { key, value } => Deed::Config(key@, value@),
            Effect::Cost(c) => Deed::Cost(*c),
            Effect::SaveObs { symbol, obs } => Deed::SaveObs(symbol@, *obs),
            Effect::SaveMessage(m) => Deed::SaveMessage(m@),
            Effect::ClearMessages => Deed::ClearMessages,
            Effect::AddCategory { name, color, recurring } => Deed::AddCategory(name@, color@, *recurring),
            Effect::UpdateCategory { id, name, color } => Deed::UpdateCategory(*id, name@, color@),
            Effect::DeleteCategory { id } => Deed::DeleteCategory(*id),
            Effect::Recolor => Deed::Recolor,
            Effect::LoadBudget => Deed::LoadBudget,
        }
    }
}

pub open spec fn deeds(v: Seq<Effect>) -> Seq<Deed> {
    v.map_values(|e: Effect| e@)
}

/// What is open, as it can be told apart.
pub enum Open {
    Nothing,
    Settings(Seq<char>, Seq<char>, Seq<char>, Seq<char>, Seq<char>, Seq<char>),
    About,
    AddCategory(Seq<char>, Seq<char>, bool),
    EditCategory(i64, Seq<char>, Seq<char>),
    ConfirmDeleteCategory(i64, Seq<char>),
    CustomModel(Seq<char>),
}

impl View for DialogState {
    type V = Open;

    open spec fn view(&self) -> Open {
        match self {
            DialogState::Closed => Open::Nothing,
            DialogState::Settings(f) => Open::Settings(
                f.fred_key@,
                f.llm_base_url@,
                f.llm_key@,
                f.llm_model@,
                f.refresh_mins@,
                f.brave_key@,
            ),
            DialogState::About => Open::About,
            DialogState::AddCategory { name, color, recurring } => Open::AddCategory(name@, color@, *recurring),
            DialogState::EditCategory { id, name, color } => Open::EditCategory(*id, name@, color@),
            DialogState::ConfirmDeleteCategory { id, name } => Open::ConfirmDeleteCategory(*id, name@),
            DialogState::CustomModel { value } => Open::CustomModel(value@),
        }
    }
}

/// The state of the application.
#[derive(Debug)]
pub struct MacroApp {
    /// The country that is shown.
    pub country: Country,
    /// The country that was chosen.
    pub selected_country: Country,
    pub series: SeriesTable,
    pub specs: Vec<SeriesSpec>,
    pub chat: ChatState,
    pub chat_maximized: bool,
    pub budget: BudgetState,
    pub current_tab: Tab,
    pub llm_base_url: String,
    pub llm_key: String,
    pub brave_key: String,
    pub key_prompt: Option<KeyPrompt>,
    pub status_text: String,
    pub dialog_state: DialogState,
    pub range: Range,
    pub last_updated: String,
}

/// What a [`MacroApp`] holds.
pub struct Board {
    pub country: Country,
    pub selected: Country,
    pub series: Map<Seq<char>, Series>,
    pub specs: Seq<SeriesSpec>,
    pub chat: Chat,
    pub maximized: bool,
    pub budget: BudgetState,
    pub tab: Tab,
    pub base_url: Seq<char>,
    pub llm_key: Seq<char>,
    pub brave_key: Seq<char>,
    pub prompt: Option<(Seq<char>, Seq<char>, Seq<char>)>,
    pub status: Seq<char>,
    pub open: Open,
    pub range: Range,
    pub updated: Seq<char>,
}

impl View for MacroApp {
    type V = Board;

    open spec fn view(&self) -> Board {
        Board {
            country: self.country,
            selected: self.selected_country,
            series: self.series@,
            specs: self.specs@,
            chat: self.chat@,
            maximized: self.chat_maximized,
            budget: self.budget,
            tab: self.current_tab,
            base_url: self.llm_base_url@,
            llm_key: self.llm_key@,
            brave_key: self.brave_key@,
            prompt: match self.key_prompt {
                Some(p) => Some((p.fred@, p.llm@, p.brave@)),
                None => None,
            },
            status: self.status_text@,
            open: self.dialog_state@,
            range: self.range,
            updated: self.last_updated@,
        }
    }
}

/// What was stored of the settings.
#[derive(Debug)]
pub struct StoredConfig {
    pub fred_key: String,
    pub country: String,
    pub range: String,
    pub llm_base_url: String,
    pub llm_key: String,
    pub brave_key: String,
    pub tab: String,
}

/// The address that is asked where none is set.
pub open spec fn default_base_url() -> Seq<char> {
    "https://openrouter.ai/api/v1"@
}

/// The time between two looks at the prices, in seconds, from how it is stored in minutes: one
/// minute where that cannot be read.
pub open spec fn refresh_of(minutes: Seq<char>) -> int {
    60 * (match read_natural(minutes) {
        Some(n) => n as int,
        None => 1,
    })
}

/// The time between two looks at the prices, in seconds, from how it is stored in minutes: one
/// minute where that cannot be read. `None` where it is too long to count.
pub fn refresh_seconds(minutes: &str) -> (r: Option<u64>)
    ensures
        r is Some == (refresh_of(minutes@) <= u64::MAX),
        r matches Some(n) ==> n == refresh_of(minutes@),
{
    let n: u64 = match read_natural_text(minutes) {
        Some(k) => k,
        None => 1,
    };
    if n <= u64::MAX / 60 {
        Some(n * 60)
    } else {
        None
    }
}

/// Whether something is switched on, from how it is stored.
pub fn stored_flag(value: &str) -> (r: bool)
    ensures
        r == (value@ == "1"@),
{
    text_is(value, "1")
}

fn flag_text(on: bool) -> (r: String)
    ensures
        r@ == (if on {
            "1"@
        } else {
            "0"@
        }),
{
    if on {
        String::from_str("1")
    } else {
        String::from_str("0")
    }
}

fn config(key: &'static str, value: String) -> (r: Effect)
    ensures
        r@ == Deed::Config(key@, value@),
{
    Effect::Config { key, value }
}

/// What is asked of a model after a question, and where.
#[derive(Debug)]
pub struct Ask {
    pub config: LlmConfig,
    pub history: Vec<ChatMessage>,
    pub text: String,
}

/// The question is asked: there is one, and there is a key.
pub open spec fn is_asked(b: Board) -> bool {
    b.chat.ready() && trimmed(b.llm_key).len() > 0
}

/// All series but one are the same, and that one has one observation more.
pub open spec fn point_taken(a: Map<Seq<char>, Series>, b: Map<Seq<char>, Series>, symbol: Seq<char>, o: Obs) -> bool {
    &&& b.dom() == a.dom()
    &&& forall|k: Seq<char>| k != symbol && a.contains_key(k) ==> #[trigger] b[k] == a[k]
    &&& a.contains_key(symbol) ==> {
        &&& b[symbol].obs@ == with_point(a[symbol].obs@, o)
        &&& b[symbol].title == a[symbol].title
        &&& b[symbol].unit == a[symbol].unit
        &&& b[symbol].source_name == a[symbol].source_name
        &&& b[symbol].intraday == a[symbol].intraday
        &&& b[symbol].error == a[symbol].error
    }
}

impl MacroApp {
    /// Each series is there once.
    pub open spec fn wf(self) -> bool {
        self.series.wf()
    }

    /// The state at the start, with what was stored. The keys are asked for where none of them
    /// is stored. The series are still to be put in.
    pub fn start(stored: StoredConfig, chat: ChatState, budget: BudgetState) -> (r: MacroApp)
        ensures
            r.wf(),
            spec_views(r.specs@) == entries(),
            r@ == (Board {
                country: Country::Australia,
                selected: Country::named(stored.country@),
                series: Map::empty(),
                specs: r.specs@,
                chat: chat@,
                maximized: false,
                budget,
                tab: if stored.tab@ == "Budget"@ {
                    Tab::Budget
                } else {
                    Tab::Dashboard
                },
                base_url: if trimmed(stored.llm_base_url@).len() == 0 {
                    default_base_url()
                } else {
                    stored.llm_base_url@
                },
                llm_key: stored.llm_key@,
                brave_key: stored.brave_key@,
                prompt: if trimmed(stored.fred_key@).len() == 0 && trimmed(stored.llm_key@).len() == 0 && trimmed(
                    stored.brave_key@,
                ).len() == 0 {
                    Some((Seq::empty(), Seq::empty(), Seq::empty()))
                } else {
                    None
                },
                status: "Ready"@,
                open: Open::Nothing,
                range: Range::restored(stored.range@),
                updated: Seq::empty(),
            }),
    {
        let llm_base_url = if blank(stored.llm_base_url.as_str()) {
            String::from_str("https://openrouter.ai/api/v1")
        } else {
            stored.llm_base_url
        };
        let key_prompt = if blank(stored.fred_key.as_str()) && blank(stored.llm_key.as_str()) && blank(
            stored.brave_key.as_str(),
        ) {
            let p = KeyPrompt { fred: String::new(), llm: String::new(), brave: String::new() };
            assert(p.fred@ =~= Seq::<char>::empty());
            assert(p.llm@ =~= Seq::<char>::empty());
            assert(p.brave@ =~= Seq::<char>::empty());
            Some(p)
        } else {
            None
        };
        let r = MacroApp {
            country: Country::Australia,
            selected_country: Country::from_name(stored.country.as_str()),
            series: SeriesTable::new(),
            specs: registry(Country::Australia),
            chat,
            chat_maximized: false,
            budget,
            current_tab: Tab::from_stored(stored.tab.as_str()),
            llm_base_url,
            llm_key: stored.llm_key,
            brave_key: stored.brave_key,
            key_prompt,
            status_text: String::from_str("Ready"),
            dialog_state: DialogState::Closed,
            range: Range::from_label(stored.range.as_str()),
            last_updated: String::new(),
        };
        assert(r.last_updated@ =~= Seq::<char>::empty());
        r
    }

    /// Takes in something that happened, at a time of the day, and says what is to be stored.
    /// At the end of an answer, `cost` is what all answers cost with it.
    pub fn apply(&mut self, event: DataEvent, clock: &str, cost: Scalar) -> (r: Vec<Effect>)
        requires
            old(self).wf(),
            event matches DataEvent::ChatDone { error: _, usage: Some(u) } ==> old(self).chat.tok_total + u.total
                <= u64::MAX,
        ensures
            final(self).wf(),
            ({
                let a = old(self)@;
                let b = final(self)@;
                match event {
                    DataEvent::SeriesUpdated { symbol, obs } => {
                        &&& b == Board {
                            series: if a.series.contains_key(symbol@) {
                                a.series.insert(symbol@, Series { obs, error: None, ..a.series[symbol@] })
                            } else {
                                a.series
                            },
                            updated: clock@,
                            ..a
                        }
                        &&& deeds(r@) == Seq::<Deed>::empty()
                    },
                    DataEvent::IntradayUpdated { symbol, points } => {
                        &&& b == Board {
                            series: if a.series.contains_key(symbol@) {
                                a.series.insert(symbol@, Series { intraday: points, ..a.series[symbol@] })
                            } else {
                                a.series
                            },
                            ..a
                        }
                        &&& deeds(r@) == Seq::<Deed>::empty()
                    },
                    DataEvent::Point { symbol, obs } => {
                        &&& b == Board { series: b.series, updated: clock@, ..a }
                        &&& point_taken(a.series, b.series, symbol@, obs)
                        &&& deeds(r@) == (if a.series.contains_key(symbol@) {
                            seq![Deed::SaveObs(symbol@, obs)]
                        } else {
                            Seq::empty()
                        })
                    },
                    DataEvent::Error { symbol, message } => {
                        &&& b == Board { series: b.series, status: symbol@ + ": "@ + message@, ..a }
                        &&& b.series.dom() == a.series.dom()
                        &&& forall|k: Seq<char>|
                            k != symbol@ && a.series.contains_key(k) ==> #[trigger] b.series[k] == a.series[k]
                        &&& a.series.contains_key(symbol@) ==> {
                            let s = b.series[symbol@];
                            &&& text_view(s.error) == Some(message@)
                            &&& s == Series { error: s.error, ..a.series[symbol@] }
                        }
                        &&& deeds(r@) == Seq::<Deed>::empty()
                    },
                    DataEvent::Status(msg) => {
                        &&& b == Board { status: msg@, ..a }
                        &&& deeds(r@) == Seq::<Deed>::empty()
                    },
                    DataEvent::ChatDelta { content } => {
                        &&& b == Board { chat: Chat { content: a.chat.content + content@, ..a.chat }, ..a }
                        &&& deeds(r@) == Seq::<Deed>::empty()
                    },
                    DataEvent::ChatReasoningDelta { content } => {
                        &&& b == Board { chat: Chat { reasoning: a.chat.reasoning + content@, ..a.chat }, ..a }
                        &&& deeds(r@) == Seq::<Deed>::empty()
                    },
                    DataEvent::ChatToolLine { line } => {
                        &&& b == Board { chat: Chat { tool_lines: a.chat.tool_lines.push(line@), ..a.chat }, ..a }
                        &&& deeds(r@) == Seq::<Deed>::empty()
                    },
                    DataEvent::ChatDone { error, usage } => {
                        let counts = match usage {
                            Some(_) => seq![
                                Deed::Config("chat_tok_total"@, decimal(b.chat.tok_total as nat)),
                                Deed::Cost(cost),
                            ],
                            None => Seq::<Deed>::empty(),
                        };
                        &&& b == Board { chat: a.chat.done(text_view(error), usage, cost), ..a }
                        &&& deeds(r@) == (match error {
                            Some(_) => counts,
                            None => counts.push(Deed::SaveMessage(a.chat.live(usage))),
                        })
                    },
                }
            }),
    {
        let mut out: Vec<Effect> = Vec::new();
        assert(deeds(out@) =~= Seq::<Deed>::empty());
        match event {
            DataEvent::SeriesUpdated { symbol, obs } => {
                self.series.set_obs(symbol.as_str(), obs);
                self.last_updated = String::from_str(clock);
            },
            DataEvent::IntradayUpdated { symbol, points } => {
                self.series.set_ticks(symbol.as_str(), points);
            },
            DataEvent::Point { symbol, obs } => {
                let there = self.series.take_point(symbol.as_str(), obs);
                self.last_updated = String::from_str(clock);
                if there {
                    let e = Effect::SaveObs { symbol, obs };
                    out.push(e);
                    assert(deeds(out@) =~= seq![e@]);
                }
            },
            DataEvent::Error { symbol, message } => {
                let mut text = cat(symbol.as_str(), ": ");
                text.append(message.as_str());
                let ghost before = self.series@;
                self.series.set_error(symbol.as_str(), message);
                self.status_text = text;
                assert(self.series@.dom() =~= before.dom());
            },
            DataEvent::Status(msg) => {
                self.status_text = msg;
            },
            DataEvent::ChatDelta { content } => {
                self.chat.take_content(content.as_str());
            },
            DataEvent::ChatReasoningDelta { content } => {
                self.chat.take_reasoning(content.as_str());
            },
            DataEvent::ChatToolLine { line } => {
                self.chat.take_tool_line(line);
            },
            DataEvent::ChatDone { error, usage } => {
                let msg = self.chat.take_done(error, usage, cost);
                if usage.is_some() {
                    let e = config("chat_tok_total", natural_text(self.chat.tok_total));
                    out.push(e);
                    out.push(Effect::Cost(cost));
                    assert(deeds(out@) =~= seq![e@, Deed::Cost(cost)]);
                }
                if let Some(m) = msg {
                    let ghost before = deeds(out@);
                    out.push(Effect::SaveMessage(m));
                    assert(deeds(out@) =~= before.push(Deed::SaveMessage(m@)));
                }
            },
        }
        out
    }

    /// Sends what was written, if it is a question: it is stored with the model that is chosen,
    /// and asked where there is a key.
    pub fn send_chat(&mut self) -> (r: (Vec<Effect>, Option<Ask>))
        requires
            old(self).wf(),
        ensures
            final(self).wf(),
            ({
                let a = old(self)@;
                let b = final(self)@;
                if !a.chat.ready() {
                    b == a && deeds(r.0@) == Seq::<Deed>::empty() && r.1 is None
                } else {
                    &&& deeds(r.0@) == seq![
                        Deed::SaveMessage(a.chat.question()),
                        Deed::Config("llm_model"@, resolved(a.chat.model)),
                    ]
                    &&& r.1 is Some == is_asked(a)
                    &&& b == Board {
                        chat: if is_asked(a) {
                            Chat { busy: true, ..a.chat.asked() }
                        } else {
                            Chat { error: Some("* no LLM API key — Settings"@), ..a.chat.asked() }
                        },
                        ..a
                    }
                    &&& r.1 matches Some(ask) ==> {
                        &&& ask.config.base_url@ == a.base_url
                        &&& ask.config.key@ == a.llm_key
                        &&& ask.config.model@ == resolved(a.chat.model)
                        &&& ask.config.brave_key@ == a.brave_key
                        &&& message_views(ask.history@) == a.chat.messages
                        &&& ask.text@ == trimmed(a.chat.input)
                    }
                }
            }),
    {
        let mut out: Vec<Effect> = Vec::new();
        assert(deeds(out@) =~= Seq::<Deed>::empty());
        let ghost before = self@;
        match self.chat.ask() {
            None => (out, None),
            Some(msg) => {
                let text = msg.content.clone();
                let model = resolve_model(self.chat.model.as_str());
                let saved = Effect::SaveMessage(msg);
                out.push(saved);
                let chosen = config("llm_model", model.clone());
                out.push(chosen);
                assert(deeds(out@) =~= seq![saved@, chosen@]);
                if blank(self.llm_key.as_str()) {
                    self.chat.error = Some(String::from_str("* no LLM API key — Settings"));
                    return (out, None);
                }
                let config = LlmConfig {
                    base_url: self.llm_base_url.clone(),
                    key: self.llm_key.clone(),
                    model,
                    brave_key: self.brave_key.clone(),
                };
                let history = self.chat.history();
                assert(self.chat@.messages.drop_last() =~= before.chat.messages);
                self.chat.busy = true;
                (out, Some(Ask { config, history, text }))
            },
        }
    }

    /// Clears the conversation.
    pub fn clear_chat(&mut self) -> (r: Vec<Effect>)
        ensures
            final(self).wf() == old(self).wf(),
            final(self)@ == (Board { chat: old(self)@.chat.cleared(), ..old(self)@ }),
            deeds(r@) == seq![
                Deed::Config("chat_tok_total"@, "0"@),
                Deed::Config("chat_cost_total"@, "0"@),
                Deed::ClearMessages,
            ],
    {
        self.chat.clear();
        let r = vec![
            config("chat_tok_total", String::from_str("0")),
            config("chat_cost_total", String::from_str("0")),
            Effect::ClearMessages,
        ];
        assert(deeds(r@) =~= seq![
            Deed::Config("chat_tok_total"@, "0"@),
            Deed::Config("chat_cost_total"@, "0"@),
            Deed::ClearMessages,
        ]);
        r
    }

    /// Shows another stretch of time.
    pub fn set_range(&mut self, range: Range) -> (r: Vec<Effect>)
        ensures
            final(self).wf() == old(self).wf(),
            final(self)@ == (Board { range, ..old(self)@ }),
            deeds(r@) == seq![Deed::Config("range"@, range.labelled())],
    {
        self.range = range;
        let r = vec![config("range", String::from_str(range.label()))];
        assert(deeds(r@) =~= seq![Deed::Config("range"@, range.labelled())]);
        r
    }

    /// Shows another part of the window. The budget is loaded when it is shown.
    pub fn set_tab(&mut self, tab: Tab) -> (r: Vec<Effect>)
        ensures
            final(self).wf() == old(self).wf(),
            final(self)@ == (Board { tab, ..old(self)@ }),
            deeds(r@) == (match tab {
                Tab::Dashboard => seq![Deed::Config("tab"@, "Dashboard"@)],
                Tab::Budget => seq![Deed::Config("tab"@, "Budget"@), Deed::LoadBudget],
            }),
    {
        self.current_tab = tab;
        let first = config("tab", String::from_str(tab.name()));
        match tab {
            Tab::Dashboard => {
                let r = vec![first];
                assert(deeds(r@) =~= seq![first@]);
                r
            },
            Tab::Budget => {
                let r = vec![first, Effect::LoadBudget];
                assert(deeds(r@) =~= seq![first@, Deed::LoadBudget]);
                r
            },
        }
    }

    /// Sets whether categories that do not come again count.
    pub fn set_count_oneoff(&mut self, on: bool) -> (r: Vec<Effect>)
        ensures
            final(self).wf() == old(self).wf(),
            final(self)@ == (Board { budget: BudgetState { count_oneoff: on, ..old(self)@.budget }, ..old(self)@ }),
            deeds(r@) == seq![
                Deed::Config(
                    "count_oneoff"@,
                    if on {
                        "1"@
                    } else {
                        "0"@
                    },
                ),
            ],
    {
        self.budget.count_oneoff = on;
        let e = config("count_oneoff", flag_text(on));
        let r = vec![e];
        assert(deeds(r@) =~= seq![e@]);
        r
    }

    /// Sets whether categories are coloured anew. When that is switched on, they are.
    pub fn set_auto_color(&mut self, on: bool) -> (r: Vec<Effect>)
        ensures
            final(self).wf() == old(self).wf(),
            final(self)@ == (Board { budget: BudgetState { auto_color: on, ..old(self)@.budget }, ..old(self)@ }),
            deeds(r@) == (if on {
                seq![Deed::Config("auto_color"@, "1"@), Deed::Recolor, Deed::LoadBudget]
            } else {
                seq![Deed::Config("auto_color"@, "0"@)]
            }),
    {
        self.budget.auto_color = on;
        let e = config("auto_color", flag_text(on));
        if on {
            let r = vec![e, Effect::Recolor, Effect::LoadBudget];
            assert(deeds(r@) =~= seq![e@, Deed::Recolor, Deed::LoadBudget]);
            r
        } else {
            let r = vec![e];
            assert(deeds(r@) =~= seq![e@]);
            r
        }
    }

    /// Chooses a country. Only the first has a dashboard, which stays in sight.
    pub fn choose_country(&mut self, country: Country) -> (r: Vec<Effect>)
        ensures
            final(self).wf() == old(self).wf(),
            final(self)@ == (Board {
                selected: country,
                status: if country != old(self)@.country {
                    country.called() + " dashboard coming soon — showing Australia"@
                } else {
                    "Ready"@
                },
                ..old(self)@
            }),
            deeds(r@) == seq![Deed::Config("country"@, country.called())],
    {
        self.selected_country = country;
        self.status_text = if country != self.country {
            cat(country.name(), " dashboard coming soon — showing Australia")
        } else {
            String::from_str("Ready")
        };
        let e = config("country", String::from_str(country.name()));
        let r = vec![e];
        assert(deeds(r@) =~= seq![e@]);
        r
    }

    /// Tells that a round of all fetches was asked for.
    pub fn refresh(&mut self)
        ensures
            final(self).wf() == old(self).wf(),
            final(self)@ == (Board { status: "Refreshing…"@, ..old(self)@ }),
    {
        self.status_text = String::from_str("Refreshing…");
    }

    /// Gives the chat the whole window, or takes it back.
    pub fn toggle_chat(&mut self)
        ensures
            final(self).wf() == old(self).wf(),
            final(self)@ == (Board { maximized: !old(self)@.maximized, ..old(self)@ }),
    {
        self.chat_maximized = !self.chat_maximized;
    }

    /// After how many milliseconds the window is to be drawn anew of itself: the dots that show
    /// that an answer is awaited come and go.
    pub fn redraw_after(&self) -> (r: Option<u64>)
        ensures
            r == (if self@.chat.busy {
                Some(300u64)
            } else {
                None
            }),
    {
        if self.chat.busy {
            Some(300)
        } else {
            None
        }
    }

    /// Takes in the keys that were asked for at the start. Those that are blank are not stored.
    pub fn finish_key_prompt(&mut self) -> (r: Vec<Effect>)
        ensures
            final(self).wf() == old(self).wf(),
            match old(self)@.prompt {
                None => final(self)@ == old(self)@ && deeds(r@) == Seq::<Deed>::empty(),
                Some((fred, llm, brave)) => {
                    &&& final(self)@ == Board {
                        prompt: None,
                        llm_key: trimmed(llm),
                        brave_key: trimmed(brave),
                        status: "API keys saved"@,
                        ..old(self)@
                    }
                    &&& deeds(r@) == key_deed("fred_key"@, fred) + key_deed("llm_key"@, llm) + key_deed(
                        "brave_key"@,
                        brave,
                    )
                },
            },
    {
        let mut out: Vec<Effect> = Vec::new();
        assert(deeds(out@) =~= Seq::<Deed>::empty());
        match self.key_prompt.take() {
            None => out,
            Some(p) => {
                push_key(&mut out, "fred_key", p.fred.as_str());
                push_key(&mut out, "llm_key", p.llm.as_str());
                push_key(&mut out, "brave_key", p.brave.as_str());
                assert(deeds(out@) =~= key_deed("fred_key"@, p.fred@) + key_deed("llm_key"@, p.llm@) + key_deed(
                    "brave_key"@,
                    p.brave@,
                ));
                self.llm_key = trim_text(p.llm.as_str());
                self.brave_key = trim_text(p.brave.as_str());
                self.status_text = String::from_str("API keys saved");
                out
            },
        }
    }
}

/// What is stored of a key.
pub open spec fn key_deed(key: Seq<char>, value: Seq<char>) -> Seq<Deed> {
    if trimmed(value).len() == 0 {
        Seq::empty()
    } else {
        seq![Deed::Config(key, trimmed(value))]
    }
}

fn push_key(out: &mut Vec<Effect>, key: &'static str, value: &str)
    ensures
        deeds(final(out)@) == deeds(old(out)@) + key_deed(key@, value@),
{
    let ghost before = deeds(out@);
    if !blank(value) {
        let e = config(key, trim_text(value));
        out.push(e);
        assert(deeds(out@) =~= before + seq![e@]);
    } else {
        assert(deeds(out@) =~= before + key_deed(key@, value@));
    }
}

/// The fields of the settings where nothing that is stored can be read.
pub fn default_form() -> (r: SettingsForm)
    ensures
        DialogState::Settings(r)@ == Open::Settings(""@, default_base_url(), ""@, ""@, "1"@, ""@),
{
    SettingsForm {
        fred_key: String::from_str(""),
        llm_base_url: String::from_str("https://openrouter.ai/api/v1"),
        llm_key: String::from_str(""),
        llm_model: String::from_str(""),
        refresh_mins: String::from_str("1"),
        brave_key: String::from_str(""),
    }
}

/// What a closed or a kept dialog leaves open.
pub open spec fn kept(open: bool, dialog: Open) -> Open {
    if open {
        dialog
    } else {
        Open::Nothing
    }
}

fn keep(open: bool, dialog: DialogState) -> (r: DialogState)
    ensures
        r@ == kept(open, dialog@),
{
    if open {
        dialog
    } else {
        DialogState::Closed
    }
}

/// What is stored when the settings are saved.
pub open spec fn settings_deeds(f: SettingsForm) -> Seq<Deed> {
    seq![
        Deed::Config("fred_key"@, trimmed(f.fred_key@)),
        Deed::Config("llm_base_url"@, trimmed(f.llm_base_url@)),
        Deed::Config("llm_key"@, trimmed(f.llm_key@)),
        Deed::Config("llm_model"@, trimmed(f.llm_model@)),
        Deed::Config("refresh_mins"@, trimmed(f.refresh_mins@)),
        Deed::Config("brave_key"@, trimmed(f.brave_key@)),
    ]
}

impl MacroApp {
    /// Takes what is open, to show it; nothing is open then.
    pub fn take_dialog(&mut self) -> (r: DialogState)
        ensures
            final(self).wf() == old(self).wf(),
            r@ == old(self)@.open,
            final(self)@ == (Board { open: Open::Nothing, ..old(self)@ }),
    {
        let mut r = DialogState::Closed;
        std::mem::swap(&mut r, &mut self.dialog_state);
        r
    }

    /// Opens something.
    pub fn open_dialog(&mut self, dialog: DialogState)
        ensures
            final(self).wf() == old(self).wf(),
            final(self)@ == (Board { open: dialog@, ..old(self)@ }),
    {
        self.dialog_state = dialog;
    }

    /// Opens the form for a new category.
    pub fn open_add_category(&mut self)
        ensures
            final(self).wf() == old(self).wf(),
            final(self)@ == (Board { open: Open::AddCategory(""@, "#2196F3"@, true), ..old(self)@ }),
    {
        self.dialog_state = DialogState::AddCategory {
            name: String::from_str(""),
            color: String::from_str("#2196F3"),
            recurring: true,
        };
    }

    /// Opens the form for a model that is not offered. It holds the model that is chosen where
    /// that is such a one.
    pub fn open_custom_model(&mut self, offered: &Vec<String>)
        ensures
            final(self).wf() == old(self).wf(),
            final(self)@ == (Board {
                open: Open::CustomModel(
                    if views(offered@).contains(old(self)@.chat.model) {
                        ""@
                    } else {
                        old(self)@.chat.model
                    },
                ),
                ..old(self)@
            }),
    {
        let value = if is_preset(self.chat.model.as_str(), offered) {
            String::from_str("")
        } else {
            self.chat.model.clone()
        };
        self.dialog_state = DialogState::CustomModel { value };
    }

    /// Opens the form for a category. Nothing happens where there is none with that id.
    pub fn open_edit(&mut self, id: i64)
        ensures
            final(self).wf() == old(self).wf(),
            final(self)@ == (match place_of(old(self).budget.categories@, id) {
                Some(i) => Board {
                    open: Open::EditCategory(
                        id,
                        old(self).budget.categories@[i].name@,
                        old(self).budget.categories@[i].color@,
                    ),
                    ..old(self)@
                },
                None => old(self)@,
            }),
    {
        if let Some(i) = self.budget.find_category(id) {
            self.dialog_state = DialogState::EditCategory {
                id,
                name: self.budget.categories[i].name.clone(),
                color: self.budget.categories[i].color.clone(),
            };
        }
    }

    /// Opens the question whether a category is to be deleted. Nothing happens where there is
    /// none with that id.
    pub fn open_delete(&mut self, id: i64)
        ensures
            final(self).wf() == old(self).wf(),
            final(self)@ == (match place_of(old(self).budget.categories@, id) {
                Some(i) => Board {
                    open: Open::ConfirmDeleteCategory(id, old(self).budget.categories@[i].name@),
                    ..old(self)@
                },
                None => old(self)@,
            }),
    {
        if let Some(i) = self.budget.find_category(id) {
            self.dialog_state = DialogState::ConfirmDeleteCategory {
                id,
                name: self.budget.categories[i].name.clone(),
            };
        }
    }

    /// After the settings were shown: they are saved, stay open or are closed.
    pub fn settings_shown(&mut self, form: SettingsForm, save: bool, open: bool) -> (r: Vec<Effect>)
        ensures
            final(self).wf() == old(self).wf(),
            if save {
                &&& final(self)@ == Board {
                    base_url: if trimmed(form.llm_base_url@).len() == 0 {
                        default_base_url()
                    } else {
                        trimmed(form.llm_base_url@)
                    },
                    llm_key: trimmed(form.llm_key@),
                    brave_key: trimmed(form.brave_key@),
                    status: "Settings saved (restart to apply)"@,
                    open: Open::Nothing,
                    ..old(self)@
                }
                &&& deeds(r@) == settings_deeds(form)
            } else {
                &&& final(self)@ == Board { open: kept(open, DialogState::Settings(form)@), ..old(self)@ }
                &&& deeds(r@) == Seq::<Deed>::empty()
            },
    {
        let mut out: Vec<Effect> = Vec::new();
        assert(deeds(out@) =~= Seq::<Deed>::empty());
        if !save {
            self.dialog_state = keep(open, DialogState::Settings(form));
            return out;
        }
        out.push(config("fred_key", trim_text(form.fred_key.as_str())));
        out.push(config("llm_base_url", trim_text(form.llm_base_url.as_str())));
        out.push(config("llm_key", trim_text(form.llm_key.as_str())));
        out.push(config("llm_model", trim_text(form.llm_model.as_str())));
        out.push(config("refresh_mins", trim_text(form.refresh_mins.as_str())));
        out.push(config("brave_key", trim_text(form.brave_key.as_str())));
        assert(deeds(out@) =~= settings_deeds(form));
        self.llm_base_url = if blank(form.llm_base_url.as_str()) {
            String::from_str("https://openrouter.ai/api/v1")
        } else {
            trim_text(form.llm_base_url.as_str())
        };
        self.llm_key = trim_text(form.llm_key.as_str());
        self.brave_key = trim_text(form.brave_key.as_str());
        self.status_text = String::from_str("Settings saved (restart to apply)");
        self.dialog_state = DialogState::Closed;
        out
    }

    /// After the form for a new category was shown: one with a name is added, else the form
    /// stays open or is closed.
    pub fn add_category_shown(&mut self, name: String, color: String, recurring: bool, save: bool, open: bool) -> (r: Vec<
        Effect,
    >)
        ensures
            final(self).wf() == old(self).wf(),
            if save && trimmed(name@).len() > 0 {
                &&& final(self)@ == Board {
                    status: "Added category: "@ + trimmed(name@),
                    open: Open::Nothing,
                    ..old(self)@
                }
                &&& deeds(r@) == seq![
                    Deed::AddCategory(trimmed(name@), trimmed(color@), recurring),
                    Deed::LoadBudget,
                ]
            } else {
                &&& final(self)@ == Board {
                    open: kept(open, Open::AddCategory(name@, color@, recurring)),
                    ..old(self)@
                }
                &&& deeds(r@) == Seq::<Deed>::empty()
            },
    {
        let mut out: Vec<Effect> = Vec::new();
        assert(deeds(out@) =~= Seq::<Deed>::empty());
        if save && !blank(name.as_str()) {
            let e = Effect::AddCategory { name: trim_text(name.as_str()), color: trim_text(color.as_str()), recurring };
            out.push(e);
            out.push(Effect::LoadBudget);
            assert(deeds(out@) =~= seq![e@, Deed::LoadBudget]);
            self.status_text = cat("Added category: ", trim_text(name.as_str()).as_str());
            self.dialog_state = DialogState::Closed;
        } else {
            self.dialog_state = keep(open, DialogState::AddCategory { name, color, recurring });
        }
        out
    }

    /// After the form for a category was shown: one with a name is changed, else the form stays
    /// open or is closed.
    pub fn edit_category_shown(&mut self, id: i64, name: String, color: String, save: bool, open: bool) -> (r: Vec<Effect>)
        ensures
            final(self).wf() == old(self).wf(),
            if save && trimmed(name@).len() > 0 {
                &&& final(self)@ == Board { open: Open::Nothing, ..old(self)@ }
                &&& deeds(r@) == seq![Deed::UpdateCategory(id, trimmed(name@), trimmed(color@)), Deed::LoadBudget]
            } else {
                &&& final(self)@ == Board { open: kept(open, Open::EditCategory(id, name@, color@)), ..old(self)@ }
                &&& deeds(r@) == Seq::<Deed>::empty()
            },
    {
        let mut out: Vec<Effect> = Vec::new();
        assert(deeds(out@) =~= Seq::<Deed>::empty());
        if save && !blank(name.as_str()) {
            let e = Effect::UpdateCategory { id, name: trim_text(name.as_str()), color: trim_text(color.as_str()) };
            out.push(e);
            out.push(Effect::LoadBudget);
            assert(deeds(out@) =~= seq![e@, Deed::LoadBudget]);
            self.dialog_state = DialogState::Closed;
        } else {
            self.dialog_state = keep(open, DialogState::EditCategory { id, name, color });
        }
        out
    }

    /// After it was asked whether a category is to be deleted: it is, or the question stays
    /// open or is closed.
    pub fn delete_category_shown(&mut self, id: i64, name: String, delete: bool, cancel: bool, open: bool) -> (r: Vec<
        Effect,
    >)
        ensures
            final(self).wf() == old(self).wf(),
            if delete {
                &&& final(self)@ == Board { open: Open::Nothing, ..old(self)@ }
                &&& deeds(r@) == seq![Deed::DeleteCategory(id), Deed::LoadBudget]
            } else {
                &&& final(self)@ == Board {
                    open: kept(open && !cancel, Open::ConfirmDeleteCategory(id, name@)),
                    ..old(self)@
                }
                &&& deeds(r@) == Seq::<Deed>::empty()
            },
    {
        let mut out: Vec<Effect> = Vec::new();
        assert(deeds(out@) =~= Seq::<Deed>::empty());
        if delete {
            let e = Effect::DeleteCategory { id };
            out.push(e);
            out.push(Effect::LoadBudget);
            assert(deeds(out@) =~= seq![e@, Deed::LoadBudget]);
            self.dialog_state = DialogState::Closed;
        } else {
            self.dialog_state = keep(open && !cancel, DialogState::ConfirmDeleteCategory { id, name });
        }
        out
    }

    /// After the form for a model was shown: one that is not blank is chosen, else the form
    /// stays open or is closed.
    pub fn custom_model_shown(&mut self, value: String, save: bool, cancel: bool, open: bool) -> (r: Vec<Effect>)
        ensures
            final(self).wf() == old(self).wf(),
            if save && trimmed(value@).len() > 0 {
                &&& final(self)@ == Board {
                    chat: Chat { model: trimmed(value@), ..old(self)@.chat },
                    open: Open::Nothing,
                    ..old(self)@
                }
                &&& deeds(r@) == seq![Deed::Config("llm_model"@, trimmed(value@))]
            } else {
                &&& final(self)@ == Board { open: kept(open && !cancel, Open::CustomModel(value@)), ..old(self)@ }
                &&& deeds(r@) == Seq::<Deed>::empty()
            },
    {
        let mut out: Vec<Effect> = Vec::new();
        assert(deeds(out@) =~= Seq::<Deed>::empty());
        if save && !blank(value.as_str()) {
            self.chat.model = trim_text(value.as_str());
            let e = config("llm_model", trim_text(value.as_str()));
            out.push(e);
            assert(deeds(out@) =~= seq![e@]);
            self.dialog_state = DialogState::Closed;
        } else {
            self.dialog_state = keep(open && !cancel, DialogState::CustomModel { value });
        }
        out
    }

    /// The line at the right end of the status bar.
    pub fn version_line(&self) -> (r: String)
        ensures
            r@ == (if self.last_updated@.len() == 0 {
                "v1.0"@
            } else {
                "Updated "@ + self.last_updated@ + "  ·  "@ + "v1.0"@
            }),
    {
        if self.last_updated.as_str().is_empty() {
            String::from_str("v1.0")
        } else {
            let mut t = cat("Updated ", self.last_updated.as_str());
            t.append("  ·  ");
            t.append("v1.0");
            t
        }
    }
}

/// How many cards stand in one row.
pub const COLUMNS: usize = 3;

/// How many cards stand in the grid, of `n` series: at most nine, and not the last, which stands
/// beside the chat.
pub fn grid_cards(n: usize) -> (r: usize)
    ensures
        r == (if n == 0 {
            0
        } else if n > 10 {
            9
        } else {
            n - 1
        }),
{
    if n == 0 {
        0
    } else if n > 10 {
        9
    } else {
        n - 1
    }
}

/// How many rows `n` cards take.
pub fn grid_rows(n: usize) -> (r: usize)
    ensures
        r == (n + COLUMNS - 1) / COLUMNS as int,
{
    if n % COLUMNS == 0 {
        n / COLUMNS
    } else {
        n / COLUMNS + 1
    }
}

/// A switch comes back as it was stored.
pub proof fn flag_comes_back(on: bool)
    ensures
        ((if on {
            "1"@
        } else {
            "0"@
        }) == "1"@) == on,
{
    reveal_strlit("1");
    reveal_strlit("0");
    assert("1"@[0] == '1' && "0"@[0] == '0');
}

/// A tab comes back as it was stored.
pub proof fn tab_comes_back(tab: Tab)
    ensures
        tab == (if tab.called() == "Budget"@ {
            Tab::Budget
        } else {
            Tab::Dashboard
        }),
{
    reveal_strlit("Budget");
    reveal_strlit("Dashboard");
    assert("Budget"@.len() != "Dashboard"@.len());
}

/// What is stored when the settings are saved leads, at the next start, to the address that is
/// asked since they were saved.
pub proof fn saved_address_comes_back(url: Seq<char>)
    ensures
        (if trimmed(trimmed(url)).len() == 0 {
            default_base_url()
        } else {
            trimmed(url)
        }) == (if trimmed(url).len() == 0 {
            default_base_url()
        } else {
            trimmed(url)
        }),
{
    trimmed_is_trimmed(url);
}

/// A model that is chosen stays what it is when it is resolved again.
pub proof fn chosen_model_stays(model: Seq<char>)
    ensures
        resolved(resolved(model)) == resolved(model),
{
    if trimmed(model).len() == 0 {
        reveal_strlit("openai/gpt-4o-mini");
        let m = default_model();
        assert(m.len() == 18);
        assert(m[0] == 'o' && m[17] == 'i');
        assert(trimmed_start(m) == m);
        assert(trimmed_end(m) == m);
    } else {
        trimmed_is_trimmed(model);
    }
}

/// What a question and the answer to it leave behind: two messages, and an idle chat.
pub proof fn question_and_answer(b: Board, content: Seq<char>, usage: Option<Usage>, cost: Scalar)
    requires
        b.chat.ready(),
    ensures
        ({
            let waiting = Chat { busy: true, ..b.chat.asked() };
            let after = Chat { content, ..waiting }.done(None, usage, cost);
            &&& after.messages.len() == b.chat.messages.len() + 2
            &&& after.messages[b.chat.messages.len() as int] == b.chat.question()
            &&& after.messages.last().content == content
            &&& !after.active()
            &&& after.input.len() == 0
        }),
{
}

/// While an answer is awaited, no question is sent.
pub proof fn no_question_while_busy(b: Board)
    requires
        b.chat.busy,
    ensures
        !b.chat.ready(),
        !is_asked(b),
{
}

/// What deeds store under a key: the last word of them.
pub open spec fn stored_under(d: Seq<Deed>, key: Seq<char>) -> Option<Seq<char>>
    decreases d.len(),
{
    if d.len() == 0 {
        None
    } else {
        match d.last() {
            Deed::Config(k, v) => if k == key {
                Some(v)
            } else {
                stored_under(d.drop_last(), key)
            },
            _ => stored_under(d.drop_last(), key),
        }
    }
}

/// Settings that are saved are stored each under its own name, without white space around them.
pub proof fn settings_are_stored_under_their_names(f: SettingsForm)
    ensures
        stored_under(settings_deeds(f), "fred_key"@) == Some(trimmed(f.fred_key@)),
        stored_under(settings_deeds(f), "llm_base_url"@) == Some(trimmed(f.llm_base_url@)),
        stored_under(settings_deeds(f), "llm_key"@) == Some(trimmed(f.llm_key@)),
        stored_under(settings_deeds(f), "llm_model"@) == Some(trimmed(f.llm_model@)),
        stored_under(settings_deeds(f), "refresh_mins"@) == Some(trimmed(f.refresh_mins@)),
        stored_under(settings_deeds(f), "brave_key"@) == Some(trimmed(f.brave_key@)),
{
    reveal_strlit("fred_key");
    reveal_strlit("llm_base_url");
    reveal_strlit("llm_key");
    reveal_strlit("llm_model");
    reveal_strlit("refresh_mins");
    reveal_strlit("brave_key");
    assert("fred_key"@.len() == 8 && "llm_base_url"@.len() == 12 && "llm_key"@.len() == 7 && "llm_model"@.len() == 9
        && "refresh_mins"@.len() == 12 && "brave_key"@.len() == 9);
    assert("llm_model"@[0] == 'l' && "brave_key"@[0] == 'b' && "llm_base_url"@[0] == 'l' && "refresh_mins"@[0] == 'r');
    let d = settings_deeds(f);
    let d5 = d.drop_last();
    let d4 = d5.drop_last();
    let d3 = d4.drop_last();
    let d2 = d3.drop_last();
    let d1 = d2.drop_last();
    reveal_with_fuel(stored_under, 7);
}

/// A key that is given at the start is stored without white space around it, and a blank one is not
/// stored at all.
pub proof fn given_keys_are_stored(key: Seq<char>, value: Seq<char>)
    ensures
        trimmed(value).len() > 0 ==> stored_under(key_deed(key, value), key) == Some(trimmed(value)),
        trimmed(value).len() == 0 ==> key_deed(key, value).len() == 0,
{
    if trimmed(value).len() > 0 {
        assert(key_deed(key, value).last() == Deed::Config(key, trimmed(value)));
    }
}

/// Prices are looked at every so many minutes as is stored, and every minute where nothing can be
/// read.
pub proof fn refresh_is_in_minutes(n: u64, other: Seq<char>)
    ensures
        refresh_of(decimal(n as nat)) == 60 * n,
        read_natural(other) is None ==> refresh_of(other) == 60,
{
    printed_number_reads_back(n);
}

} // verus!
