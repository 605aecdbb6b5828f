use marketeer::budget::{savings_split, seed_budget, BudgetCategory, BudgetState, Share, Split};
use marketeer::chat::{
    is_preset, load_message, load_messages, model_presets, read_tool_log, read_usage, resolve_model,
    store_message, thinking, tool_log_text, usage_text, ChatMessage, ChatRole, ChatState, Usage,
};
use marketeer::color::{hex_to_color, palette, rainbow, rgb_hex, try_hex_to_color, Rainbow, Rgb};
use marketeer::country::Country;
use marketeer::dashboard::{
    default_form, grid_cards, grid_rows, refresh_seconds, stored_flag, DataEvent, DialogState,
    Effect, MacroApp, SettingsForm, StoredConfig, Tab,
};
use marketeer::decimal::{natural_text, padded_text, read_natural_text, signed_text};
use marketeer::display::{change_badge, fmt_usd, fmt_value, thousands, Badge, ValueStyle};
use marketeer::prompt::{market_system_prompt, row_line, snapshots, with_unit, RowText, StatsText};
use marketeer::range::Range;
use marketeer::registry::registry;
use marketeer::scalar::Scalar;
use marketeer::series::{Obs, Series, Tick};
use marketeer::table::SeriesTable;
use marketeer::text::{blank, lines, split, trim_text};
use marketeer::worker::{Task, Worker, WorkerHandle, DAY, SECOND};

fn num(v: f64) -> Scalar {
    Scalar::from_bits(v.to_bits())
}

fn obs(day: i32, value: f64) -> Obs {
    Obs { day, value: num(value) }
}

#[test]
fn numbers_are_written_and_read() {
    assert_eq!(natural_text(0), "0");
    assert_eq!(natural_text(u64::MAX), "18446744073709551615");
    assert_eq!(signed_text(-2015), "-2015");
    assert_eq!(signed_text(i32::MIN), "-2147483648");
    assert_eq!(padded_text(7, 2), "07");
    assert_eq!(padded_text(-7, 4), "-007");
    assert_eq!(padded_text(12345, 4), "12345");
    assert_eq!(read_natural_text("18446744073709551615"), Some(u64::MAX));
    assert_eq!(read_natural_text("18446744073709551616"), None);
    assert_eq!(read_natural_text("+5"), Some(5));
    assert_eq!(read_natural_text("007"), Some(7));
    for bad in ["", "+", "-1", " 1", "1.0", "x"] {
        assert_eq!(read_natural_text(bad), None, "{}", bad);
    }
}

#[test]
fn texts_are_taken_apart() {
    assert_eq!(trim_text(" \t a b\u{a0}\u{3000}"), "a b");
    assert!(blank(" \n\u{2003}"));
    assert!(!blank(" x "));
    let v: Vec<char> = "a|b||".chars().collect();
    assert_eq!(split(&v, '|'), vec!["a", "b", "", ""]);
    let w: Vec<char> = "one\r\ntwo\n\nthree\r".chars().collect();
    assert_eq!(lines(&w), vec!["one", "two", "", "three\r"]);
}

#[test]
fn models_are_resolved() {
    assert_eq!(resolve_model("  "), "openai/gpt-4o-mini");
    assert_eq!(resolve_model(" some/model "), "some/model");
    assert_eq!(resolve_model(&resolve_model(" m ")), "m");
    let offered = model_presets("openai/gpt-4o-mini\na/one\n\nb/two\r\nc/three\nd/four\n");
    assert_eq!(offered, vec!["openai/gpt-4o-mini", "a/one", "b/two", "c/three", "d/four"]);
    for m in &offered {
        assert!(is_preset(m, &offered));
    }
    assert!(!is_preset("some/model", &offered));
    assert!(!is_preset("", &offered));
    assert!(!is_preset("a/one", &Vec::new()));
}

#[test]
fn roles_come_back() {
    for r in [ChatRole::User, ChatRole::Assistant] {
        assert_eq!(ChatRole::from_stored(r.api()), r);
    }
    assert_eq!(ChatRole::from_stored("tool"), ChatRole::Assistant);
    assert_eq!(ChatRole::User.api(), "user");
    assert_eq!(ChatRole::User.prefix(), "* you");
    assert_eq!(ChatRole::Assistant.prefix(), "* ai");
}

#[test]
fn usage_comes_back() {
    let u = Usage { prompt: 12, completion: 3, total: 15, cost: num(0.5) };
    let text = usage_text(&u, "0.5");
    assert_eq!(text, "12|3|15|0.5");
    let r = read_usage(&text).unwrap();
    assert_eq!((r.prompt, r.completion, r.total, r.cost.as_str()), (12, 3, 15, "0.5"));
    assert!(read_usage("").is_none());
    assert!(read_usage("1|2|3").is_none());
    assert!(read_usage("1|2|3|4|5").is_none());
    let bad = read_usage("x|-1|3|").unwrap();
    assert_eq!((bad.prompt, bad.completion, bad.total, bad.cost.as_str()), (0, 0, 3, ""));
}

#[test]
fn tool_logs_come_back() {
    let log = vec!["↳ web_search \"x\"".to_string(), "↳ web_fetch y".to_string()];
    assert_eq!(tool_log_text(&log), "↳ web_search \"x\"\n↳ web_fetch y");
    assert_eq!(read_tool_log(&tool_log_text(&log)), log);
    assert_eq!(read_tool_log(""), Vec::<String>::new());
    assert_eq!(read_tool_log("a\n\nb\n"), vec!["a", "b"]);
}

#[test]
fn messages_come_back() {
    let u = Usage { prompt: 1, completion: 2, total: 3, cost: num(0.25) };
    let m = ChatMessage {
        role: ChatRole::Assistant,
        content: "an | answer\n".to_string(),
        reasoning: "why".to_string(),
        tool_log: vec!["a".to_string(), "b\r".to_string()],
        usage: Some(u),
    };
    let row = store_message(&m, "0.25");
    assert_eq!((row.role.as_str(), row.tool_log.as_str(), row.usage.as_str()), ("assistant", "a\nb\r", "1|2|3|0.25"));
    let back = load_message(row);
    assert_eq!(back.role, m.role);
    assert_eq!(back.content, m.content);
    assert_eq!(back.reasoning, m.reasoning);
    assert_eq!(back.tool_log, m.tool_log);
    let v = back.usage.unwrap();
    assert_eq!((v.prompt, v.completion, v.total, v.cost.as_str()), (1, 2, 3, "0.25"));
    let q = ChatMessage { role: ChatRole::User, usage: None, tool_log: Vec::new(), ..m };
    let plain = store_message(&q, "");
    assert_eq!((plain.role.as_str(), plain.tool_log.as_str(), plain.usage.as_str()), ("user", "", ""));
    let back = load_message(plain);
    assert_eq!(back.role, ChatRole::User);
    assert!(back.usage.is_none() && back.tool_log.is_empty());
}

#[test]
fn a_conversation_comes_back_in_order() {
    let mut rows = Vec::new();
    let mut told = Vec::new();
    for i in 0..5u64 {
        let m = ChatMessage {
            role: if i % 2 == 0 { ChatRole::User } else { ChatRole::Assistant },
            content: format!("message {}", i),
            reasoning: format!("reason {}", i),
            tool_log: vec!["first".to_string(); i as usize],
            usage: if i == 3 { Some(Usage { prompt: 7, completion: 8, total: 15, cost: num(0.5) }) } else { None },
        };
        rows.push(store_message(&m, "0.5"));
        told.push(m);
    }
    let back = load_messages(rows);
    assert_eq!(back.len(), 5);
    for (b, m) in back.iter().zip(&told) {
        assert_eq!(b.role, m.role);
        assert_eq!(b.content, m.content);
        assert_eq!(b.reasoning, m.reasoning);
        assert_eq!(b.tool_log, m.tool_log);
        assert_eq!(
            b.usage.as_ref().map(|u| (u.prompt, u.completion, u.total, u.cost.clone())),
            m.usage.map(|u| (u.prompt, u.completion, u.total, "0.5".to_string()))
        );
    }
    assert!(load_messages(Vec::new()).is_empty());
}

fn fresh_chat() -> ChatState {
    ChatState::restore(Vec::new(), "", "", num(0.0))
}

#[test]
fn a_chat_is_restored() {
    let c = ChatState::restore(Vec::new(), "", "123", num(2.0));
    assert_eq!(c.model, "openai/gpt-4o-mini");
    assert_eq!(c.tok_total, 123);
    assert_eq!(c.cost_total, num(2.0));
    let d = ChatState::restore(Vec::new(), "a/b", "?", num(0.0));
    assert_eq!((d.model.as_str(), d.tok_total), ("a/b", 0));
    assert!(!d.busy && d.error.is_none() && d.live_message().is_none());
}

#[test]
fn a_question_and_its_answer_are_kept() {
    let mut c = fresh_chat();
    c.input = "  why?  ".to_string();
    let q = c.ask().unwrap();
    assert_eq!((q.role, q.content.as_str()), (ChatRole::User, "why?"));
    assert_eq!(c.input, "");
    c.busy = true;
    c.input = "again".to_string();
    assert!(c.ask().is_none());
    c.take_content("be");
    c.take_content("cause");
    c.take_reasoning("hm");
    c.take_tool_line("↳ x".to_string());
    let live = c.live_message().unwrap();
    assert_eq!((live.content.as_str(), live.usage), ("because", None));
    let u = Usage { prompt: 1, completion: 2, total: 3, cost: num(0.5) };
    let m = c.take_done(None, Some(u), num(0.5)).unwrap();
    assert_eq!(m.content, "because");
    assert_eq!(m.reasoning, "hm");
    assert_eq!(m.tool_log, vec!["↳ x"]);
    assert_eq!(m.usage, Some(u));
    assert_eq!(c.messages.len(), 2);
    assert_eq!((c.tok_total, c.cost_total), (3, num(0.5)));
    assert!(!c.busy && c.live_message().is_none());
    assert_eq!(c.history().len(), 1);
    assert_eq!(c.history()[0].content, "why?");
}

#[test]
fn a_failed_answer_stays_in_sight() {
    let mut c = fresh_chat();
    c.busy = true;
    c.take_content("half");
    assert!(c.take_done(Some("broken".to_string()), None, num(9.0)).is_none());
    assert_eq!(c.error.as_deref(), Some("broken"));
    assert_eq!(c.stream_content, "half");
    assert_eq!(c.cost_total, num(0.0));
    assert!(c.messages.is_empty() && !c.busy);
    c.clear();
    assert!(c.error.is_none() && c.stream_content.is_empty() && c.live_message().is_none());
    assert!(c.history().is_empty());
}

#[test]
fn dots_come_and_go() {
    assert_eq!(thinking(0), "* thinking");
    assert_eq!(thinking(3), "* thinking...");
    assert_eq!(thinking(6), "* thinking..");
}

#[test]
fn colors_come_back() {
    for c in palette() {
        assert_eq!(hex_to_color(&rgb_hex(c)), Some(c));
    }
    assert_eq!(palette().len(), 10);
    assert_eq!(rgb_hex(palette()[0]), "#F44336");
    assert_eq!(rgb_hex(palette()[9]), "#9E9E9E");
    assert_eq!(hex_to_color(" ##2196f3 "), Some(Rgb { r: 33, g: 150, b: 243 }));
    assert_eq!(hex_to_color("2196F3"), Some(Rgb { r: 33, g: 150, b: 243 }));
    assert_eq!(hex_to_color("+1+2+3"), Some(Rgb { r: 1, g: 2, b: 3 }));
}

#[test]
fn texts_that_are_no_color_are_none() {
    for bad in ["", "#fff", "#1234567", "#gg0000", "#00gg00", "#0000gg", "ééé"] {
        assert_eq!(try_hex_to_color(bad), Some(None), "{}", bad);
    }
    // A character is cut in two.
    assert_eq!(try_hex_to_color("aéabc"), None);
    assert_eq!(try_hex_to_color("00€0"), None);
    // The first pair says nothing already.
    assert_eq!(try_hex_to_color("zz€0"), Some(None));
}

#[test]
fn categories_are_colored_anew() {
    assert!(matches!(rainbow(0), Rainbow::Pool("#F44336")));
    assert!(matches!(rainbow(28), Rainbow::Pool("#FFD600")));
    assert!(matches!(rainbow(29), Rainbow::Made(0)));
    assert!(matches!(rainbow(40), Rainbow::Made(11)));
}

#[test]
fn thousands_are_grouped() {
    assert_eq!(thousands("1234567"), "1,234,567");
    assert_eq!(thousands("123"), "123");
    assert_eq!(thousands("-1234"), "-1,234");
    assert_eq!(thousands("-123456"), "-123,456");
    assert_eq!(thousands("0"), "0");
    assert_eq!(thousands("inf"), "inf");
    assert_eq!(thousands(""), "");
}

#[test]
fn figures_have_their_decimals() {
    assert_eq!(fmt_value(num(1000.0)), ValueStyle::Grouped);
    assert_eq!(fmt_value(num(999.99)), ValueStyle::Decimals(2));
    assert_eq!(fmt_value(num(10.0)), ValueStyle::Decimals(2));
    assert_eq!(fmt_value(num(9.99)), ValueStyle::Decimals(4));
    assert_eq!(fmt_value(num(-5000.0)), ValueStyle::Decimals(4));
    assert_eq!(fmt_value(num(f64::NAN)), ValueStyle::Decimals(4));
    assert_eq!(fmt_usd(num(1.0)), 2);
    assert_eq!(fmt_usd(num(0.999)), 4);
    assert_eq!(fmt_usd(num(-3.0)), 4);
    assert_eq!(change_badge(Some(num(0.0))), Badge::Up);
    assert_eq!(change_badge(Some(num(-0.0))), Badge::Up);
    assert_eq!(change_badge(Some(num(-0.1))), Badge::Down);
    assert_eq!(change_badge(Some(num(f64::NAN))), Badge::Down);
    assert_eq!(change_badge(None), Badge::Unknown);
}

fn category(id: i64, name: &str, recurring: bool) -> BudgetCategory {
    BudgetCategory { id, name: name.to_string(), color: "#F44336".to_string(), recurring }
}

fn budget() -> BudgetState {
    let mut b = BudgetState::new(2024, 1, false, false);
    let cats = vec![
        category(1, "Rent", true),
        category(2, "Trip", false),
        category(3, "Food", true),
        category(4, "Gift", false),
        category(5, "Gym", true),
    ];
    b.fill(cats, &vec![num(100.0), num(900.0), num(300.0), num(-5.0), num(0.0)], num(2000.0), num(50.0));
    b
}

#[test]
fn months_are_stored_and_shown() {
    let b = BudgetState::new(2024, 1, false, false);
    assert_eq!(b.month_str(), "2024-01");
    assert_eq!(b.month_label(), "January 2024");
    assert_eq!(b.month_before(), "2023-12");
    let c = BudgetState::new(-5, 12, false, false);
    assert_eq!(c.month_str(), "-005-12");
    assert_eq!(c.month_label(), "December -5");
    let d = BudgetState::new(7, 0, false, false);
    assert_eq!((d.month_str().as_str(), d.month_label().as_str()), ("0007-00", "January 7"));
    // Before the year 1 the month before is rounded towards zero.
    assert_eq!(BudgetState::new(0, 1, false, false).month_before(), "0000-00");
}

#[test]
fn months_are_shifted() {
    let mut b = BudgetState::new(2024, 1, true, false);
    b.editing_cumulative = true;
    b.shift(-1);
    assert_eq!((b.year, b.month, b.editing_cumulative), (2023, 12, false));
    b.shift(1);
    assert_eq!((b.year, b.month), (2024, 1));
    b.shift(25);
    assert_eq!((b.year, b.month), (2026, 2));
    b.shift(-25);
    assert_eq!((b.year, b.month), (2024, 1));
    let mut c = BudgetState::new(0, 1, false, false);
    c.shift(-1);
    assert_eq!((c.year, c.month), (-1, 12));
    c.shift(-12);
    assert_eq!((c.year, c.month), (-2, 12));
}

#[test]
fn amounts_are_looked_up() {
    let mut b = budget();
    assert_eq!(b.amount(2), num(900.0));
    assert_eq!(b.amount(99), num(0.0));
    b.set_amount(2, num(1.0));
    assert_eq!(b.amount(2), num(1.0));
    assert_eq!(b.spend_terms(), vec![num(100.0), num(1.0), num(300.0), num(-5.0), num(0.0)]);
    assert_eq!((b.income, b.cumulative), (num(2000.0), num(50.0)));
    assert_eq!(b.find_category(3), Some(2));
    assert_eq!(b.find_category(9), None);
}

#[test]
fn categories_stand_in_columns() {
    let b = budget();
    assert_eq!(b.columns(true, 2), vec![vec![0, 2], vec![4]]);
    assert_eq!(b.columns(true, 0), vec![vec![0], vec![2], vec![4]]);
    assert_eq!(b.columns(false, 10), vec![vec![1, 3]]);
    assert_eq!(BudgetState::new(1, 1, false, false).columns(true, 3), Vec::<Vec<usize>>::new());
}

#[test]
fn the_largest_amounts_come_first() {
    let mut b = budget();
    assert_eq!(
        b.category_shares(),
        vec![Share { at: 2, value: num(300.0) }, Share { at: 0, value: num(100.0) }]
    );
    b.count_oneoff = true;
    assert_eq!(b.category_shares()[0], Share { at: 1, value: num(900.0) });
    assert_eq!(b.category_shares().len(), 3);
}

#[test]
fn income_is_split() {
    assert_eq!(savings_split(num(0.0), num(5.0)), Split::Nothing);
    assert_eq!(savings_split(num(10.0), num(0.0)), Split::Saved);
    assert_eq!(savings_split(num(10.0), num(-1.0)), Split::Overspent);
}

#[test]
fn a_budget_is_seeded_once() {
    let s = seed_budget(0);
    assert_eq!(s.len(), 9);
    assert_eq!((s[0].name, s[0].color, s[0].sort_order), ("Housing", "#F44336", 0));
    assert_eq!((s[8].name, s[8].color, s[8].sort_order), ("Other", "#9E9E9E", 8));
    assert!(seed_budget(1).is_empty());
}

#[test]
fn a_round_is_asked_for() {
    let mut h = WorkerHandle::new();
    assert!(!h.take());
    h.trigger();
    h.trigger();
    assert!(h.take());
    assert!(!h.take());
}

fn place(t: Task) -> (usize, usize) {
    match t {
        Task::Quote(i) => (0, i),
        Task::KrakenTicks(i) => (1, i),
        Task::YahooTicks(i, _) => (2, i),
        Task::History(i) => (3, i),
        Task::Rest { .. } => (4, 0),
    }
}

fn round(w: &mut Worker, manual: bool, now: u128) -> Vec<(usize, usize)> {
    let specs = registry(Country::Australia);
    w.begin(manual, now);
    let mut out = Vec::new();
    loop {
        let t = w.next_task(&specs, now);
        out.push(place(t));
        if out.last() == Some(&(4, 0)) {
            return out;
        }
        w.task_done(t, false, now);
    }
}

#[test]
fn the_first_round_fetches_all() {
    let start = 2 * DAY;
    let mut w = Worker::new(&vec![false; 10], 60, start);
    let mut all = vec![(0, 0), (0, 6), (0, 7), (1, 6), (1, 7)];
    for i in 0..6 {
        all.push((2, i));
    }
    for i in 0..10 {
        all.push((3, i));
    }
    all.push((4, 0));
    assert_eq!(round(&mut w, false, start), all);
    // At once after it, nothing is due.
    assert_eq!(round(&mut w, false, start), vec![(4, 0)]);
    // After a minute, the prices are.
    assert_eq!(round(&mut w, false, start + 60 * SECOND).len(), 12);
    // When it is asked for, all is.
    assert_eq!(round(&mut w, true, start + 61 * SECOND), all);
}

#[test]
fn stored_histories_are_not_fetched_at_once() {
    let start = 2 * DAY;
    let mut w = Worker::new(&vec![true; 10], 0, start);
    assert_eq!(w.quote_interval, 15 * SECOND);
    let histories = |r: Vec<(usize, usize)>| -> Vec<usize> {
        r.into_iter().filter(|p| p.0 == 3).map(|p| p.1).collect()
    };
    assert_eq!(histories(round(&mut w, false, start)), Vec::<usize>::new());
    assert_eq!(histories(round(&mut w, false, start + DAY / 4)), vec![0, 1, 2, 3, 6, 7]);
    assert_eq!(histories(round(&mut w, false, start + DAY)), (0..10).collect::<Vec<usize>>());
}

#[test]
fn the_window_is_drawn_anew_when_there_is_news() {
    let specs = registry(Country::Australia);
    let mut w = Worker::new(&vec![true; 10], 60, 5);
    assert_eq!(w.last_quotes, 5);
    w.begin(false, 5);
    assert!(matches!(w.next_task(&specs, 5), Task::Rest { announce: false, repaint: false }));
    w.begin(true, 5);
    let first = w.next_task(&specs, 5);
    assert!(matches!(first, Task::Quote(0)));
    w.task_done(first, true, 5);
    loop {
        match w.next_task(&specs, 6) {
            Task::Rest { announce, repaint } => {
                assert!(announce && repaint);
                break;
            }
            Task::YahooTicks(4, t) => assert_eq!(t, "GC=F"),
            _ => {}
        }
    }
    assert_eq!(w.last_quotes, 6);
    assert!(!w.news);
}

// A round in which something comes at the fetches of those numbers: how often the window was to
// be drawn, whether the end was told, and how many fetches there were.
fn wakes(w: &mut Worker, manual: bool, now: u128, coming: &[usize]) -> (usize, bool, usize) {
    let specs = registry(Country::Australia);
    w.begin(manual, now);
    let mut fetches = 0;
    loop {
        let t = w.next_task(&specs, now);
        if let Task::Rest { announce, repaint } = t {
            return (usize::from(repaint), announce, fetches);
        }
        w.task_done(t, coming.contains(&fetches), now);
        fetches += 1;
    }
}

#[test]
fn a_round_wakes_the_window_at_most_once() {
    let start = 2 * DAY;
    let mut w = Worker::new(&vec![false; 10], 60, start);
    assert_eq!(wakes(&mut w, false, start, &[0, 3, 20]), (1, false, 21));
    // Nothing is due, and nothing is left over from the round before.
    assert_eq!(wakes(&mut w, false, start, &[]), (0, false, 0));
    // Prices are asked for, and none comes.
    assert_eq!(wakes(&mut w, false, start + 60 * SECOND, &[]), (0, false, 11));
    assert_eq!(wakes(&mut w, false, start + 120 * SECOND, &[10]), (1, false, 11));
    // A round that was asked for is told even where nothing comes.
    assert_eq!(wakes(&mut w, true, start + 121 * SECOND, &[]), (1, true, 21));
    assert_eq!(wakes(&mut w, false, start + 121 * SECOND, &[]), (0, false, 0));
}

fn table_with(symbol: &str, s: Series) -> SeriesTable {
    let mut t = SeriesTable::new();
    t.insert(symbol, s);
    t
}

fn plain_series(obs: Vec<Obs>) -> Series {
    Series {
        title: "Gold".to_string(),
        unit: "USD/oz".to_string(),
        source_name: "LBMA".to_string(),
        obs,
        intraday: Vec::new(),
        error: None,
    }
}

#[test]
fn series_are_found_by_their_symbols() {
    let mut t = table_with("A", plain_series(vec![obs(1, 1.0)]));
    t.insert("B", plain_series(Vec::new()));
    t.insert("A", plain_series(vec![obs(2, 2.0)]));
    assert_eq!(t.entries.len(), 2);
    assert_eq!(t.get("A").unwrap().obs, vec![obs(2, 2.0)]);
    assert!(t.get("C").is_none());
    t.set_error("A", "x".to_string());
    assert_eq!(t.get("A").unwrap().error.as_deref(), Some("x"));
    t.set_obs("A", vec![obs(3, 3.0)]);
    assert!(t.get("A").unwrap().error.is_none());
    t.set_ticks("B", vec![Tick { at: num(1.0), value: num(2.0) }]);
    assert_eq!(t.get("B").unwrap().intraday.len(), 1);
    assert!(t.take_point("B", obs(9, 9.0)));
    assert_eq!(t.get("B").unwrap().obs, vec![obs(9, 9.0)]);
    assert!(!t.take_point("C", obs(9, 9.0)));
    t.set_obs("C", Vec::new());
    assert!(t.get("C").is_none());
}

#[test]
fn figures_are_told_to_the_model() {
    let specs = registry(Country::Australia);
    let t = table_with("GOLD", plain_series(vec![obs(738_800, 1900.0), obs(738_885, 2000.0), obs(738_886, 2050.0)]));
    let s = snapshots(&t, &specs, Range::Max, 738_886);
    assert_eq!(s.len(), 1);
    assert_eq!(s[0].title, "Gold");
    assert_eq!(s[0].value, num(2050.0));
    assert_eq!(s[0].date, "2024-01-01");
    assert_eq!(s[0].day.unwrap().base, num(2000.0));
    assert_eq!(s[0].month.unwrap().base, num(2000.0));
    assert_eq!(s[0].year.unwrap().base, num(1900.0));
    assert_eq!(s[0].view.unwrap().base, num(1900.0));
    assert!(s[0].stats.is_none());
    let row = RowText {
        value: "2,050".to_string(),
        day: Some("+2.50".to_string()),
        month: Some("+2.50".to_string()),
        year: None,
        view: Some("+7.89".to_string()),
        stats: Some(StatsText {
            low: "1".to_string(),
            lower: "2".to_string(),
            median: "3".to_string(),
            upper: "4".to_string(),
            high: "5".to_string(),
            off_high: "-1.0".to_string(),
        }),
    };
    let line = row_line(&s[0], &row, Range::Max);
    assert_eq!(
        line,
        "• Gold — 2,050 USD/oz | 1D +2.50% | 1M +2.50% | 1Y n/a | view(Max) +7.89% | 52w low 1 / median 3 / high 5 | typically 2 to 4 | now -1.0% vs 52w high | as of 2024-01-01"
    );
    let text = market_system_prompt(Country::Australia, "2024-01-02", &s, &vec![row], Range::Max);
    let all: Vec<&str> = text.split('\n').collect();
    assert_eq!(all.len(), 4);
    assert!(all[0].ends_with("(country focus: Australia)."));
    assert!(all[1].starts_with("Today is 2024-01-02. Live dashboard snapshot — "));
    assert_eq!(all[2], line);
    assert!(all[3].ends_with("cite URLs you fetched."));
    assert_eq!(with_unit("5", ""), "5");
    assert_eq!(with_unit("5", "%"), "5 %");
}

#[test]
fn each_live_series_has_its_line() {
    let specs = registry(Country::Australia);
    let mut t = SeriesTable::new();
    for spec in specs.iter().rev() {
        let days = if spec.symbol == "GOLD" { Vec::new() } else { vec![obs(738_886, 1.0)] };
        t.insert(spec.symbol, Series::of_spec(spec, days, Vec::new()));
    }
    let s = snapshots(&t, &specs, Range::Y1, 738_886);
    let rows: Vec<RowText> = (0..s.len())
        .map(|i| RowText {
            value: i.to_string(),
            day: None,
            month: None,
            year: None,
            view: None,
            stats: None,
        })
        .collect();
    let text = market_system_prompt(Country::Australia, "2024-01-02", &s, &rows, Range::Y1);
    let told: Vec<&str> = text.split('\n').collect();
    let live: Vec<&str> = specs.iter().filter(|p| p.symbol != "GOLD").map(|p| p.title).collect();
    assert_eq!(told.len(), live.len() + 3);
    for (i, title) in live.iter().enumerate() {
        assert!(told[i + 2].starts_with(&format!("• {} — {}", title, i)), "{}", told[i + 2]);
    }
}

#[test]
fn series_without_data_are_not_told() {
    let specs = registry(Country::Australia);
    let t = table_with("GOLD", plain_series(Vec::new()));
    assert!(snapshots(&t, &specs, Range::Y1, 738_886).is_empty());
}

fn stored() -> StoredConfig {
    StoredConfig {
        fred_key: String::new(),
        country: "Japan".to_string(),
        range: "5Y".to_string(),
        llm_base_url: " ".to_string(),
        llm_key: "k".to_string(),
        brave_key: String::new(),
        tab: "Budget".to_string(),
    }
}

fn app() -> MacroApp {
    MacroApp::start(stored(), fresh_chat(), budget())
}

#[test]
fn the_application_starts_with_what_was_stored() {
    let a = app();
    assert_eq!(a.country, Country::Australia);
    assert_eq!(a.selected_country, Country::Japan);
    assert_eq!(a.range, Range::Y5);
    assert_eq!(a.llm_base_url, "https://openrouter.ai/api/v1");
    assert_eq!(a.current_tab, Tab::Budget);
    assert_eq!(a.status_text, "Ready");
    assert_eq!(a.specs.len(), 10);
    assert!(a.key_prompt.is_none());
    assert_eq!(a.version_line(), "v1.0");
    let mut s = stored();
    s.llm_key = "  ".to_string();
    s.llm_base_url = " https://x ".to_string();
    let b = MacroApp::start(s, fresh_chat(), budget());
    assert!(b.key_prompt.is_some());
    assert_eq!(b.llm_base_url, " https://x ");
}

#[test]
fn stored_settings_are_read() {
    assert_eq!(refresh_seconds("5"), Some(300));
    assert_eq!(refresh_seconds(""), Some(60));
    assert_eq!(refresh_seconds("0"), Some(0));
    assert_eq!(refresh_seconds("18446744073709551615"), None);
    assert!(stored_flag("1"));
    assert!(!stored_flag("0") && !stored_flag(""));
    assert_eq!(Tab::from_stored(Tab::Budget.name()), Tab::Budget);
    assert_eq!(Tab::from_stored(Tab::Dashboard.name()), Tab::Dashboard);
    assert_eq!(Tab::from_stored("?"), Tab::Dashboard);
}

fn configs(effects: &[Effect]) -> Vec<(String, String)> {
    effects
        .iter()
        .filter_map(|e| match e {
            Effect::Config { key, value } => Some((key.to_string(), value.clone())),
            _ => None,
        })
        .collect()
}

fn pair(a: &str, b: &str) -> (String, String) {
    (a.to_string(), b.to_string())
}

#[test]
fn data_events_change_the_series() {
    let mut a = app();
    a.series.insert("GOLD", plain_series(Vec::new()));
    let zero = num(0.0);
    let e = a.apply(
        DataEvent::SeriesUpdated { symbol: "GOLD".to_string(), obs: vec![obs(1, 1.0)] },
        "10:00:00",
        zero,
    );
    assert!(e.is_empty());
    assert_eq!(a.series.get("GOLD").unwrap().obs.len(), 1);
    assert_eq!(a.last_updated, "10:00:00");
    assert_eq!(a.version_line(), "Updated 10:00:00  ·  v1.0");
    let e = a.apply(DataEvent::Point { symbol: "GOLD".to_string(), obs: obs(2, 2.0) }, "10:00:01", zero);
    assert!(matches!(&e[..], [Effect::SaveObs { symbol, obs: o }] if symbol == "GOLD" && *o == obs(2, 2.0)));
    let e = a.apply(DataEvent::Point { symbol: "?".to_string(), obs: obs(2, 2.0) }, "10:00:02", zero);
    assert!(e.is_empty());
    assert_eq!(a.last_updated, "10:00:02");
    a.apply(
        DataEvent::Error { symbol: "GOLD".to_string(), message: "timeout".to_string() },
        "10:00:03",
        zero,
    );
    assert_eq!(a.status_text, "GOLD: timeout");
    assert_eq!(a.series.get("GOLD").unwrap().error.as_deref(), Some("timeout"));
    assert_eq!(a.last_updated, "10:00:02");
    a.apply(
        DataEvent::IntradayUpdated { symbol: "GOLD".to_string(), points: vec![Tick { at: zero, value: zero }] },
        "x",
        zero,
    );
    assert_eq!(a.series.get("GOLD").unwrap().intraday.len(), 1);
    a.apply(DataEvent::Status("Refresh complete".to_string()), "x", zero);
    assert_eq!(a.status_text, "Refresh complete");
}

#[test]
fn chat_events_build_the_answer() {
    let mut a = app();
    let zero = num(0.0);
    a.apply(DataEvent::ChatDelta { content: "an".to_string() }, "x", zero);
    a.apply(DataEvent::ChatDelta { content: "swer".to_string() }, "x", zero);
    a.apply(DataEvent::ChatReasoningDelta { content: "r".to_string() }, "x", zero);
    a.apply(DataEvent::ChatToolLine { line: "l".to_string() }, "x", zero);
    let u = Usage { prompt: 1, completion: 2, total: 3, cost: num(0.25) };
    let e = a.apply(DataEvent::ChatDone { error: None, usage: Some(u) }, "x", num(0.25));
    assert_eq!(configs(&e), vec![pair("chat_tok_total", "3")]);
    assert!(matches!(e[1], Effect::Cost(c) if c == num(0.25)));
    match &e[2] {
        Effect::SaveMessage(m) => assert_eq!((m.content.as_str(), m.reasoning.as_str()), ("answer", "r")),
        other => panic!("{:?}", other),
    }
    assert_eq!(a.chat.messages.len(), 1);
    let e = a.apply(DataEvent::ChatDone { error: Some("no".to_string()), usage: None }, "x", zero);
    assert!(e.is_empty());
    assert_eq!(a.chat.error.as_deref(), Some("no"));
    let e = a.clear_chat();
    assert_eq!(configs(&e), vec![pair("chat_tok_total", "0"), pair("chat_cost_total", "0")]);
    assert!(matches!(e[2], Effect::ClearMessages));
    assert!(a.chat.messages.is_empty());
}

#[test]
fn a_question_is_sent() {
    let mut a = app();
    a.brave_key = "b".to_string();
    let (e, ask) = a.send_chat();
    assert!(e.is_empty() && ask.is_none());
    a.chat.messages.push(ChatMessage {
        role: ChatRole::Assistant,
        content: "earlier".to_string(),
        reasoning: String::new(),
        tool_log: Vec::new(),
        usage: None,
    });
    a.chat.input = " hello ".to_string();
    let (e, ask) = a.send_chat();
    assert!(matches!(&e[0], Effect::SaveMessage(m) if m.content == "hello"));
    assert_eq!(configs(&e), vec![pair("llm_model", "openai/gpt-4o-mini")]);
    let ask = ask.unwrap();
    assert_eq!(ask.text, "hello");
    assert_eq!(ask.history.len(), 1);
    assert_eq!(ask.history[0].content, "earlier");
    assert_eq!(ask.config.base_url, "https://openrouter.ai/api/v1");
    assert_eq!((ask.config.key.as_str(), ask.config.brave_key.as_str()), ("k", "b"));
    assert!(a.chat.busy);
    a.chat.input = "more".to_string();
    assert!(a.send_chat().1.is_none());
    assert_eq!(a.chat.input, "more");
}

#[test]
fn a_question_without_a_key_is_refused() {
    let mut a = app();
    a.llm_key = " ".to_string();
    a.chat.input = "hello".to_string();
    let (e, ask) = a.send_chat();
    assert_eq!(e.len(), 2);
    assert!(ask.is_none());
    assert_eq!(a.chat.error.as_deref(), Some("* no LLM API key — Settings"));
    assert!(!a.chat.busy);
    assert_eq!(a.chat.messages.len(), 1);
}

#[test]
fn choices_are_stored() {
    let mut a = app();
    assert_eq!(configs(&a.set_range(Range::W1)), vec![pair("range", "1W")]);
    assert_eq!(a.range, Range::W1);
    let e = a.set_tab(Tab::Dashboard);
    assert_eq!((e.len(), configs(&e)), (1, vec![pair("tab", "Dashboard")]));
    let e = a.set_tab(Tab::Budget);
    assert!(matches!(e[1], Effect::LoadBudget));
    assert_eq!(configs(&a.set_count_oneoff(true)), vec![pair("count_oneoff", "1")]);
    assert_eq!(configs(&a.set_count_oneoff(false)), vec![pair("count_oneoff", "0")]);
    let e = a.set_auto_color(true);
    assert_eq!(configs(&e), vec![pair("auto_color", "1")]);
    assert!(matches!(e[1], Effect::Recolor) && matches!(e[2], Effect::LoadBudget));
    let e = a.set_auto_color(false);
    assert_eq!((e.len(), configs(&e)), (1, vec![pair("auto_color", "0")]));
    assert_eq!(configs(&a.choose_country(Country::Canada)), vec![pair("country", "Canada")]);
    assert_eq!(a.status_text, "Canada dashboard coming soon — showing Australia");
    a.choose_country(Country::Australia);
    assert_eq!(a.status_text, "Ready");
    a.refresh();
    assert_eq!(a.status_text, "Refreshing…");
    a.toggle_chat();
    assert!(a.chat_maximized);
}

#[test]
fn keys_are_asked_for_once() {
    let mut s = stored();
    s.llm_key = String::new();
    let mut a = MacroApp::start(s, fresh_chat(), budget());
    let p = a.key_prompt.as_mut().unwrap();
    assert!(p.is_blank());
    p.fred = " f ".to_string();
    p.brave = "  ".to_string();
    p.llm = "l".to_string();
    assert!(!p.is_blank());
    let e = a.finish_key_prompt();
    assert_eq!(configs(&e), vec![pair("fred_key", "f"), pair("llm_key", "l")]);
    assert_eq!((a.llm_key.as_str(), a.brave_key.as_str()), ("l", ""));
    assert_eq!(a.status_text, "API keys saved");
    assert!(a.key_prompt.is_none());
    assert!(a.finish_key_prompt().is_empty());
}

#[test]
fn settings_are_saved() {
    let mut a = app();
    let mut f = default_form();
    assert_eq!((f.refresh_mins.as_str(), f.llm_base_url.as_str()), ("1", "https://openrouter.ai/api/v1"));
    f.llm_base_url = "  ".to_string();
    f.llm_key = " key ".to_string();
    let e = a.settings_shown(f, true, true);
    assert_eq!(
        configs(&e),
        vec![
            pair("fred_key", ""),
            pair("llm_base_url", ""),
            pair("llm_key", "key"),
            pair("llm_model", ""),
            pair("refresh_mins", "1"),
            pair("brave_key", ""),
        ]
    );
    assert_eq!(a.llm_base_url, "https://openrouter.ai/api/v1");
    assert_eq!(a.llm_key, "key");
    assert_eq!(a.status_text, "Settings saved (restart to apply)");
    assert!(matches!(a.dialog_state, DialogState::Closed));
    assert!(a.settings_shown(default_form(), false, true).is_empty());
    assert!(matches!(a.take_dialog(), DialogState::Settings(SettingsForm { .. })));
    assert!(matches!(a.dialog_state, DialogState::Closed));
    a.settings_shown(default_form(), false, false);
    assert!(matches!(a.dialog_state, DialogState::Closed));
    a.open_dialog(DialogState::About);
    assert!(matches!(a.take_dialog(), DialogState::About));
}

#[test]
fn categories_are_edited() {
    let mut a = app();
    a.open_add_category();
    assert!(matches!(&a.dialog_state, DialogState::AddCategory { color, recurring: true, .. } if color == "#2196F3"));
    let e = a.add_category_shown(" Pets ".to_string(), " #fff ".to_string(), false, true, true);
    assert!(matches!(&e[0], Effect::AddCategory { name, color, recurring: false } if name == "Pets" && color == "#fff"));
    assert!(matches!(e[1], Effect::LoadBudget));
    assert_eq!(a.status_text, "Added category: Pets");
    assert!(matches!(a.dialog_state, DialogState::Closed));
    assert!(a.add_category_shown(" ".to_string(), "c".to_string(), true, true, true).is_empty());
    assert!(matches!(a.dialog_state, DialogState::AddCategory { .. }));
    a.open_edit(3);
    assert!(matches!(&a.dialog_state, DialogState::EditCategory { id: 3, name, .. } if name == "Food"));
    let e = a.edit_category_shown(3, " Groceries".to_string(), "#123456 ".to_string(), true, true);
    assert!(matches!(&e[0], Effect::UpdateCategory { id: 3, name, color } if name == "Groceries" && color == "#123456"));
    assert!(a.edit_category_shown(3, "".to_string(), "c".to_string(), true, false).is_empty());
    assert!(matches!(a.dialog_state, DialogState::Closed));
    a.open_edit(99);
    assert!(matches!(a.dialog_state, DialogState::Closed));
    a.open_delete(1);
    assert!(matches!(&a.dialog_state, DialogState::ConfirmDeleteCategory { id: 1, name } if name == "Rent"));
    assert!(a.delete_category_shown(1, "Rent".to_string(), false, true, true).is_empty());
    assert!(matches!(a.dialog_state, DialogState::Closed));
    a.delete_category_shown(1, "Rent".to_string(), false, false, true);
    assert!(matches!(a.dialog_state, DialogState::ConfirmDeleteCategory { .. }));
    let e = a.delete_category_shown(1, "Rent".to_string(), true, false, true);
    assert!(matches!(e[0], Effect::DeleteCategory { id: 1 }));
}

#[test]
fn another_model_is_chosen() {
    let mut a = app();
    let offered = model_presets("openai/gpt-4o-mini\na/one\nb/two\nc/three\nd/four");
    for m in &offered {
        a.chat.model = m.clone();
        a.open_custom_model(&offered);
        assert!(matches!(&a.dialog_state, DialogState::CustomModel { value } if value.is_empty()));
    }
    a.chat.model = "b/two".to_string();
    a.open_custom_model(&model_presets("openai/gpt-4o-mini"));
    assert!(matches!(&a.dialog_state, DialogState::CustomModel { value } if value == "b/two"));
    let e = a.custom_model_shown(" my/model ".to_string(), true, false, true);
    assert_eq!(configs(&e), vec![pair("llm_model", "my/model")]);
    assert_eq!(a.chat.model, "my/model");
    a.open_custom_model(&offered);
    assert!(matches!(&a.dialog_state, DialogState::CustomModel { value } if value == "my/model"));
    assert!(a.custom_model_shown(" ".to_string(), true, false, true).is_empty());
    assert!(matches!(a.dialog_state, DialogState::CustomModel { .. }));
    a.custom_model_shown("x".to_string(), false, true, true);
    assert!(matches!(a.dialog_state, DialogState::Closed));
}

#[test]
fn the_window_is_drawn_anew_while_an_answer_is_awaited() {
    let mut a = app();
    assert_eq!(a.redraw_after(), None);
    a.chat.busy = true;
    assert_eq!(a.redraw_after(), Some(300));
}

#[test]
fn cards_stand_in_a_grid() {
    assert_eq!(grid_cards(10), 9);
    assert_eq!(grid_cards(0), 0);
    assert_eq!(grid_cards(1), 0);
    assert_eq!(grid_cards(20), 9);
    assert_eq!(grid_rows(10), 4);
    assert_eq!(grid_rows(9), 3);
    assert_eq!(grid_rows(0), 0);
}
