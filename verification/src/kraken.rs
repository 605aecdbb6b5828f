//! Kraken: what is asked of it, and what is read from its replies.

use vstd::prelude::*;
use vstd::string::*;
use vstd::utf8::is_ascii_chars;
use crate::calendar::{day_of, known, timestamp_day, UNIX_DAY};
use crate::decimal::{decimal, natural_text};
use crate::json::{json_document, member_is_found, read_json, trees, Json, JsonTree};
use crate::order::{dedup, deduped, deduped_is_strict, first_of_each_key_is_left, of_key, sort, sorted, sorted_is_rising, strictly_rising, Keyed};
use crate::scalar::Scalar;
use crate::series::{Obs, Tick};
use crate::text::{cat, views};

verus! {

/// `str::to_uppercase`, by name.
pub uninterp spec fn uppercase(s: Seq<char>) -> Seq<char>;

/// An ASCII small letter as its capital; any other character as it is.
pub open spec fn capital(c: char) -> char {
    if 'a' <= c <= 'z' {
        ((c as u32 - 32) as u32) as char
    } else {
        c
    }
}

/// `str::to_uppercase` maps text by the Unicode tables, the same at each call; in ASCII text
/// it makes capitals of the small letters and leaves the rest.
pub assume_specification[ str::to_uppercase ](s: &str) -> (r: String)
    ensures
        r@ == uppercase(s@),
        is_ascii_chars(s@) ==> r@ == s@.map_values(|c: char| capital(c)),
;

/// The first member of an object that is an array.
pub open spec fn first_array(members: Seq<(Seq<char>, JsonTree)>) -> Option<Seq<JsonTree>>
    decreases members.len(),
{
    if members.len() == 0 {
        None
    } else {
        match members[0].1 {
            JsonTree::Array(items) => Some(items),
            _ => first_array(members.skip(1)),
        }
    }
}

/// The candles of a reply: the items of the first array in it.
pub open spec fn candles(result: JsonTree) -> Seq<JsonTree> {
    match result {
        JsonTree::Object(members) => match first_array(members) {
            Some(items) => items,
            None => Seq::empty(),
        },
        _ => Seq::empty(),
    }
}

/// The time of a candle and the price at its close, which is left as text.
pub open spec fn candle_close(candle: JsonTree) -> Option<(u64, Seq<char>)> {
    match candle.as_items() {
        Some(parts) => if parts.len() < 5 {
            None
        } else {
            match (parts[0].as_natural(), parts[4].as_text()) {
                (Some(time), Some(close)) => Some((time, close)),
                _ => None,
            }
        },
        None => None,
    }
}

/// The closes of candles, without those that cannot be read.
pub open spec fn closes(c: Seq<JsonTree>) -> Seq<(u64, Seq<char>)>
    decreases c.len(),
{
    if c.len() == 0 {
        Seq::empty()
    } else {
        match candle_close(c.last()) {
            Some(x) => closes(c.drop_last()).push(x),
            None => closes(c.drop_last()),
        }
    }
}

/// The close of a candle.
#[derive(Debug)]
pub struct Candle {
    pub time: u64,
    pub close: String,
}

pub open spec fn candle_views(v: Seq<Candle>) -> Seq<(u64, Seq<char>)> {
    v.map_values(|c: Candle| (c.time, c.close@))
}

fn find_array(v: &Json) -> (r: Option<&Vec<Json>>)
    ensures
        r matches Some(items) ==> candles(v.tree()) == trees(items@),
        r is None ==> candles(v.tree()) == Seq::<JsonTree>::empty(),
{
    match v {
        Json::Object(members) => {
            let n: usize = members.len();
            let ghost all = v.tree()->Object_0;
            assert(all.skip(0) =~= all);
            for i in 0..n
                invariant
                    n == members@.len(),
                    n == all.len(),
                    v.tree() == JsonTree::Object(all),
                    forall|j: int| 0 <= j < n ==> #[trigger] all[j] == (members@[j].0@, members@[j].1.tree()),
                    first_array(all) == first_array(all.skip(i as int)),
            {
                assert(all.skip(i as int)[0] == all[i as int]);
                assert(all.skip(i as int).skip(1) =~= all.skip(i + 1));
                if let Some(items) = members[i].1.as_items() {
                    return Some(items);
                }
            }
            None
        },
        _ => None,
    }
}

/// The closes of the candles that Kraken gives, from the `result` of its reply, a JSON text.
/// There are none where the text cannot be read.
pub fn read_candles(result: &str) -> (r: Vec<Candle>)
    ensures
        candle_views(r@) == (match json_document(result@) {
            Ok(v) => closes(candles(v)),
            Err(_) => Seq::empty(),
        }),
{
    match read_json(result) {
        Ok(v) => candles_of(&v),
        Err(_) => {
            let out: Vec<Candle> = Vec::new();
            assert(candle_views(out@) =~= Seq::<(u64, Seq<char>)>::empty());
            out
        },
    }
}

/// The closes of the candles in the `result` of a reply of Kraken.
pub fn candles_of(result: &Json) -> (r: Vec<Candle>)
    ensures
        candle_views(r@) == closes(candles(result.tree())),
{
    let mut out: Vec<Candle> = Vec::new();
    assert(candle_views(out@) =~= Seq::<(u64, Seq<char>)>::empty());
    if let Some(items) = find_array(result) {
        let n: usize = items.len();
        let ghost all = trees(items@);
        assert(all.take(0) =~= Seq::<JsonTree>::empty());
        for i in 0..n
            invariant
                n == items@.len(),
                all == trees(items@),
                candle_views(out@) == closes(all.take(i as int)),
        {
            assert(all.take(i + 1).drop_last() =~= all.take(i as int));
            assert(all.take(i + 1).last() == items@[i as int].tree());
            if let Some(parts) = items[i].as_items() {
                let ghost pv = trees(parts@);
                assert(pv.len() == parts@.len());
                if parts.len() >= 5 {
                    assert(pv[0] == parts@[0].tree() && pv[4] == parts@[4].tree());
                    if let Some(time) = parts[0].as_natural() {
                        if let Some(close) = parts[4].as_text() {
                            let ghost before = candle_views(out@);
                            let c = Candle { time, close: String::from_str(close) };
                            out.push(c);
                            assert(candle_views(out@) =~= before.push((c.time, c.close@)));
                        }
                    }
                }
            }
        }
        assert(all.take(n as int) =~= all);
    }
    out
}

/// A count of seconds as a signed number of 64 bits holds it.
pub open spec fn signed(time: u64) -> int {
    if time < 0x8000_0000_0000_0000 {
        time as int
    } else {
        time - 0x1_0000_0000_0000_0000
    }
}

fn as_signed(time: u64) -> (r: i64)
    ensures
        r == signed(time),
{
    if time < 0x8000_0000_0000_0000 {
        time as i64
    } else {
        let down: u64 = u64::MAX - time;
        -1 - (down as i64)
    }
}

/// A close with its price read; there is none where it could not be read.
#[derive(Clone, Copy, PartialEq, Eq, Structural, Debug)]
pub struct Close {
    pub time: u64,
    pub price: Option<Scalar>,
}

/// Observations with one close more: it replaces the last where that is of its day.
pub open spec fn with_close(obs: Seq<Obs>, c: Close) -> Seq<Obs> {
    match (c.price, day_of(signed(c.time))) {
        (Some(value), Some(day)) => if obs.len() > 0 && obs.last().day == day {
            obs.update(obs.len() - 1, Obs { day, value })
        } else {
            obs.push(Obs { day, value })
        },
        _ => obs,
    }
}

/// The last close of each day.
pub open spec fn daily(c: Seq<Close>) -> Seq<Obs>
    decreases c.len(),
{
    if c.len() == 0 {
        Seq::empty()
    } else {
        with_close(daily(c.drop_last()), c.last())
    }
}

/// The last close of each day, as long as the closes of a day follow each other. Closes
/// without a price, or of a day that is not known, are left out.
pub fn parse_kraken_ohlc(c: &Vec<Close>) -> (r: Vec<Obs>)
    ensures
        r@ == daily(c@),
        forall|i: int| 0 <= i < r@.len() ==> known((#[trigger] r@[i]).day as int),
{
    let n: usize = c.len();
    let mut out: Vec<Obs> = Vec::new();
    assert(out@ =~= daily(c@.take(0)));
    for i in 0..n
        invariant
            n == c@.len(),
            out@ == daily(c@.take(i as int)),
            forall|j: int| 0 <= j < out@.len() ==> known((#[trigger] out@[j]).day as int),
    {
        assert(c@.take(i + 1).drop_last() =~= c@.take(i as int));
        assert(c@.take(i + 1).last() == c@[i as int]);
        if let Some(value) = c[i].price {
            if let Some(day) = timestamp_day(as_signed(c[i].time)) {
                let k: usize = out.len();
                if k > 0 && out[k - 1].day == day {
                    out.set(k - 1, Obs { day, value });
                } else {
                    out.push(Obs { day, value });
                }
            }
        }
    }
    assert(c@.take(n as int) =~= c@);
    out
}

/// A value at a moment; there is none where it could not be read.
#[derive(Clone, Copy, PartialEq, Eq, Structural, Debug)]
pub struct RawTick {
    pub at: Scalar,
    pub value: Option<Scalar>,
}

/// The ticks that have a value.
pub open spec fn priced(s: Seq<RawTick>) -> Seq<Tick>
    decreases s.len(),
{
    if s.len() == 0 {
        Seq::empty()
    } else {
        match s.last().value {
            Some(value) => priced(s.drop_last()).push(Tick { at: s.last().at, value }),
            None => priced(s.drop_last()),
        }
    }
}

/// The ticks that have a value, in their order.
pub fn parse_kraken_ohlc_ts(s: &Vec<RawTick>) -> (r: Vec<Tick>)
    ensures
        r@ == priced(s@),
{
    let n: usize = s.len();
    let mut out: Vec<Tick> = Vec::new();
    assert(out@ =~= priced(s@.take(0)));
    for i in 0..n
        invariant
            n == s@.len(),
            out@ == priced(s@.take(i as int)),
    {
        assert(s@.take(i + 1).drop_last() =~= s@.take(i as int));
        if let Some(value) = s[i].value {
            out.push(Tick { at: s[i].at, value });
        }
    }
    assert(s@.take(n as int) =~= s@);
    out
}

/// Ticks from several replies by rising moment, one for each moment: that of the earliest reply.
pub fn merge_ticks(all: &Vec<Tick>) -> (r: Vec<Tick>)
    ensures
        r@ == deduped(sorted(all@)),
        strictly_rising(r@),
{
    let s = sort(all);
    let r = dedup(&s);
    proof {
        sorted_is_rising(all@);
        deduped_is_strict(sorted(all@));
    }
    r
}

/// The text of the last price in a reply with tickers.
pub open spec fn ticker_price(result: JsonTree) -> Option<Seq<char>> {
    match result {
        JsonTree::Object(members) => if members.len() == 0 {
            None
        } else {
            match members[0].1.at("c"@).item(0) {
                Some(v) => v.as_text(),
                None => None,
            }
        },
        _ => None,
    }
}

/// The text of the last price of the first ticker that Kraken gives, from the `result` of its
/// reply, a JSON text.
pub fn read_ticker(result: &str) -> (r: Option<String>)
    ensures
        ({
            let price = match json_document(result@) {
                Ok(v) => ticker_price(v),
                Err(_) => None,
            };
            &&& r is Some == price is Some
            &&& r matches Some(t) ==> price == Some(t@)
        }),
{
    match read_json(result) {
        Ok(v) => parse_kraken_ticker(&v),
        Err(_) => None,
    }
}

/// The text of the last price of the first ticker in the `result` of a reply of Kraken.
pub fn parse_kraken_ticker(result: &Json) -> (r: Option<String>)
    ensures
        r is Some == ticker_price(result.tree()) is Some,
        r matches Some(t) ==> ticker_price(result.tree()) == Some(t@),
{
    match result {
        Json::Object(members) => {
            if members.len() == 0 {
                return None;
            }
            match members[0].1.get("c") {
                Some(c) => match c.item(0) {
                    Some(v) => match v.as_text() {
                        Some(t) => Some(String::from_str(t)),
                        None => None,
                    },
                    None => None,
                },
                None => None,
            }
        },
        _ => None,
    }
}

/// The price of a ticker, or that there is none.
pub fn live_price(price: Option<Scalar>) -> (r: Result<Scalar, String>)
    ensures
        match price {
            Some(p) => r == Ok::<Scalar, String>(p),
            None => r matches Err(e) && e@ == "no ticker data"@,
        },
{
    match price {
        Some(p) => Ok(p),
        None => Err(String::from_str("no ticker data")),
    }
}

/// The address at which candles of that many minutes are asked for.
pub open spec fn candle_address(pair: Seq<char>, minutes: u64, since: u64) -> Seq<char> {
    "https://api.kraken.com/0/public/OHLC?pair="@ + pair + "&interval="@ + decimal(minutes as nat) + "&since="@
        + decimal(since as nat)
}

/// The address at which candles of that many minutes are asked for.
pub fn kraken_candle_url(pair: &str, minutes: u64, since: u64) -> (r: String)
    ensures
        r@ == candle_address(pair@, minutes, since),
{
    let mut url = cat("https://api.kraken.com/0/public/OHLC?pair=", pair);
    url.append("&interval=");
    url.append(natural_text(minutes).as_str());
    url.append("&since=");
    url.append(natural_text(since).as_str());
    url
}

/// The addresses at which the prices within the day are asked for: those of five minutes for
/// the last days, and those of an hour for the time before.
pub fn kraken_tick_urls(pair: &str) -> (r: Vec<String>)
    ensures
        views(r@) == seq![candle_address(pair@, 5, 0), candle_address(pair@, 60, 0)],
{
    let r: Vec<String> = vec![kraken_candle_url(pair, 5, 0), kraken_candle_url(pair, 60, 0)];
    assert(views(r@) =~= seq![candle_address(pair@, 5, 0), candle_address(pair@, 60, 0)]);
    r
}

/// The pair under which Kraken trades a symbol.
pub fn kraken_pair(symbol: &str) -> (r: String)
    ensures
        r@ == uppercase(symbol@),
        is_ascii_chars(symbol@) ==> r@ == symbol@.map_values(|c: char| capital(c)),
{
    symbol.to_uppercase()
}

/// The address at which the last price of a symbol is asked for.
pub fn kraken_ticker_url(symbol: &str) -> (r: String)
    ensures
        r@ == "https://api.kraken.com/0/public/Ticker?pair="@ + uppercase(symbol@),
{
    cat("https://api.kraken.com/0/public/Ticker?pair=", symbol.to_uppercase().as_str())
}

/// A candle of the day of the last one replaces it: of candles in the order of their days, one
/// is left for each day.
pub proof fn daily_is_strict(c: Seq<Close>)
    requires
        forall|i: int, j: int|
            0 <= i <= j < c.len() ==> signed((#[trigger] c[i]).time) <= signed((#[trigger] c[j]).time),
    ensures
        strictly_rising(daily(c)),
        daily(c).len() > 0 ==> daily(c).last().day <= signed(c.last().time) / 86_400 + UNIX_DAY,
    decreases c.len(),
{
    if c.len() > 0 {
        let t = c.drop_last();
        assert forall|i: int, j: int| 0 <= i <= j < t.len() implies signed((#[trigger] t[i]).time) <= signed(
            (#[trigger] t[j]).time,
        ) by {
            assert(t[i] == c[i] && t[j] == c[j]);
        }
        daily_is_strict(t);
        if t.len() > 0 {
            assert(t.last() == c[c.len() - 2]);
            assert(signed(c[c.len() - 2].time) <= signed(c[c.len() - 1].time));
            assert(signed(t.last().time) / 86_400 <= signed(c.last().time) / 86_400) by (nonlinear_arith)
                requires
                    signed(t.last().time) <= signed(c.last().time),
            ;
        }
        let d = daily(t);
        let r = daily(c);
        assert forall|i: int, j: int| 0 <= i < j < r.len() implies (#[trigger] r[i]).key() < (#[trigger] r[j]).key() by {
            if i < d.len() {
                assert(r[i].key() == d[i].key());
            }
            if j < d.len() {
                assert(d[i].key() < d[j].key());
                assert(r[j].key() == d[j].key());
            } else if i < d.len() - 1 {
                assert(d[i].key() < d[d.len() - 1].key());
            }
        }
    }
}

/// Candles are read one by one, in their order: of each the time, which stands first, and the
/// close, which stands fifth. One that lacks either is left out.
pub proof fn candles_are_read_one_by_one(a: Seq<JsonTree>, b: Seq<JsonTree>, parts: Seq<JsonTree>)
    ensures
        closes(a + b) == closes(a) + closes(b),
        closes(Seq::empty()).len() == 0,
        parts.len() >= 5 && parts[0].as_natural() is Some && parts[4] is Text ==> closes(
            seq![JsonTree::Array(parts)],
        ) == seq![(parts[0].as_natural()->0, parts[4]->Text_0)],
        !(parts.len() >= 5 && parts[0].as_natural() is Some && parts[4] is Text) ==> closes(
            seq![JsonTree::Array(parts)],
        ).len() == 0,
    decreases b.len(),
{
    let one = seq![JsonTree::Array(parts)];
    assert(closes(Seq::empty()) =~= Seq::<(u64, Seq<char>)>::empty());
    assert(one.drop_last() =~= Seq::<JsonTree>::empty());
    assert(one.last() == JsonTree::Array(parts));
    if parts.len() >= 5 && parts[0].as_natural() is Some && parts[4] is Text {
        assert(closes(one) =~= seq![(parts[0].as_natural()->0, parts[4]->Text_0)]);
    }
    if b.len() == 0 {
        assert(a + b =~= a);
        assert(closes(a) + closes(b) =~= closes(a));
    } else {
        candles_are_read_one_by_one(a, b.drop_last(), parts);
        assert((a + b).drop_last() =~= a + b.drop_last());
        assert(closes(a + b) =~= closes(a) + closes(b));
    }
}

/// The candles of a reply are the items of the first of its members that is an array, whatever its
/// name; what stands before it and behind it makes no difference.
pub proof fn candles_are_the_first_array(
    before: Seq<(Seq<char>, JsonTree)>,
    name: Seq<char>,
    items: Seq<JsonTree>,
    behind: Seq<(Seq<char>, JsonTree)>,
)
    requires
        forall|i: int| 0 <= i < before.len() ==> !((#[trigger] before[i]).1 is Array),
    ensures
        candles(JsonTree::Object(before + seq![(name, JsonTree::Array(items))] + behind)) == items,
        candles(JsonTree::Object(before)).len() == 0,
    decreases before.len(),
{
    let all = before + seq![(name, JsonTree::Array(items))] + behind;
    if before.len() > 0 {
        assert(all[0] == before[0]);
        let rest = before.skip(1);
        assert(all.skip(1) =~= rest + seq![(name, JsonTree::Array(items))] + behind);
        assert forall|i: int| 0 <= i < rest.len() implies !((#[trigger] rest[i]).1 is Array) by {
            assert(rest[i] == before[i + 1]);
        }
        candles_are_the_first_array(rest, name, items, behind);
    } else {
        assert(all[0] == (name, JsonTree::Array(items)));
    }
}

/// The close at place `i` is the last of its day: it has a price, and no other with one is of the
/// same day behind it.
pub open spec fn is_last_close(c: Seq<Close>, i: int, o: Obs) -> bool {
    &&& 0 <= i < c.len()
    &&& c[i].price == Some(o.value)
    &&& day_of(signed(c[i].time)) == Some(o.day)
    &&& forall|j: int|
        i < j < c.len() && (#[trigger] c[j]).price is Some ==> day_of(signed(c[j].time)) != Some(o.day)
}

proof fn last_close_stays(c: Seq<Close>, x: Close, o: Obs)
    ensures
        (exists|i: int| is_last_close(c.push(x), i, o)) <==> (x.price == Some(o.value) && day_of(signed(x.time)) == Some(
            o.day,
        )) || (!(x.price is Some && day_of(signed(x.time)) == Some(o.day)) && exists|i: int| is_last_close(c, i, o)),
{
    let all = c.push(x);
    let n = c.len() as int;
    if x.price == Some(o.value) && day_of(signed(x.time)) == Some(o.day) {
        assert(is_last_close(all, n, o));
    } else if !(x.price is Some && day_of(signed(x.time)) == Some(o.day)) {
        if exists|i: int| is_last_close(c, i, o) {
            let i = choose|i: int| is_last_close(c, i, o);
            assert forall|j: int| i < j < all.len() && (#[trigger] all[j]).price is Some implies day_of(
                signed(all[j].time),
            ) != Some(o.day) by {
                if j < n {
                    assert(all[j] == c[j]);
                }
            }
            assert(is_last_close(all, i, o));
        }
        if exists|i: int| is_last_close(all, i, o) {
            let i = choose|i: int| is_last_close(all, i, o);
            assert(i < n);
            assert forall|j: int| i < j < c.len() && (#[trigger] c[j]).price is Some implies day_of(signed(c[j].time))
                != Some(o.day) by {
                assert(all[j] == c[j]);
            }
            assert(is_last_close(c, i, o));
        }
    } else {
        if exists|i: int| is_last_close(all, i, o) {
            let i = choose|i: int| is_last_close(all, i, o);
            assert(i < n);
            assert(all[n].price is Some);
        }
    }
}

/// Of closes in the order of their times, the last of each day is kept, and nothing else: its
/// price is the value of the day.
pub proof fn last_close_of_a_day_is_kept(c: Seq<Close>, o: Obs)
    requires
        forall|i: int, j: int|
            0 <= i <= j < c.len() ==> signed((#[trigger] c[i]).time) <= signed((#[trigger] c[j]).time),
    ensures
        daily(c).contains(o) <==> exists|i: int| is_last_close(c, i, o),
        strictly_rising(daily(c)),
    decreases c.len(),
{
    daily_is_strict(c);
    if c.len() == 0 {
        assert(!daily(c).contains(o));
    } else {
        let t = c.drop_last();
        let x = c.last();
        assert(t.push(x) =~= c);
        assert forall|i: int, j: int| 0 <= i <= j < t.len() implies signed((#[trigger] t[i]).time) <= signed(
            (#[trigger] t[j]).time,
        ) by {
            assert(t[i] == c[i] && t[j] == c[j]);
        }
        last_close_of_a_day_is_kept(t, o);
        last_close_stays(t, x, o);
        let d = daily(t);
        let r = daily(c);
        if x.price is Some && day_of(signed(x.time)) is Some {
            let day = day_of(signed(x.time))->0;
            let new = Obs { day, value: x.price->0 };
            let m = d.len() as int;
            assert(r[r.len() - 1] == new);
            assert(r.contains(new));
            if t.len() > 0 {
                assert(t.last() == c[c.len() - 2]);
                assert(x == c[c.len() - 1]);
                assert(signed(c[c.len() - 2].time) <= signed(c[c.len() - 1].time));
                assert(signed(t.last().time) / 86_400 <= signed(x.time) / 86_400) by (nonlinear_arith)
                    requires
                        signed(t.last().time) <= signed(x.time),
                ;
            }
            if d.contains(o) && o.day != day {
                let k = d.index_of(o);
                assert(r[k] == o);
            }
            if r.contains(o) && o.day != day {
                let k = r.index_of(o);
                assert(d[k] == o);
            }
            if r.contains(o) && o.day == day {
                let k = r.index_of(o);
                if k < r.len() - 1 {
                    assert(r[k].key() < r[r.len() - 1].key());
                }
                assert(o == new);
            }
        }
    }
}

/// Ticks are taken one by one, in their order; one without a value is left out.
pub proof fn ticks_are_taken_one_by_one(a: Seq<RawTick>, b: Seq<RawTick>, t: RawTick)
    ensures
        priced(a + b) == priced(a) + priced(b),
        priced(Seq::empty()).len() == 0,
        priced(seq![t]) == (match t.value {
            Some(value) => seq![Tick { at: t.at, value }],
            None => Seq::empty(),
        }),
    decreases b.len(),
{
    assert(priced(Seq::empty()) =~= Seq::<Tick>::empty());
    assert(seq![t].drop_last() =~= Seq::<RawTick>::empty());
    assert(priced(seq![t]) =~= match t.value {
        Some(value) => seq![Tick { at: t.at, value }],
        None => Seq::empty(),
    });
    if b.len() == 0 {
        assert(a + b =~= a);
        assert(priced(a) + priced(b) =~= priced(a));
    } else {
        ticks_are_taken_one_by_one(a, b.drop_last(), t);
        assert((a + b).drop_last() =~= a + b.drop_last());
        assert(priced(a + b) =~= priced(a) + priced(b));
    }
}

/// Of ticks at one moment, the one that came first is left, and the moments rise.
pub proof fn first_tick_of_a_moment_is_left(all: Seq<Tick>, moment: int)
    ensures
        strictly_rising(deduped(sorted(all))),
        of_key(deduped(sorted(all)), moment) == (if of_key(all, moment).len() == 0 {
            Seq::empty()
        } else {
            seq![of_key(all, moment)[0]]
        }),
{
    first_of_each_key_is_left(all, moment);
}

/// The last price of a ticker is the first item of `c` in the first member, and nothing else of the
/// reply makes a difference.
pub proof fn ticker_price_is_the_first(
    name: Seq<char>,
    before: Seq<(Seq<char>, JsonTree)>,
    price: Seq<char>,
    more: Seq<JsonTree>,
    behind: Seq<(Seq<char>, JsonTree)>,
    others: Seq<(Seq<char>, JsonTree)>,
)
    requires
        forall|i: int| 0 <= i < before.len() ==> (#[trigger] before[i]).0 != "c"@,
    ensures
        ticker_price(
            JsonTree::Object(
                seq![
                    (
                        name,
                        JsonTree::Object(
                            before + seq![("c"@, JsonTree::Array(seq![JsonTree::Text(price)] + more))] + behind,
                        ),
                    ),
                ] + others,
            ),
        ) == Some(price),
{
    member_is_found(before, "c"@, JsonTree::Array(seq![JsonTree::Text(price)] + more), behind);
}

} // verus!
