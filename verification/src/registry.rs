//! The series that the dashboard shows, and where each comes from.

use vstd::prelude::*;
use crate::country::Country;
use crate::text::text_is;

verus! {

#[derive(Clone, Copy, PartialEq, Eq, Structural, Debug)]
pub enum Source {
    Frankfurter,
    Fred,
    Kraken,
    Lbma,
}

impl Source {
    /// The name of a source.
    pub open spec fn called(self) -> Seq<char> {
        match self {
            Source::Frankfurter => "Frankfurter (ECB)"@,
            Source::Fred => "FRED"@,
            Source::Kraken => "Kraken"@,
            Source::Lbma => "LBMA"@,
        }
    }

    /// The name that is shown for a source.
    pub fn name(&self) -> (r: &'static str)
        ensures
            r@ == self.called(),
    {
        match self {
            Source::Frankfurter => "Frankfurter (ECB)",
            Source::Fred => "FRED",
            Source::Kraken => "Kraken",
            Source::Lbma => "LBMA",
        }
    }
}

/// A series of the dashboard.
#[derive(Clone, Copy, Debug)]
pub struct SeriesSpec {
    /// What the source and the store call it.
    pub symbol: &'static str,
    /// What the card is headed.
    pub title: &'static str,
    pub unit: &'static str,
    pub source: Source,
    /// Traded, and so refreshed more often.
    pub market: bool,
    /// Shown as the change over a year.
    pub yoy: bool,
}

/// The entry of a series.
pub struct Entry {
    pub symbol: Seq<char>,
    pub title: Seq<char>,
    pub unit: Seq<char>,
    pub source: Source,
    pub market: bool,
    pub yoy: bool,
}

impl View for SeriesSpec {
    type V = Entry;

    open spec fn view(&self) -> Entry {
        Entry {
            symbol: self.symbol@,
            title: self.title@,
            unit: self.unit@,
            source: self.source,
            market: self.market,
            yoy: self.yoy,
        }
    }
}

pub open spec fn entry(
    symbol: Seq<char>,
    title: Seq<char>,
    unit: Seq<char>,
    source: Source,
    market: bool,
    yoy: bool,
) -> Entry {
    Entry { symbol, title, unit, source, market, yoy }
}

/// The series of the dashboard, in the order of its cards.
pub open spec fn entries() -> Seq<Entry> {
    seq![
        entry("AUDUSD"@, "AUD/USD"@, ""@, Source::Frankfurter, true, false),
        entry("SP500"@, "S&P 500"@, ""@, Source::Fred, true, false),
        entry("NASDAQCOM"@, "NASDAQ Composite"@, ""@, Source::Fred, true, false),
        entry("DJIA"@, "Dow Jones (DJIA)"@, ""@, Source::Fred, true, false),
        entry("GOLD"@, "Gold (LBMA PM)"@, "USD/oz"@, Source::Lbma, false, false),
        entry("SILVER"@, "Silver (LBMA)"@, "USD/oz"@, Source::Lbma, false, false),
        entry("btcusd"@, "Bitcoin (BTC/USD)"@, "USD"@, Source::Kraken, true, false),
        entry("xmrusd"@, "Monero (XMR/USD)"@, "USD"@, Source::Kraken, true, false),
        entry("IRSTCI01AUM156N"@, "RBA Cash Rate"@, "%"@, Source::Fred, false, false),
        entry("AUSCPIALLQINMEI"@, "AU CPI (YoY)"@, "%"@, Source::Fred, false, true),
    ]
}

/// The views of a list of series.
pub open spec fn spec_views(v: Seq<SeriesSpec>) -> Seq<Entry> {
    v.map_values(|s: SeriesSpec| s@)
}

/// The series of a country's dashboard, in the order of its cards.
pub fn registry(country: Country) -> (r: Vec<SeriesSpec>)
    ensures
        spec_views(r@) == entries(),
{
    let r = vec![
        SeriesSpec { symbol: country.fx_symbol(), title: "AUD/USD", unit: "", source: Source::Frankfurter, market: true, yoy: false },
        SeriesSpec { symbol: "SP500", title: "S&P 500", unit: "", source: Source::Fred, market: true, yoy: false },
        SeriesSpec { symbol: "NASDAQCOM", title: "NASDAQ Composite", unit: "", source: Source::Fred, market: true, yoy: false },
        SeriesSpec { symbol: "DJIA", title: "Dow Jones (DJIA)", unit: "", source: Source::Fred, market: true, yoy: false },
        SeriesSpec { symbol: "GOLD", title: "Gold (LBMA PM)", unit: "USD/oz", source: Source::Lbma, market: false, yoy: false },
        SeriesSpec { symbol: "SILVER", title: "Silver (LBMA)", unit: "USD/oz", source: Source::Lbma, market: false, yoy: false },
        SeriesSpec { symbol: "btcusd", title: "Bitcoin (BTC/USD)", unit: "USD", source: Source::Kraken, market: true, yoy: false },
        SeriesSpec { symbol: "xmrusd", title: "Monero (XMR/USD)", unit: "USD", source: Source::Kraken, market: true, yoy: false },
        SeriesSpec { symbol: "IRSTCI01AUM156N", title: "RBA Cash Rate", unit: "%", source: Source::Fred, market: false, yoy: false },
        SeriesSpec { symbol: "AUSCPIALLQINMEI", title: "AU CPI (YoY)", unit: "%", source: Source::Fred, market: false, yoy: true },
    ];
    assert(spec_views(r@) =~= entries());
    r
}

/// The ticker under which Yahoo keeps the hourly prices of a series.
pub open spec fn ticker(symbol: Seq<char>) -> Option<Seq<char>> {
    if symbol == "AUDUSD"@ {
        Some("AUDUSD=X"@)
    } else if symbol == "SP500"@ {
        Some("^GSPC"@)
    } else if symbol == "NASDAQCOM"@ {
        Some("^IXIC"@)
    } else if symbol == "DJIA"@ {
        Some("^DJI"@)
    } else if symbol == "GOLD"@ {
        Some("GC=F"@)
    } else if symbol == "SILVER"@ {
        Some("SI=F"@)
    } else {
        None
    }
}

/// The ticker under which Yahoo keeps the hourly prices of a series.
pub fn yahoo_intraday_ticker(symbol: &str) -> (r: Option<&'static str>)
    ensures
        r is Some == ticker(symbol@) is Some,
        r matches Some(t) ==> ticker(symbol@) == Some(t@),
{
    if text_is(symbol, "AUDUSD") {
        Some("AUDUSD=X")
    } else if text_is(symbol, "SP500") {
        Some("^GSPC")
    } else if text_is(symbol, "NASDAQCOM") {
        Some("^IXIC")
    } else if text_is(symbol, "DJIA") {
        Some("^DJI")
    } else if text_is(symbol, "GOLD") {
        Some("GC=F")
    } else if text_is(symbol, "SILVER") {
        Some("SI=F")
    } else {
        None
    }
}

/// No two series of the dashboard have one symbol.
pub proof fn symbols_differ(i: int, j: int)
    requires
        0 <= i < entries().len(),
        0 <= j < entries().len(),
        entries()[i].symbol == entries()[j].symbol,
    ensures
        i == j,
{
    reveal_strlit("AUDUSD");
    reveal_strlit("SP500");
    reveal_strlit("NASDAQCOM");
    reveal_strlit("DJIA");
    reveal_strlit("GOLD");
    reveal_strlit("SILVER");
    reveal_strlit("btcusd");
    reveal_strlit("xmrusd");
    reveal_strlit("IRSTCI01AUM156N");
    reveal_strlit("AUSCPIALLQINMEI");
    assert("AUDUSD"@.len() == 6 && "SP500"@.len() == 5 && "NASDAQCOM"@.len() == 9 && "DJIA"@.len() == 4 && "GOLD"@.len() == 4 && "SILVER"@.len() == 6 && "btcusd"@.len() == 6 && "xmrusd"@.len() == 6 && "IRSTCI01AUM156N"@.len() == 15 && "AUSCPIALLQINMEI"@.len() == 15);
    assert("AUDUSD"@[0] == 'A' && "SP500"@[0] == 'S' && "NASDAQCOM"@[0] == 'N' && "DJIA"@[0] == 'D' && "GOLD"@[0] == 'G' && "SILVER"@[0] == 'S' && "btcusd"@[0] == 'b' && "xmrusd"@[0] == 'x' && "IRSTCI01AUM156N"@[0] == 'I' && "AUSCPIALLQINMEI"@[0] == 'A');
}

} // verus!
