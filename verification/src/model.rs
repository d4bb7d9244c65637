//! The records that describe instruments and how they are classified.

use crate::text::{chars_of, same_text, string_of};
use vstd::prelude::*;

verus! {

/// A sector or an industry: its name and the page that describes it.
#[derive(Clone, Debug)]
pub struct Group {
    pub name: String,
    pub url: String,
}

/// An instrument as it is listed: the exchange and the symbol.
#[derive(Clone, Debug)]
pub struct Ticker {
    pub exchange: String,
    pub ticker: String,
}

/// What kind of thing a performance row is about.
#[derive(Clone, Copy, Debug, PartialEq, Eq, Structural)]
pub enum TickerType {
    Sector,
    Industry,
    Stock,
}

/// A stock with its classification. `last_update` is the day on which the
/// classification was obtained.
#[derive(Clone, Debug)]
pub struct Stock {
    pub ticker: String,
    pub exchange: String,
    pub sector: Group,
    pub industry: Group,
    pub last_update: i32,
}

/// What a provider knows of a symbol; every detail may be missing.
#[derive(Clone, Debug)]
pub struct TickerInfo {
    pub symbol: String,
    pub exchange: Option<String>,
    pub exchange_code: Option<String>,
    pub sector: Option<String>,
    pub industry: Option<String>,
}

/// An industry and the fund that tracks it.
#[derive(Clone, Debug)]
pub struct Industry {
    pub name: String,
    pub etf: String,
}

/// A sector, the fund that tracks it, and its industries.
#[derive(Clone, Debug)]
pub struct Sector {
    pub sector: String,
    pub sector_etf: String,
    pub industries: Vec<Industry>,
}

/// The parameters of a graph request: the timeframe by name, and how many
/// points of tail and of history are wanted.
#[derive(Clone, Debug)]
pub struct RrgQuery {
    pub timeframe: String,
    pub tail: usize,
    pub history: usize,
}

/// Why a stock could not be made from what a provider knows.
#[derive(Clone, Debug)]
pub enum InfoError {
    MissingExchange,
    /// The exchange is none of the known ones; its name is carried as it came.
    UnknownExchange(String),
    MissingSector,
    MissingIndustry,
}

impl TickerType {
    /// The tag under which the type is stored.
    pub open spec fn tag(self) -> Seq<char> {
        match self {
            TickerType::Sector => "Sector"@,
            TickerType::Industry => "Industry"@,
            TickerType::Stock => "Stock"@,
        }
    }

    /// The type that a tag stands for, if any.
    pub open spec fn tagged(tag: Seq<char>) -> Option<TickerType> {
        if tag == "Sector"@ {
            Some(TickerType::Sector)
        } else if tag == "Industry"@ {
            Some(TickerType::Industry)
        } else if tag == "Stock"@ {
            Some(TickerType::Stock)
        } else {
            None
        }
    }

    pub fn as_tag(self) -> (s: &'static str)
        ensures
            s@ == self.tag(),
    {
        match self {
            TickerType::Sector => "Sector",
            TickerType::Industry => "Industry",
            TickerType::Stock => "Stock",
        }
    }

    /// Reads a stored tag. An unknown tag is an error that carries the tag
    /// as it came.
    pub fn from_tag(tag: &str) -> (r: Result<TickerType, String>)
        ensures
            match r {
                Ok(t) => TickerType::tagged(tag@) == Some(t),
                Err(raw) => TickerType::tagged(tag@) is None && raw@ == tag@,
            },
    {
        if same_text(tag, "Sector") {
            Ok(TickerType::Sector)
        } else if same_text(tag, "Industry") {
            Ok(TickerType::Industry)
        } else if same_text(tag, "Stock") {
            Ok(TickerType::Stock)
        } else {
            Err(string_of(&chars_of(tag)))
        }
    }
}

/// Reading back the tag of a type gives the type.
pub proof fn lemma_tag_round_trip(t: TickerType)
    ensures
        TickerType::tagged(t.tag()) == Some(t),
{
    reveal_strlit("Sector");
    reveal_strlit("Industry");
    reveal_strlit("Stock");
    match t {
        TickerType::Sector => {},
        TickerType::Industry => {
            assert("Industry"@[0] != "Sector"@[0]);
        },
        TickerType::Stock => {
            assert("Stock"@.len() != "Sector"@.len());
            assert("Stock"@.len() != "Industry"@.len());
        },
    }
}

/// Whether `s` begins with `prefix`.
pub open spec fn begins_with(s: Seq<char>, prefix: Seq<char>) -> bool {
    prefix.len() <= s.len() && s.take(prefix.len() as int) == prefix
}

/// Whether `s` begins with `prefix`.
pub fn starts_with(s: &str, prefix: &str) -> (b: bool)
    ensures
        b == begins_with(s@, prefix@),
{
    let text = chars_of(s);
    let head = chars_of(prefix);
    if head.len() > text.len() {
        return false;
    }
    let mut i: usize = 0;
    while i < head.len()
        invariant
            i <= head.len() <= text.len(),
            text@ == s@,
            head@ == prefix@,
            forall|k: int| 0 <= k < i ==> text@[k] == head@[k],
        decreases head.len() - i,
    {
        if text[i] != head[i] {
            assert(s@.take(prefix@.len() as int)[i as int] != prefix@[i as int]);
            return false;
        }
        i += 1;
    }
    assert(s@.take(prefix@.len() as int) =~= prefix@);
    true
}

/// The code of the exchange that a provider names, if the name is known.
pub open spec fn exchange_code_of(exchange: Seq<char>) -> Option<Seq<char>> {
    if exchange == "NYSE"@ {
        Some("NYSE"@)
    } else if exchange == "NYSE American"@ {
        Some("ARCA"@)
    } else if begins_with(exchange, "Nasdaq"@) {
        Some("NASDAQ"@)
    } else if begins_with(exchange, "OTC"@) {
        Some("OTC"@)
    } else {
        None
    }
}

/// Maps the name that a provider gives an exchange to the exchange's code.
/// An unknown name is an error that carries the name as it came.
pub fn exchange_map(exchange: &str) -> (r: Result<&'static str, String>)
    ensures
        match r {
            Ok(code) => exchange_code_of(exchange@) == Some(code@),
            Err(raw) => exchange_code_of(exchange@) is None && raw@ == exchange@,
        },
{
    if same_text(exchange, "NYSE") {
        Ok("NYSE")
    } else if same_text(exchange, "NYSE American") {
        Ok("ARCA")
    } else if starts_with(exchange, "Nasdaq") {
        Ok("NASDAQ")
    } else if starts_with(exchange, "OTC") {
        Ok("OTC")
    } else {
        Err(string_of(&chars_of(exchange)))
    }
}

/// Whether `stock` is the stock that `info` describes for `ticker` on `today`.
pub open spec fn stock_of(stock: Stock, ticker: Seq<char>, info: TickerInfo, today: i32) -> bool {
    &&& stock.ticker@ == ticker
    &&& info.exchange matches Some(exchange)
    &&& exchange_code_of(exchange@) == Some(stock.exchange@)
    &&& info.sector matches Some(sector)
    &&& stock.sector.name@ == sector@
    &&& stock.sector.url@ == "#"@
    &&& info.industry matches Some(industry)
    &&& stock.industry.name@ == industry@
    &&& stock.industry.url@ == "#"@
    &&& stock.last_update == today
}

/// Makes a stock from what a provider knows of a symbol. The exchange, the
/// sector and the industry must all be known, and the exchange must be one
/// with a code; the first of these that fails is the error.
pub fn stock_from_info(ticker: &str, info: TickerInfo, today: i32) -> (r: Result<Stock, InfoError>)
    ensures
        match r {
            Ok(stock) => stock_of(stock, ticker@, info, today),
            Err(InfoError::MissingExchange) => info.exchange is None,
            Err(InfoError::UnknownExchange(raw)) => info.exchange matches Some(exchange)
                && exchange_code_of(exchange@) is None && raw@ == exchange@,
            Err(InfoError::MissingSector) => info.exchange matches Some(exchange)
                && exchange_code_of(exchange@) is Some && info.sector is None,
            Err(InfoError::MissingIndustry) => info.exchange matches Some(exchange)
                && exchange_code_of(exchange@) is Some && info.sector is Some
                && info.industry is None,
        },
{
    let TickerInfo { symbol: _, exchange, exchange_code: _, sector, industry } = info;
    let exchange = match exchange {
        Some(e) => e,
        None => return Err(InfoError::MissingExchange),
    };
    let code = match exchange_map(exchange.as_str()) {
        Ok(code) => code,
        Err(raw) => return Err(InfoError::UnknownExchange(raw)),
    };
    let sector = match sector {
        Some(s) => s,
        None => return Err(InfoError::MissingSector),
    };
    let industry = match industry {
        Some(i) => i,
        None => return Err(InfoError::MissingIndustry),
    };
    Ok(
        Stock {
            ticker: string_of(&chars_of(ticker)),
            exchange: string_of(&chars_of(code)),
            sector: Group { name: sector, url: string_of(&chars_of("#")) },
            industry: Group { name: industry, url: string_of(&chars_of("#")) },
            last_update: today,
        },
    )
}

} // verus!
