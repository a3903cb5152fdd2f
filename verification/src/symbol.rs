//! The fixed symbol set: every metric name and asset pair the pipeline
//! handles, plus the M2 country set of the monthly job.
//!
//! Symbol-to-text tables are stated exactly; parsing back is exact on the
//! normalized text, and the normalization itself (Unicode uppercasing,
//! whitespace trimming) is delegated to the standard library behind named
//! results.

use vstd::prelude::*;

verus! {

broadcast use vstd::string::group_string_axioms;

/// The Unicode uppercase mapping of a string; depends on the characters
/// alone.
pub uninterp spec fn upper_of(s: Seq<char>) -> Seq<char>;

/// A string without its leading and trailing whitespace; depends on the
/// characters alone.
pub uninterp spec fn trimmed_of(s: Seq<char>) -> Seq<char>;

/// Relies on `str::to_uppercase`: the Unicode uppercase mapping of the
/// input.
#[verifier::external_body]
pub fn to_uppercase(s: &str) -> (r: String)
    ensures
        r@ == upper_of(s@),
{
    s.to_uppercase()
}

/// Relies on `str::trim`: the input without leading and trailing
/// whitespace.
#[verifier::external_body]
pub fn trim_str(s: &str) -> (r: String)
    ensures
        r@ == trimmed_of(s@),
{
    s.trim().to_owned()
}

/// Character-for-character string equality.
pub fn str_eq(a: &str, b: &str) -> (r: bool)
    ensures
        r == (a@ == b@),
{
    let sa: String = a.to_owned();
    let sb: String = b.to_owned();
    sa == sb
}

/// Every market symbol the pipeline fetches, derives or persists: asset
/// pairs, macro series, global aggregates and computed metrics share this
/// one name set.
#[derive(Debug, Clone, Copy, PartialEq, Eq, Structural, Hash)]
pub enum MarketSymbol {
    BtcUsd,
    EthUsd,
    Gold,
    Oil,
    Sp500,
    Nasdaq,
    UsdIndex,
    DFF,
    T10Y2Y,
    DEXUSEU,
    CPIAUCSL,
    DGS10,
    DGS2,
    M2SL,
    UNRATE,
    FEDFUNDS,
    BtcDominance,
    EthDominance,
    StablecoinDominance,
    BtcStableRatio,
    BtcReturn7d,
    BtcReturn30d,
    BtcReturn90d,
    GlobalTotalMarketCapUsd,
    GlobalTotalStableCapUsd,
    GlobalTotalBtcCapUsd,
    GlobalTotalEthCapUsd,
    GlobalTotalVolume24hUsd,
    FearGreedIndex,
}

/// The symbol could not be parsed; carries the normalized text that
/// matched no symbol.
#[derive(Debug, Clone)]
pub struct ParseMarketSymbolError(pub String);

impl MarketSymbol {
    /// The canonical name of this symbol.
    pub open spec fn spec_str(self) -> Seq<char> {
        match self {
            MarketSymbol::BtcUsd => "BTC_USD"@,
            MarketSymbol::EthUsd => "ETH_USD"@,
            MarketSymbol::Gold => "GOLD_USD"@,
            MarketSymbol::Oil => "OIL_USD"@,
            MarketSymbol::Sp500 => "SP500_USD"@,
            MarketSymbol::Nasdaq => "NASDAQ_USD"@,
            MarketSymbol::UsdIndex => "USD_INDEX_USD"@,
            MarketSymbol::DFF => "DFF"@,
            MarketSymbol::T10Y2Y => "T10Y2Y"@,
            MarketSymbol::DEXUSEU => "DEXUSEU"@,
            MarketSymbol::CPIAUCSL => "CPIAUCSL"@,
            MarketSymbol::DGS10 => "DGS10"@,
            MarketSymbol::DGS2 => "DGS2"@,
            MarketSymbol::M2SL => "M2SL"@,
            MarketSymbol::UNRATE => "UNRATE"@,
            MarketSymbol::FEDFUNDS => "FEDFUNDS"@,
            MarketSymbol::BtcDominance => "BTC_DOMINANCE"@,
            MarketSymbol::EthDominance => "ETH_DOMINANCE"@,
            MarketSymbol::StablecoinDominance => "STABLECOIN_DOMINANCE"@,
            MarketSymbol::BtcStableRatio => "BTC_STABLE_RATIO"@,
            MarketSymbol::BtcReturn7d => "BTC_RETURN_7D"@,
            MarketSymbol::BtcReturn30d => "BTC_RETURN_30D"@,
            MarketSymbol::BtcReturn90d => "BTC_RETURN_90D"@,
            MarketSymbol::GlobalTotalMarketCapUsd => "GLOBAL_TOTAL_MARKET_CAP_USD"@,
            MarketSymbol::GlobalTotalStableCapUsd => "GLOBAL_TOTAL_STABLE_CAP_USD"@,
            MarketSymbol::GlobalTotalBtcCapUsd => "GLOBAL_TOTAL_BTC_CAP_USD"@,
            MarketSymbol::GlobalTotalEthCapUsd => "GLOBAL_TOTAL_ETH_CAP_USD"@,
            MarketSymbol::GlobalTotalVolume24hUsd => "GLOBAL_TOTAL_VOLUME_24H_USD"@,
            MarketSymbol::FearGreedIndex => "FEAR_GREED_INDEX"@,
        }
    }

    /// The ticker used when fetching this symbol from the quote provider;
    /// `UNKNOWN` for symbols that are not fetched there.
    pub open spec fn spec_yahoo_str(self) -> Seq<char> {
        match self {
            MarketSymbol::BtcUsd => "BTC-USD"@,
            MarketSymbol::EthUsd => "ETH-USD"@,
            MarketSymbol::Gold => "GC=F"@,
            MarketSymbol::Oil => "CL=F"@,
            MarketSymbol::Sp500 => "^GSPC"@,
            MarketSymbol::Nasdaq => "^IXIC"@,
            MarketSymbol::UsdIndex => "DX-Y.NYB"@,
            _ => "UNKNOWN"@,
        }
    }

    /// The canonical name of this symbol.
    pub fn as_str(&self) -> (r: &'static str)
        ensures
            r@ == self.spec_str(),
    {
        match self {
            MarketSymbol::BtcUsd => "BTC_USD",
            MarketSymbol::EthUsd => "ETH_USD",
            MarketSymbol::Gold => "GOLD_USD",
            MarketSymbol::Oil => "OIL_USD",
            MarketSymbol::Sp500 => "SP500_USD",
            MarketSymbol::Nasdaq => "NASDAQ_USD",
            MarketSymbol::UsdIndex => "USD_INDEX_USD",
            MarketSymbol::DFF => "DFF",
            MarketSymbol::T10Y2Y => "T10Y2Y",
            MarketSymbol::DEXUSEU => "DEXUSEU",
            MarketSymbol::CPIAUCSL => "CPIAUCSL",
            MarketSymbol::DGS10 => "DGS10",
            MarketSymbol::DGS2 => "DGS2",
            MarketSymbol::M2SL => "M2SL",
            MarketSymbol::UNRATE => "UNRATE",
            MarketSymbol::FEDFUNDS => "FEDFUNDS",
            MarketSymbol::BtcDominance => "BTC_DOMINANCE",
            MarketSymbol::EthDominance => "ETH_DOMINANCE",
            MarketSymbol::StablecoinDominance => "STABLECOIN_DOMINANCE",
            MarketSymbol::BtcStableRatio => "BTC_STABLE_RATIO",
            MarketSymbol::BtcReturn7d => "BTC_RETURN_7D",
            MarketSymbol::BtcReturn30d => "BTC_RETURN_30D",
            MarketSymbol::BtcReturn90d => "BTC_RETURN_90D",
            MarketSymbol::GlobalTotalMarketCapUsd => "GLOBAL_TOTAL_MARKET_CAP_USD",
            MarketSymbol::GlobalTotalStableCapUsd => "GLOBAL_TOTAL_STABLE_CAP_USD",
            MarketSymbol::GlobalTotalBtcCapUsd => "GLOBAL_TOTAL_BTC_CAP_USD",
            MarketSymbol::GlobalTotalEthCapUsd => "GLOBAL_TOTAL_ETH_CAP_USD",
            MarketSymbol::GlobalTotalVolume24hUsd => "GLOBAL_TOTAL_VOLUME_24H_USD",
            MarketSymbol::FearGreedIndex => "FEAR_GREED_INDEX",
        }
    }

    /// The ticker used when fetching this symbol from the quote provider.
    pub fn as_yahoo_symbol(&self) -> (r: &'static str)
        ensures
            r@ == self.spec_yahoo_str(),
    {
        match self {
            MarketSymbol::BtcUsd => "BTC-USD",
            MarketSymbol::EthUsd => "ETH-USD",
            MarketSymbol::Gold => "GC=F",
            MarketSymbol::Oil => "CL=F",
            MarketSymbol::Sp500 => "^GSPC",
            MarketSymbol::Nasdaq => "^IXIC",
            MarketSymbol::UsdIndex => "DX-Y.NYB",
            _ => "UNKNOWN",
        }
    }

    /// Whether this is the BTC/USD pair.
    pub fn is_btc(&self) -> (r: bool)
        ensures
            r == (*self is BtcUsd),
    {
        matches!(self, MarketSymbol::BtcUsd)
    }

    /// The derived metrics computed for BTC each daily cycle.
    pub fn btc_metrics() -> (r: [MarketSymbol; 5])
        ensures
            r@ == seq![
                MarketSymbol::BtcDominance,
                MarketSymbol::BtcStableRatio,
                MarketSymbol::BtcReturn7d,
                MarketSymbol::BtcReturn30d,
                MarketSymbol::BtcReturn90d,
            ],
    {
        [
            MarketSymbol::BtcDominance,
            MarketSymbol::BtcStableRatio,
            MarketSymbol::BtcReturn7d,
            MarketSymbol::BtcReturn30d,
            MarketSymbol::BtcReturn90d,
        ]
    }

    /// The derived metrics computed for ETH each daily cycle.
    pub fn eth_metrics() -> (r: [MarketSymbol; 1])
        ensures
            r@ == seq![MarketSymbol::EthDominance],
    {
        [MarketSymbol::EthDominance]
    }

    /// Every macro-economic series and market index the dashboard groups
    /// together.
    pub fn macro_metrics() -> (r: [MarketSymbol; 14])
        ensures
            r@ == seq![
                MarketSymbol::Gold,
                MarketSymbol::Oil,
                MarketSymbol::Sp500,
                MarketSymbol::Nasdaq,
                MarketSymbol::UsdIndex,
                MarketSymbol::DFF,
                MarketSymbol::T10Y2Y,
                MarketSymbol::DEXUSEU,
                MarketSymbol::CPIAUCSL,
                MarketSymbol::DGS10,
                MarketSymbol::DGS2,
                MarketSymbol::M2SL,
                MarketSymbol::UNRATE,
                MarketSymbol::FEDFUNDS,
            ],
    {
        [
            MarketSymbol::Gold,
            MarketSymbol::Oil,
            MarketSymbol::Sp500,
            MarketSymbol::Nasdaq,
            MarketSymbol::UsdIndex,
            MarketSymbol::DFF,
            MarketSymbol::T10Y2Y,
            MarketSymbol::DEXUSEU,
            MarketSymbol::CPIAUCSL,
            MarketSymbol::DGS10,
            MarketSymbol::DGS2,
            MarketSymbol::M2SL,
            MarketSymbol::UNRATE,
            MarketSymbol::FEDFUNDS,
        ]
    }

    /// The macro series fetched from the FRED provider each daily cycle.
    pub fn fred_metrics() -> (r: [MarketSymbol; 9])
        ensures
            r@ == seq![
                MarketSymbol::DFF,
                MarketSymbol::T10Y2Y,
                MarketSymbol::DEXUSEU,
                MarketSymbol::CPIAUCSL,
                MarketSymbol::DGS10,
                MarketSymbol::DGS2,
                MarketSymbol::M2SL,
                MarketSymbol::UNRATE,
                MarketSymbol::FEDFUNDS,
            ],
    {
        [
            MarketSymbol::DFF,
            MarketSymbol::T10Y2Y,
            MarketSymbol::DEXUSEU,
            MarketSymbol::CPIAUCSL,
            MarketSymbol::DGS10,
            MarketSymbol::DGS2,
            MarketSymbol::M2SL,
            MarketSymbol::UNRATE,
            MarketSymbol::FEDFUNDS,
        ]
    }

    /// Match already-normalized text (uppercase, no surrounding
    /// whitespace) against the canonical symbol names.
    pub fn match_symbol(s: &str) -> (r: Result<MarketSymbol, ParseMarketSymbolError>)
        ensures
            forall|m: MarketSymbol| s@ == m.spec_str() ==> r == Ok::<
                MarketSymbol,
                ParseMarketSymbolError,
            >(m),
            r matches Ok(m) ==> s@ == m.spec_str(),
            r matches Err(e) ==> e.0@ == s@ && forall|m: MarketSymbol| s@ != m.spec_str(),
    {
        proof {
            reveal_strlit("BTC_USD");
            reveal_strlit("ETH_USD");
            reveal_strlit("GOLD_USD");
            reveal_strlit("OIL_USD");
            reveal_strlit("SP500_USD");
            reveal_strlit("NASDAQ_USD");
            reveal_strlit("USD_INDEX_USD");
            reveal_strlit("DFF");
            reveal_strlit("T10Y2Y");
            reveal_strlit("DEXUSEU");
            reveal_strlit("CPIAUCSL");
            reveal_strlit("DGS10");
            reveal_strlit("DGS2");
            reveal_strlit("M2SL");
            reveal_strlit("UNRATE");
            reveal_strlit("FEDFUNDS");
            reveal_strlit("BTC_DOMINANCE");
            reveal_strlit("ETH_DOMINANCE");
            reveal_strlit("STABLECOIN_DOMINANCE");
            reveal_strlit("BTC_STABLE_RATIO");
            reveal_strlit("BTC_RETURN_7D");
            reveal_strlit("BTC_RETURN_30D");
            reveal_strlit("BTC_RETURN_90D");
            reveal_strlit("GLOBAL_TOTAL_MARKET_CAP_USD");
            reveal_strlit("GLOBAL_TOTAL_STABLE_CAP_USD");
            reveal_strlit("GLOBAL_TOTAL_BTC_CAP_USD");
            reveal_strlit("GLOBAL_TOTAL_ETH_CAP_USD");
            reveal_strlit("GLOBAL_TOTAL_VOLUME_24H_USD");
            reveal_strlit("FEAR_GREED_INDEX");
            assert("BTC_USD"@.len() == 7);
            assert("BTC_USD"@[0] == 'B');
            assert("ETH_USD"@.len() == 7);
            assert("ETH_USD"@[0] == 'E');
            assert("GOLD_USD"@.len() == 8);
            assert("GOLD_USD"@[0] == 'G');
            assert("OIL_USD"@.len() == 7);
            assert("OIL_USD"@[0] == 'O');
            assert("SP500_USD"@.len() == 9);
            assert("SP500_USD"@[0] == 'S');
            assert("NASDAQ_USD"@.len() == 10);
            assert("NASDAQ_USD"@[0] == 'N');
            assert("USD_INDEX_USD"@.len() == 13);
            assert("USD_INDEX_USD"@[0] == 'U');
            assert("DFF"@.len() == 3);
            assert("DFF"@[0] == 'D');
            assert("T10Y2Y"@.len() == 6);
            assert("T10Y2Y"@[0] == 'T');
            assert("DEXUSEU"@.len() == 7);
            assert("DEXUSEU"@[0] == 'D');
            assert("CPIAUCSL"@.len() == 8);
            assert("CPIAUCSL"@[0] == 'C');
            assert("DGS10"@.len() == 5);
            assert("DGS10"@[0] == 'D');
            assert("DGS2"@.len() == 4);
            assert("DGS2"@[0] == 'D');
            assert("M2SL"@.len() == 4);
            assert("M2SL"@[0] == 'M');
            assert("UNRATE"@.len() == 6);
            assert("UNRATE"@[0] == 'U');
            assert("FEDFUNDS"@.len() == 8);
            assert("FEDFUNDS"@[0] == 'F');
            assert("BTC_DOMINANCE"@.len() == 13);
            assert("BTC_DOMINANCE"@[0] == 'B');
            assert("ETH_DOMINANCE"@.len() == 13);
            assert("ETH_DOMINANCE"@[0] == 'E');
            assert("STABLECOIN_DOMINANCE"@.len() == 20);
            assert("STABLECOIN_DOMINANCE"@[0] == 'S');
            assert("BTC_STABLE_RATIO"@.len() == 16);
            assert("BTC_STABLE_RATIO"@[0] == 'B');
            assert("BTC_RETURN_7D"@.len() == 13);
            assert("BTC_RETURN_7D"@[0] == 'B');
            assert("BTC_RETURN_30D"@.len() == 14);
            assert("BTC_RETURN_30D"@[0] == 'B');
            assert("BTC_RETURN_90D"@.len() == 14);
            assert("BTC_RETURN_90D"@[0] == 'B');
            assert("GLOBAL_TOTAL_MARKET_CAP_USD"@.len() == 27);
            assert("GLOBAL_TOTAL_MARKET_CAP_USD"@[0] == 'G');
            assert("GLOBAL_TOTAL_STABLE_CAP_USD"@.len() == 27);
            assert("GLOBAL_TOTAL_STABLE_CAP_USD"@[0] == 'G');
            assert("GLOBAL_TOTAL_BTC_CAP_USD"@.len() == 24);
            assert("GLOBAL_TOTAL_BTC_CAP_USD"@[0] == 'G');
            assert("GLOBAL_TOTAL_ETH_CAP_USD"@.len() == 24);
            assert("GLOBAL_TOTAL_ETH_CAP_USD"@[0] == 'G');
            assert("GLOBAL_TOTAL_VOLUME_24H_USD"@.len() == 27);
            assert("GLOBAL_TOTAL_VOLUME_24H_USD"@[0] == 'G');
            assert("FEAR_GREED_INDEX"@.len() == 16);
            assert("FEAR_GREED_INDEX"@[0] == 'F');
            assert("BTC_DOMINANCE"@[4] == 'D');
            assert("BTC_RETURN_7D"@[4] == 'R');
            assert("BTC_RETURN_30D"@[11] == '3');
            assert("BTC_RETURN_90D"@[11] == '9');
            assert("GLOBAL_TOTAL_MARKET_CAP_USD"@[13] == 'M');
            assert("GLOBAL_TOTAL_STABLE_CAP_USD"@[13] == 'S');
            assert("GLOBAL_TOTAL_VOLUME_24H_USD"@[13] == 'V');
            assert("GLOBAL_TOTAL_BTC_CAP_USD"@[13] == 'B');
            assert("GLOBAL_TOTAL_ETH_CAP_USD"@[13] == 'E');
        }
        if str_eq(s, "BTC_USD") {
            Ok(MarketSymbol::BtcUsd)
        } else if str_eq(s, "ETH_USD") {
            Ok(MarketSymbol::EthUsd)
        } else if str_eq(s, "GOLD_USD") {
            Ok(MarketSymbol::Gold)
        } else if str_eq(s, "OIL_USD") {
            Ok(MarketSymbol::Oil)
        } else if str_eq(s, "SP500_USD") {
            Ok(MarketSymbol::Sp500)
        } else if str_eq(s, "NASDAQ_USD") {
            Ok(MarketSymbol::Nasdaq)
        } else if str_eq(s, "USD_INDEX_USD") {
            Ok(MarketSymbol::UsdIndex)
        } else if str_eq(s, "DFF") {
            Ok(MarketSymbol::DFF)
        } else if str_eq(s, "T10Y2Y") {
            Ok(MarketSymbol::T10Y2Y)
        } else if str_eq(s, "DEXUSEU") {
            Ok(MarketSymbol::DEXUSEU)
        } else if str_eq(s, "CPIAUCSL") {
            Ok(MarketSymbol::CPIAUCSL)
        } else if str_eq(s, "DGS10") {
            Ok(MarketSymbol::DGS10)
        } else if str_eq(s, "DGS2") {
            Ok(MarketSymbol::DGS2)
        } else if str_eq(s, "M2SL") {
            Ok(MarketSymbol::M2SL)
        } else if str_eq(s, "UNRATE") {
            Ok(MarketSymbol::UNRATE)
        } else if str_eq(s, "FEDFUNDS") {
            Ok(MarketSymbol::FEDFUNDS)
        } else if str_eq(s, "BTC_DOMINANCE") {
            Ok(MarketSymbol::BtcDominance)
        } else if str_eq(s, "ETH_DOMINANCE") {
            Ok(MarketSymbol::EthDominance)
        } else if str_eq(s, "STABLECOIN_DOMINANCE") {
            Ok(MarketSymbol::StablecoinDominance)
        } else if str_eq(s, "BTC_STABLE_RATIO") {
            Ok(MarketSymbol::BtcStableRatio)
        } else if str_eq(s, "BTC_RETURN_7D") {
            Ok(MarketSymbol::BtcReturn7d)
        } else if str_eq(s, "BTC_RETURN_30D") {
            Ok(MarketSymbol::BtcReturn30d)
        } else if str_eq(s, "BTC_RETURN_90D") {
            Ok(MarketSymbol::BtcReturn90d)
        } else if str_eq(s, "GLOBAL_TOTAL_MARKET_CAP_USD") {
            Ok(MarketSymbol::GlobalTotalMarketCapUsd)
        } else if str_eq(s, "GLOBAL_TOTAL_STABLE_CAP_USD") {
            Ok(MarketSymbol::GlobalTotalStableCapUsd)
        } else if str_eq(s, "GLOBAL_TOTAL_BTC_CAP_USD") {
            Ok(MarketSymbol::GlobalTotalBtcCapUsd)
        } else if str_eq(s, "GLOBAL_TOTAL_ETH_CAP_USD") {
            Ok(MarketSymbol::GlobalTotalEthCapUsd)
        } else if str_eq(s, "GLOBAL_TOTAL_VOLUME_24H_USD") {
            Ok(MarketSymbol::GlobalTotalVolume24hUsd)
        } else if str_eq(s, "FEAR_GREED_INDEX") {
            Ok(MarketSymbol::FearGreedIndex)
        } else {
            proof {
                assert forall|m: MarketSymbol| s@ != m.spec_str() by {
                    match m {
                    MarketSymbol::BtcUsd => assert(s@ != MarketSymbol::BtcUsd.spec_str()),
                    MarketSymbol::EthUsd => assert(s@ != MarketSymbol::EthUsd.spec_str()),
                    MarketSymbol::Gold => assert(s@ != MarketSymbol::Gold.spec_str()),
                    MarketSymbol::Oil => assert(s@ != MarketSymbol::Oil.spec_str()),
                    MarketSymbol::Sp500 => assert(s@ != MarketSymbol::Sp500.spec_str()),
                    MarketSymbol::Nasdaq => assert(s@ != MarketSymbol::Nasdaq.spec_str()),
                    MarketSymbol::UsdIndex => assert(s@ != MarketSymbol::UsdIndex.spec_str()),
                    MarketSymbol::DFF => assert(s@ != MarketSymbol::DFF.spec_str()),
                    MarketSymbol::T10Y2Y => assert(s@ != MarketSymbol::T10Y2Y.spec_str()),
                    MarketSymbol::DEXUSEU => assert(s@ != MarketSymbol::DEXUSEU.spec_str()),
                    MarketSymbol::CPIAUCSL => assert(s@ != MarketSymbol::CPIAUCSL.spec_str()),
                    MarketSymbol::DGS10 => assert(s@ != MarketSymbol::DGS10.spec_str()),
                    MarketSymbol::DGS2 => assert(s@ != MarketSymbol::DGS2.spec_str()),
                    MarketSymbol::M2SL => assert(s@ != MarketSymbol::M2SL.spec_str()),
                    MarketSymbol::UNRATE => assert(s@ != MarketSymbol::UNRATE.spec_str()),
                    MarketSymbol::FEDFUNDS => assert(s@ != MarketSymbol::FEDFUNDS.spec_str()),
                    MarketSymbol::BtcDominance => assert(s@ != MarketSymbol::BtcDominance.spec_str()),
                    MarketSymbol::EthDominance => assert(s@ != MarketSymbol::EthDominance.spec_str()),
                    MarketSymbol::StablecoinDominance => assert(s@ != MarketSymbol::StablecoinDominance.spec_str()),
                    MarketSymbol::BtcStableRatio => assert(s@ != MarketSymbol::BtcStableRatio.spec_str()),
                    MarketSymbol::BtcReturn7d => assert(s@ != MarketSymbol::BtcReturn7d.spec_str()),
                    MarketSymbol::BtcReturn30d => assert(s@ != MarketSymbol::BtcReturn30d.spec_str()),
                    MarketSymbol::BtcReturn90d => assert(s@ != MarketSymbol::BtcReturn90d.spec_str()),
                    MarketSymbol::GlobalTotalMarketCapUsd => assert(s@ != MarketSymbol::GlobalTotalMarketCapUsd.spec_str()),
                    MarketSymbol::GlobalTotalStableCapUsd => assert(s@ != MarketSymbol::GlobalTotalStableCapUsd.spec_str()),
                    MarketSymbol::GlobalTotalBtcCapUsd => assert(s@ != MarketSymbol::GlobalTotalBtcCapUsd.spec_str()),
                    MarketSymbol::GlobalTotalEthCapUsd => assert(s@ != MarketSymbol::GlobalTotalEthCapUsd.spec_str()),
                    MarketSymbol::GlobalTotalVolume24hUsd => assert(s@ != MarketSymbol::GlobalTotalVolume24hUsd.spec_str()),
                    MarketSymbol::FearGreedIndex => assert(s@ != MarketSymbol::FearGreedIndex.spec_str()),
                    }
                }
            }
            Err(ParseMarketSymbolError(s.to_owned()))
        }
    }

    /// Parse a symbol name: trim surrounding whitespace, uppercase, then
    /// match against the canonical names.
    pub fn from_str(s: &str) -> (r: Result<MarketSymbol, ParseMarketSymbolError>)
        ensures
            forall|m: MarketSymbol| upper_of(trimmed_of(s@)) == m.spec_str() ==> r == Ok::<
                MarketSymbol,
                ParseMarketSymbolError,
            >(m),
            r matches Ok(m) ==> upper_of(trimmed_of(s@)) == m.spec_str(),
            r matches Err(e) ==> e.0@ == upper_of(trimmed_of(s@)) && forall|m: MarketSymbol|
                upper_of(trimmed_of(s@)) != m.spec_str(),
    {
        let t = trim_str(s);
        let u = to_uppercase(t.as_str());
        MarketSymbol::match_symbol(u.as_str())
    }
}

/// The countries whose M2 money stock the monthly job fetches.
#[derive(Debug, Clone, Copy, PartialEq, Eq, Structural, Hash)]
pub enum M2Country {
    US,
    EU,
    Japan,
    Canada,
    China,
    India,
    UK,
}

impl M2Country {
    /// The provider's series slug for this country.
    pub open spec fn spec_fxempire_str(self) -> Seq<char> {
        match self {
            M2Country::US => "united-states"@,
            M2Country::EU => "euro-area"@,
            M2Country::Japan => "japan"@,
            M2Country::Canada => "canada"@,
            M2Country::China => "china"@,
            M2Country::India => "india"@,
            M2Country::UK => "united-kingdom"@,
        }
    }

    /// The display name of this country.
    pub open spec fn spec_name_str(self) -> Seq<char> {
        match self {
            M2Country::US => "United States"@,
            M2Country::EU => "Euro Area"@,
            M2Country::Japan => "Japan"@,
            M2Country::Canada => "Canada"@,
            M2Country::China => "China"@,
            M2Country::India => "India"@,
            M2Country::UK => "United Kingdom"@,
        }
    }

    /// The ISO currency code of this country's M2 series.
    pub open spec fn spec_currency_str(self) -> Seq<char> {
        match self {
            M2Country::US => "USD"@,
            M2Country::EU => "EUR"@,
            M2Country::Japan => "JPY"@,
            M2Country::Canada => "CAD"@,
            M2Country::China => "CNY"@,
            M2Country::India => "INR"@,
            M2Country::UK => "GBP"@,
        }
    }

    /// The provider's series slug for this country.
    pub fn as_fxempire_symbol(&self) -> (r: &'static str)
        ensures
            r@ == self.spec_fxempire_str(),
    {
        match self {
            M2Country::US => "united-states",
            M2Country::EU => "euro-area",
            M2Country::Japan => "japan",
            M2Country::Canada => "canada",
            M2Country::China => "china",
            M2Country::India => "india",
            M2Country::UK => "united-kingdom",
        }
    }

    /// The display name of this country.
    pub fn as_str(&self) -> (r: &'static str)
        ensures
            r@ == self.spec_name_str(),
    {
        match self {
            M2Country::US => "United States",
            M2Country::EU => "Euro Area",
            M2Country::Japan => "Japan",
            M2Country::Canada => "Canada",
            M2Country::China => "China",
            M2Country::India => "India",
            M2Country::UK => "United Kingdom",
        }
    }

    /// The ISO currency code of this country's M2 series.
    pub fn as_currency_code(&self) -> (r: &'static str)
        ensures
            r@ == self.spec_currency_str(),
    {
        match self {
            M2Country::US => "USD",
            M2Country::EU => "EUR",
            M2Country::Japan => "JPY",
            M2Country::Canada => "CAD",
            M2Country::China => "CNY",
            M2Country::India => "INR",
            M2Country::UK => "GBP",
        }
    }
}

/// Map a provider's coin identifier onto the canonical ticker: the known
/// identifiers directly, anything else by uppercasing.
pub fn normalize_symbol(coin_id: &str) -> (r: String)
    ensures
        coin_id@ == "bitcoin"@ ==> r@ == "BTC"@,
        coin_id@ == "ethereum"@ ==> r@ == "ETH"@,
        coin_id@ == "sui"@ ==> r@ == "SUI"@,
        coin_id@ == "solana"@ ==> r@ == "SOL"@,
        coin_id@ != "bitcoin"@ && coin_id@ != "ethereum"@ && coin_id@ != "sui"@ && coin_id@
            != "solana"@ ==> r@ == upper_of(coin_id@),
{
    proof {
        reveal_strlit("bitcoin");
        reveal_strlit("ethereum");
        reveal_strlit("sui");
        reveal_strlit("solana");
        assert("bitcoin"@.len() == 7);
        assert("ethereum"@.len() == 8);
        assert("sui"@.len() == 3);
        assert("solana"@.len() == 6);
    }
    if str_eq(coin_id, "bitcoin") {
        "BTC".to_owned()
    } else if str_eq(coin_id, "ethereum") {
        "ETH".to_owned()
    } else if str_eq(coin_id, "sui") {
        "SUI".to_owned()
    } else if str_eq(coin_id, "solana") {
        "SOL".to_owned()
    } else {
        to_uppercase(coin_id)
    }
}

/// Whether some listed name reads `nm`.
pub open spec fn has_name(names: Seq<String>, nm: Seq<char>) -> bool
    decreases names.len(),
{
    if names.len() == 0 {
        false
    } else {
        names[0]@ == nm || has_name(names.skip(1), nm)
    }
}

pub proof fn lemma_has_name_snoc(names: Seq<String>, x: String, nm: Seq<char>)
    ensures
        has_name(names.push(x), nm) == (has_name(names, nm) || x@ == nm),
    decreases names.len(),
{
    if names.len() == 0 {
        assert(names.push(x)[0] == x);
        assert(names.push(x).skip(1) =~= Seq::<String>::empty());
        assert(!has_name(Seq::<String>::empty(), nm));
    } else {
        assert(names.push(x)[0] == names[0]);
        assert(names.push(x).skip(1) =~= names.skip(1).push(x));
        lemma_has_name_snoc(names.skip(1), x, nm);
    }
}

pub proof fn lemma_has_name_at(names: Seq<String>, k: int)
    requires
        0 <= k < names.len(),
    ensures
        has_name(names, names[k]@),
    decreases names.len(),
{
    if k > 0 {
        lemma_has_name_at(names.skip(1), k - 1);
    }
}

} // verus!
