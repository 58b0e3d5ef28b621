use vstd::prelude::*;
use vstd::string::*;

use std::time::Duration;

verus! {

/// Alpha Vantage access: the API's address and the key.
pub struct AlphaVantageConfig {
    pub url: String,
    pub api_key: String,
}

impl AlphaVantageConfig {
    pub fn default_url() -> (result: String)
        ensures
            result@ == "https://www.alphavantage.co"@,
    {
        String::from_str("https://www.alphavantage.co")
    }
}

/// FCS API access: the API's address and the access key.
pub struct FcsApiConfig {
    pub url: String,
    pub access_key: String,
}

impl FcsApiConfig {
    pub fn default_url() -> (result: String)
        ensures
            result@ == "https://fcsapi.com"@,
    {
        String::from_str("https://fcsapi.com")
    }
}

/// Finnhub access: the API's address and the token.
pub struct FinnhubConfig {
    pub url: String,
    pub token: String,
}

impl FinnhubConfig {
    pub fn default_url() -> (result: String)
        ensures
            result@ == "https://finnhub.io"@,
    {
        String::from_str("https://finnhub.io")
    }
}

/// Twelve Data access: the API's address and the token.
pub struct TwelveDataConfig {
    pub url: String,
    pub token: String,
}

impl TwelveDataConfig {
    pub fn default_url() -> (result: String)
        ensures
            result@ == "https://api.twelvedata.com"@,
    {
        String::from_str("https://api.twelvedata.com")
    }
}

/// A custom quotes provider: its address.
pub struct CustomProviderConfig {
    pub url: String,
}

/// T-Bank Invest API access: the token.
pub struct TbankApiConfig {
    pub token: String,
}

/// The exchanges whose instruments T-Bank Invest API gives; `Unknown` collects instruments of
/// the exchanges that aren't supported yet, as a fallback.
#[derive(Clone, Copy, Debug, PartialEq, Eq, Structural)]
pub enum TbankExchange {
    Currency,
    Moex,
    Spb,
    Unknown,
}

/// Tinkoff Invest API access: the token.
pub struct TinkoffApiConfig {
    pub token: String,
}

/// The exchanges whose instruments are requested from Tinkoff Invest API.
#[derive(Clone, Copy, Debug, PartialEq, Eq, Structural)]
pub enum TinkoffExchange {
    Spb,
    Otc,
}

/// What requests to T-Bank Invest API carry: the token and a timeout.
pub struct ClientInterceptor {
    pub token: String,
    pub request_timeout: Duration,
}

impl ClientInterceptor {
    pub fn new(token: &str, request_timeout: Duration) -> (result: ClientInterceptor)
        ensures
            result.token@ == token@,
            result.request_timeout == request_timeout,
    {
        ClientInterceptor { token: token.to_owned(), request_timeout }
    }
}

} // verus!
