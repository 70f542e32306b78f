//! Configuration values and their defaults.
use vstd::prelude::*;
use vstd::string::StringExecFns;

verus! {

/// Where the server listens.
#[derive(Debug, Clone)]
pub struct ServerConfig {
    pub host: String,
    pub port: u16,
}

/// Bounds of the pre-trade risk checks. The price band is in basis points
/// (hundredths of a percent) of the reference price.
#[derive(Debug, Clone, Copy, PartialEq, Eq, Structural)]
pub struct RiskConfig {
    pub min_order_size: i64,
    pub max_order_size: i64,
    pub price_band_bps: i64,
    pub max_position_per_trader: i64,
    pub max_orders_per_second: u32,
}

pub fn default_host() -> (r: String)
    ensures
        r@ == "0.0.0.0"@,
{
    String::from_str("0.0.0.0")
}

pub fn default_port() -> (r: u16)
    ensures
        r == 8080,
{
    8080
}

pub fn default_min_order_size() -> (r: i64)
    ensures
        r == 1,
{
    1
}

pub fn default_max_order_size() -> (r: i64)
    ensures
        r == 100_000,
{
    100_000
}

/// Ten percent.
pub fn default_price_band_bps() -> (r: i64)
    ensures
        r == 1_000,
{
    1_000
}

pub fn default_max_position_per_trader() -> (r: i64)
    ensures
        r == 1_000_000,
{
    1_000_000
}

pub fn default_max_orders_per_second() -> (r: u32)
    ensures
        r == 100,
{
    100
}

impl Default for ServerConfig {
    fn default() -> (r: Self)
        ensures
            r.host@ == "0.0.0.0"@,
            r.port == 8080,
    {
        ServerConfig { host: default_host(), port: default_port() }
    }
}

impl Default for RiskConfig {
    fn default() -> (r: Self)
        ensures
            r.min_order_size == 1,
            r.max_order_size == 100_000,
            r.price_band_bps == 1_000,
            r.max_position_per_trader == 1_000_000,
            r.max_orders_per_second == 100,
    {
        RiskConfig {
            min_order_size: default_min_order_size(),
            max_order_size: default_max_order_size(),
            price_band_bps: default_price_band_bps(),
            max_position_per_trader: default_max_position_per_trader(),
            max_orders_per_second: default_max_orders_per_second(),
        }
    }
}

/// The whole configuration.
#[derive(Debug, Clone)]
pub struct Config {
    pub server: ServerConfig,
    pub risk: RiskConfig,
}

impl Default for Config {
    fn default() -> (r: Self)
        ensures
            r.server.host@ == "0.0.0.0"@,
            r.server.port == 8080,
            r.risk.min_order_size == 1,
            r.risk.max_order_size == 100_000,
            r.risk.price_band_bps == 1_000,
            r.risk.max_position_per_trader == 1_000_000,
            r.risk.max_orders_per_second == 100,
    {
        Config { server: ServerConfig::default(), risk: RiskConfig::default() }
    }
}

} // verus!
