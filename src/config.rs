use crate::address::{Ipv4Address, Ipv6Address};
use rand::Rng;
use vstd::prelude::*;

verus! {

/// Why a configuration cannot be used.
#[derive(Debug, Clone, PartialEq, Eq)]
pub enum ConfigError {
    /// An HTTP method name that is not a method token.
    InvalidMethod,
    /// A round start that is not a `MM/DD/YYYY HH:MM` UTC date.
    InvalidDate,
    /// An inject names a machine that the round does not have.
    UnknownMachine { vm_id: String },
}

/// The default per-team probe timeout, in seconds.
pub fn give_me_five() -> (r: u8)
    ensures
        r == 5,
{
    5
}

#[derive(Debug, Clone)]
pub struct Team {
    pub timeout: u8,
    pub subnet: u8,
    pub password: String,
}

#[derive(Debug, Clone, Copy)]
pub struct Web {
    pub port: u16,
}

#[derive(Debug)]
pub struct InjectMeta {
    pub title: String,
    pub description: String,
}

impl Clone for InjectMeta {
    fn clone(&self) -> (r: Self)
        ensures
            r == *self,
    {
        InjectMeta { title: self.title.clone(), description: self.description.clone() }
    }
}

/// The expected answer of a DNS probe.
#[derive(Debug, Clone, Copy, PartialEq, Eq, Structural)]
pub enum DnsRecord {
    A { addr: Ipv4Address },
    AAAA { addr: Ipv6Address },
}

/// A validated HTTP method.
#[derive(Debug, Clone)]
pub struct HttpMethod(pub reqwest::Method);

#[verifier::external_type_specification]
#[verifier::external_body]
pub struct ExMethod(reqwest::Method);

/// Relies on the derived `Clone` of http's `Method`: the copy equals the value it was made from.
pub assume_specification[ <reqwest::Method as Clone>::clone ](m: &reqwest::Method) -> (r:
    reqwest::Method)
    ensures
        r == *m,
;

/// A character that an HTTP method token may hold.
pub open spec fn is_method_char(c: char) -> bool {
    ('0' <= c <= '9') || ('A' <= c <= 'Z') || ('a' <= c <= 'z') || c == '!' || c == '*' || c
        == '+' || c == '-' || c == '.' || c == '^' || c == '_' || c == '`' || c == '|' || c
        == '~'
}

/// A non-empty run of method characters.
pub open spec fn is_method_token(s: Seq<char>) -> bool {
    s.len() > 0 && forall|i: int| 0 <= i < s.len() ==> is_method_char(#[trigger] s[i])
}

/// Relies on http's `Method::from_str` (re-exported by reqwest): it accepts
/// exactly the non-empty strings whose every byte is a method character.
#[verifier::external_body]
fn method_from_str(s: &str) -> (r: Option<reqwest::Method>)
    ensures
        r.is_some() <==> is_method_token(s@),
{
    match <reqwest::Method as std::str::FromStr>::from_str(s) {
        Ok(m) => Some(m),
        Err(_) => None,
    }
}

impl HttpMethod {
    /// Reads a method name such as `GET` or `POST`.
    pub fn from_name(s: &str) -> (r: Result<HttpMethod, ConfigError>)
        ensures
            r.is_ok() <==> is_method_token(s@),
            r.is_err() ==> r == Err::<HttpMethod, ConfigError>(ConfigError::InvalidMethod),
    {
        match method_from_str(s) {
            Some(m) => Ok(HttpMethod(m)),
            None => Err(ConfigError::InvalidMethod),
        }
    }
}

#[derive(Debug, Clone)]
pub enum ServiceConfigTy {
    Tcp { port: u16 },
    Udp { port: u16, bind_port: u16 },
    Ssh { port: Option<u16> },
    Http { port: Option<u16>, method: HttpMethod, content_hash: Option<String> },
    Dns { resolver: Ipv4Address, record: DnsRecord },
}

#[derive(Debug, Clone)]
pub struct ServiceConfig {
    pub id: String,
    pub ty: ServiceConfigTy,
}

#[derive(Debug, Clone)]
pub struct Vm {
    pub host: u8,
    pub services: Vec<ServiceConfig>,
}

#[derive(Debug, Clone)]
pub struct Inject {
    pub offset: usize,
    pub duration: usize,
    /// Machine id and the services that the inject adds to it.
    pub new_services: Vec<(String, Vec<ServiceConfig>)>,
    pub meta: InjectMeta,
}

#[derive(Debug, Clone, Copy)]
pub struct CheckSettings {
    pub interval: u16,
    pub jitter: i16,
    pub timeout: u8,
}

/// Seconds between two ticks when the drawn jitter is `offset`: never under one.
pub open spec fn tick_delay(interval: int, offset: int) -> int {
    if interval + offset < 1 {
        1
    } else {
        interval + offset
    }
}

/// Relies on rand's `Rng::gen_range` over `lo..=hi` with the thread-local
/// generator: the value lies in the range (it panics only on an empty range).
#[verifier::external_body]
fn draw_between(lo: i32, hi: i32) -> (r: i32)
    requires
        lo <= hi,
    ensures
        lo <= r <= hi,
{
    rand::thread_rng().gen_range(lo..=hi)
}

impl CheckSettings {
    /// The tick delay in seconds for a given jitter offset.
    pub fn interval_with_offset(&self, offset: i32) -> (r: u64)
        ensures
            r as int == tick_delay(self.interval as int, offset as int),
    {
        let d: i64 = self.interval as i64 + offset as i64;
        if d < 1 {
            1
        } else {
            d as u64
        }
    }

    /// Draws the delay before the next tick: `interval` moved by a uniform
    /// offset in `[-jitter, jitter]`; with no positive jitter nothing is drawn.
    pub fn get_interval(&self) -> (r: u64)
        ensures
            self.jitter <= 0 ==> r as int == tick_delay(self.interval as int, 0),
            self.jitter > 0 ==> exists|o: int|
                -self.jitter <= o <= self.jitter && r as int == tick_delay(
                    self.interval as int,
                    o,
                ),
    {
        if self.jitter <= 0 {
            self.interval_with_offset(0)
        } else {
            let j: i32 = self.jitter as i32;
            let o = draw_between(-j, j);
            self.interval_with_offset(o)
        }
    }
}

/// A drawn tick delay lies within `jitter` seconds of the interval,
/// wherever the interval less the jitter is at least one second.
pub proof fn lemma_tick_delay_within_jitter(interval: int, jitter: int, offset: int)
    requires
        -jitter <= offset <= jitter,
        interval - jitter >= 1,
    ensures
        interval - jitter <= tick_delay(interval, offset) <= interval + jitter,
{
}

/// The round start written as `fmt` describes, in seconds since the Unix
/// epoch (UTC), or `None` where `s` does not match.
pub uninterp spec fn parsed_utc_of(s: Seq<char>, fmt: Seq<char>) -> Option<i64>;

/// Relies on chrono's `NaiveDateTime::parse_from_str` read as UTC and
/// `DateTime::timestamp`: a function of the text and the format alone.
#[verifier::external_body]
fn parse_utc(s: &str, fmt: &str) -> (r: Option<i64>)
    ensures
        r == parsed_utc_of(s@, fmt@),
{
    match chrono::NaiveDateTime::parse_from_str(s, fmt) {
        Ok(d) => Some(d.and_utc().timestamp()),
        Err(_) => None,
    }
}

/// The format of the round start: month, day, year, hour and minute, in UTC.
pub const START_FORMAT: &'static str = "%m/%d/%Y %H:%M";

/// Reads the round start, as seconds since the Unix epoch.
pub fn parse_start(s: &str) -> (r: Result<i64, ConfigError>)
    ensures
        r == match parsed_utc_of(s@, START_FORMAT@) {
            Some(t) => Ok::<i64, ConfigError>(t),
            None => Err::<i64, ConfigError>(ConfigError::InvalidDate),
        },
{
    match parse_utc(s, START_FORMAT) {
        Some(t) => Ok(t),
        None => Err(ConfigError::InvalidDate),
    }
}

/// The parsed round description.
#[derive(Debug, Clone)]
pub struct Cfg {
    pub round: String,
    /// Round start, in seconds since the Unix epoch (UTC).
    pub start: i64,
    /// Machine id and machine, one entry per id.
    pub boxes: Vec<(String, Vm)>,
    pub checks: CheckSettings,
    /// Team id and team, one entry per id.
    pub teams: Vec<(String, Team)>,
    pub injects: Vec<Inject>,
    pub patch_server: String,
    pub database: String,
    pub web: Web,
}

} // verus!
