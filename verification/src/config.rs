//! Server settings: defaults, and the rules by which raw setting values are read.

use vstd::prelude::*;
use vstd::string::*;
use crate::text::{chars_of, str_eq, string_of, trim, trimmed};

verus! {

/// The server's settings.
#[derive(Clone, Debug, PartialEq, Eq)]
pub struct ServerConfig {
    pub host: String,
    pub port: u16,
    pub cors_origins: Vec<String>,
    pub trust_proxy: bool,
    pub room_idle_ttl_ms: u64,
    pub reconnect_grace_ms: u64,
}

impl Default for ServerConfig {
    fn default() -> (c: Self)
        ensures
            c.host@ == "0.0.0.0"@,
            c.port == 3004,
            c.cors_origins@.len() == 1,
            c.cors_origins@[0]@ == "http://localhost:5174"@,
            !c.trust_proxy,
            c.room_idle_ttl_ms == 600_000,
            c.reconnect_grace_ms == 90_000,
    {
        let mut cors_origins: Vec<String> = Vec::new();
        cors_origins.push(String::from_str("http://localhost:5174"));
        ServerConfig {
            host: String::from_str("0.0.0.0"),
            port: 3004,
            cors_origins,
            trust_proxy: false,
            room_idle_ttl_ms: 600_000,
            reconnect_grace_ms: 90_000,
        }
    }
}

/// A setting whose raw value cannot be used.
#[derive(Clone, Debug, PartialEq, Eq)]
pub struct ConfigError {
    pub variable: &'static str,
    pub reason: String,
}

impl View for ConfigError {
    type V = (Seq<char>, Seq<char>);

    /// The setting's name and the reason.
    open spec fn view(&self) -> (Seq<char>, Seq<char>) {
        (self.variable@, self.reason@)
    }
}

impl ConfigError {
    /// The error for `variable`, with the reason.
    pub(crate) fn invalid(variable: &'static str, reason: &str) -> (e: ConfigError)
        ensures
            e@ == (variable@, reason@),
    {
        ConfigError { variable, reason: reason.to_owned() }
    }

    /// The name of the setting.
    pub fn variable(&self) -> (v: &'static str)
        ensures
            v@ == self@.0,
    {
        self.variable
    }

    /// Why its value cannot be used.
    pub fn reason(&self) -> (r: &str)
        ensures
            r@ == self@.1,
    {
        self.reason.as_str()
    }

    /// The error as one line of text.
    pub fn message(&self) -> (m: String)
        ensures
            m@ == "invalid environment variable "@ + self@.0 + ": "@ + self@.1,
    {
        let mut m = String::from_str("invalid environment variable ");
        m.append(self.variable);
        m.append(": ");
        m.append(self.reason.as_str());
        m
    }
}

/// Reads a yes/no setting: `true` or `1` for yes, `false` or `0` for no, the default
/// when the setting is absent.
pub fn parse_bool(variable: &'static str, raw: Option<String>, default: bool) -> (r: Result<bool, ConfigError>)
    ensures
        match raw {
            None => r == Ok::<bool, ConfigError>(default),
            Some(s) => if s@ == "true"@ || s@ == "1"@ {
                r == Ok::<bool, ConfigError>(true)
            } else if s@ == "false"@ || s@ == "0"@ {
                r == Ok::<bool, ConfigError>(false)
            } else {
                r matches Err(e) && e@ == (variable@, "must be true, false, 1, or 0"@)
            },
        },
{
    match raw {
        None => Ok(default),
        Some(s) => {
            if str_eq(s.as_str(), "true") || str_eq(s.as_str(), "1") {
                Ok(true)
            } else if str_eq(s.as_str(), "false") || str_eq(s.as_str(), "0") {
                Ok(false)
            } else {
                Err(ConfigError::invalid(variable, "must be true, false, 1, or 0"))
            }
        },
    }
}

/// The value of a string of decimal digits.
pub open spec fn digits_value(s: Seq<char>) -> int
    decreases s.len(),
{
    if s.len() == 0 {
        0
    } else {
        10 * digits_value(s.drop_last()) + (s.last() as u32 - '0' as u32)
    }
}

/// The number that the text writes in decimal, with an optional leading `+`, as the
/// `FromStr` impls of the unsigned integers read it; `None` for any other text.
pub open spec fn decimal_value(s: Seq<char>) -> Option<int> {
    let digits = if s.len() > 0 && s[0] == '+' {
        s.drop_first()
    } else {
        s
    };
    if digits.len() > 0 && forall|i: int| 0 <= i < digits.len() ==> '0' <= #[trigger] digits[i] <= '9' {
        Some(digits_value(digits))
    } else {
        None
    }
}

/// The decimal value of the text, when it fits in a `u64`.
pub open spec fn decimal_u64(s: Seq<char>) -> Option<u64> {
    match decimal_value(s) {
        Some(n) => if n <= u64::MAX {
            Some(n as u64)
        } else {
            None
        },
        None => None,
    }
}

/// `str::parse::<u64>`: the decimal value, when it fits in a `u64`.
#[verifier::external_body]
fn parse_u64(s: &str) -> (r: Option<u64>)
    ensures
        r == decimal_u64(s@),
{
    s.parse::<u64>().ok()
}

/// The value that a raw positive setting stands for, under the default and the
/// largest value of its type: the default when absent, else the decimal value when it
/// is neither zero nor above the largest value.
pub open spec fn positive_setting(raw: Option<Seq<char>>, default: u64, maximum: u64) -> Option<u64> {
    match raw {
        None => Some(default),
        Some(s) => match decimal_u64(s) {
            Some(n) => if n != 0 && n <= maximum {
                Some(n)
            } else {
                None
            },
            None => None,
        },
    }
}

/// Reads a positive integer setting whose type holds values up to `maximum`; the
/// default when the setting is absent.
pub fn parse_positive(variable: &'static str, raw: Option<String>, default: u64, maximum: u64, reason: &'static str) -> (r: Result<u64, ConfigError>)
    ensures
        match positive_setting(
            match raw {
                Some(s) => Some(s@),
                None => None,
            },
            default,
            maximum,
        ) {
            Some(n) => r == Ok::<u64, ConfigError>(n),
            None => r matches Err(e) && e@ == (variable@, reason@),
        },
{
    let raw = match raw {
        Some(s) => s,
        None => {
            return Ok(default);
        },
    };
    let parsed = parse_u64(raw.as_str());
    match parsed {
        Some(n) => if n != 0 && n <= maximum {
            Ok(n)
        } else {
            Err(ConfigError::invalid(variable, reason))
        },
        None => Err(ConfigError::invalid(variable, reason)),
    }
}

/// The non-empty trimmed text collected so far, as a list of at most one origin.
pub open spec fn emitted(current: Seq<char>) -> Seq<Seq<char>> {
    if trimmed(current).len() > 0 {
        seq![trimmed(current)]
    } else {
        Seq::empty()
    }
}

/// The origins of a comma-separated list, after the part `current` already read: each
/// comma-separated part trimmed, empty parts left out.
pub open spec fn origins_from(s: Seq<char>, current: Seq<char>) -> Seq<Seq<char>>
    decreases s.len(),
{
    if s.len() == 0 {
        emitted(current)
    } else if s[0] == ',' {
        emitted(current) + origins_from(s.drop_first(), Seq::empty())
    } else {
        origins_from(s.drop_first(), current.push(s[0]))
    }
}

/// The characters of each origin.
pub open spec fn origin_views(v: Seq<String>) -> Seq<Seq<char>> {
    v.map_values(|s: String| s@)
}

/// Splits a comma-separated list of origins, trimming each and leaving out empty ones.
pub fn split_origins(list: &str) -> (origins: Vec<String>)
    ensures
        origin_views(origins@) == origins_from(list@, Seq::empty()),
{
    let chars = chars_of(list);
    let mut origins: Vec<String> = Vec::new();
    let mut current: Vec<char> = Vec::new();
    let mut i: usize = 0;
    proof {
        assert(chars@.subrange(0, chars@.len() as int) =~= list@);
        assert(origin_views(origins@) =~= Seq::<Seq<char>>::empty());
        assert(current@ =~= Seq::<char>::empty());
    }
    while i < chars.len()
        invariant
            i <= chars@.len(),
            chars@ == list@,
            origin_views(origins@) + origins_from(chars@.subrange(i as int, chars@.len() as int), current@)
                == origins_from(list@, Seq::empty()),
        decreases chars@.len() - i,
    {
        let ghost rest = chars@.subrange(i as int, chars@.len() as int);
        proof {
            assert(rest.drop_first() =~= chars@.subrange(i + 1, chars@.len() as int));
        }
        if chars[i] == ',' {
            let ghost before = origin_views(origins@);
            let part = string_of(current.as_slice());
            let trimmed_part = trim(part.as_str());
            if trimmed_part.unicode_len() > 0 {
                origins.push(trimmed_part.to_owned());
            }
            proof {
                assert(origin_views(origins@) =~= before + emitted(current@));
            }
            current = Vec::new();
        } else {
            current.push(chars[i]);
        }
        i = i + 1;
    }
    let ghost before = origin_views(origins@);
    let part = string_of(current.as_slice());
    let trimmed_part = trim(part.as_str());
    if trimmed_part.unicode_len() > 0 {
        origins.push(trimmed_part.to_owned());
    }
    proof {
        assert(origin_views(origins@) =~= before + emitted(current@));
        assert(chars@.subrange(i as int, chars@.len() as int) =~= Seq::<char>::empty());
    }
    origins
}

/// The value that a raw yes/no setting stands for, or `None` when it stands for none.
pub open spec fn bool_setting(raw: Option<Seq<char>>, default: bool) -> Option<bool> {
    match raw {
        None => Some(default),
        Some(s) => if s == "true"@ || s == "1"@ {
            Some(true)
        } else if s == "false"@ || s == "0"@ {
            Some(false)
        } else {
            None
        },
    }
}

/// The characters of an optional text.
pub open spec fn opt_view(raw: Option<String>) -> Option<Seq<char>> {
    match raw {
        Some(s) => Some(s@),
        None => None,
    }
}

impl ServerConfig {
    /// Reads the settings from their raw values, each absent when not set: `HOST`,
    /// `PORT` (1 to 65535), `CORS_ORIGIN` (a comma-separated list), `TRUST_PROXY`,
    /// `ROOM_IDLE_TTL_MS` and `RECONNECT_GRACE_MS` (positive); the first setting that
    /// cannot be used, in that order, is the error.
    pub fn from_settings(
        host: Option<String>,
        port: Option<String>,
        cors_origin: Option<String>,
        trust_proxy: Option<String>,
        room_idle_ttl_ms: Option<String>,
        reconnect_grace_ms: Option<String>,
    ) -> (r: Result<ServerConfig, ConfigError>)
        ensures
            positive_setting(opt_view(port), 3004, 65535) is None ==> (r matches Err(e) && e@ == (
                "PORT"@,
                "must be an integer from 1 to 65535"@,
            )),
            positive_setting(opt_view(port), 3004, 65535) is Some && bool_setting(opt_view(trust_proxy), false) is None
                ==> (r matches Err(e) && e@ == ("TRUST_PROXY"@, "must be true, false, 1, or 0"@)),
            positive_setting(opt_view(port), 3004, 65535) is Some && bool_setting(opt_view(trust_proxy), false) is Some
                && positive_setting(opt_view(room_idle_ttl_ms), 600_000, u64::MAX as u64) is None ==> (r matches Err(e)
                && e@ == ("ROOM_IDLE_TTL_MS"@, "must be a positive integer"@)),
            positive_setting(opt_view(port), 3004, 65535) is Some && bool_setting(opt_view(trust_proxy), false) is Some
                && positive_setting(opt_view(room_idle_ttl_ms), 600_000, u64::MAX as u64) is Some && positive_setting(
                opt_view(reconnect_grace_ms),
                90_000,
                u64::MAX as u64,
            ) is None ==> (r matches Err(e) && e@ == ("RECONNECT_GRACE_MS"@, "must be a positive integer"@)),
            r matches Ok(c) ==> {
                &&& c.host@ == match host {
                    Some(h) => h@,
                    None => "0.0.0.0"@,
                }
                &&& Some(c.port as u64) == positive_setting(opt_view(port), 3004, 65535)
                &&& origin_views(c.cors_origins@) == origins_from(
                    match cors_origin {
                        Some(o) => o@,
                        None => "http://localhost:5174"@,
                    },
                    Seq::empty(),
                )
                &&& Some(c.trust_proxy) == bool_setting(opt_view(trust_proxy), false)
                &&& Some(c.room_idle_ttl_ms) == positive_setting(opt_view(room_idle_ttl_ms), 600_000, u64::MAX as u64)
                &&& Some(c.reconnect_grace_ms) == positive_setting(opt_view(reconnect_grace_ms), 90_000, u64::MAX as u64)
            },
            (r is Ok) == (positive_setting(opt_view(port), 3004, 65535) is Some && bool_setting(opt_view(trust_proxy), false) is Some
                && positive_setting(opt_view(room_idle_ttl_ms), 600_000, u64::MAX as u64) is Some && positive_setting(
                opt_view(reconnect_grace_ms),
                90_000,
                u64::MAX as u64,
            ) is Some),
    {
        let host = match host {
            Some(h) => h,
            None => String::from_str("0.0.0.0"),
        };
        let port = match parse_positive("PORT", port, 3004, 65535, "must be an integer from 1 to 65535") {
            Ok(p) => p as u16,
            Err(e) => {
                return Err(e);
            },
        };
        let cors = match cors_origin {
            Some(c) => c,
            None => String::from_str("http://localhost:5174"),
        };
        let trust_proxy = match parse_bool("TRUST_PROXY", trust_proxy, false) {
            Ok(b) => b,
            Err(e) => {
                return Err(e);
            },
        };
        let room_idle_ttl_ms = match parse_positive(
            "ROOM_IDLE_TTL_MS",
            room_idle_ttl_ms,
            600_000,
            u64::MAX,
            "must be a positive integer",
        ) {
            Ok(n) => n,
            Err(e) => {
                return Err(e);
            },
        };
        let reconnect_grace_ms = match parse_positive(
            "RECONNECT_GRACE_MS",
            reconnect_grace_ms,
            90_000,
            u64::MAX,
            "must be a positive integer",
        ) {
            Ok(n) => n,
            Err(e) => {
                return Err(e);
            },
        };
        Ok(
            ServerConfig {
                host,
                port,
                cors_origins: split_origins(cors.as_str()),
                trust_proxy,
                room_idle_ttl_ms,
                reconnect_grace_ms,
            },
        )
    }
}

} // verus!

verus! {

/// The application cannot be assembled from its settings.
#[derive(Debug)]
pub enum AppBuildError {
    /// A CORS origin is not a valid header value.
    InvalidCorsOrigin(String),
}

impl AppBuildError {
    /// The error as one line of text.
    pub fn message(&self) -> (m: String)
        ensures
            match self {
                AppBuildError::InvalidCorsOrigin(origin) => m@ == "invalid CORS origin header value: "@ + origin@,
            },
    {
        match self {
            AppBuildError::InvalidCorsOrigin(origin) => {
                let mut m = String::from_str("invalid CORS origin header value: ");
                m.append(origin.as_str());
                m
            },
        }
    }
}

/// A character that a header value may hold: tab, or any character but the other
/// control characters and DEL.
pub open spec fn header_value_char(c: char) -> bool {
    ((c as u32) >= 32 && (c as u32) != 127) || c == '\t'
}

/// Every character of the text may stand in a header value.
pub open spec fn valid_header_value(text: Seq<char>) -> bool {
    forall|i: int| 0 <= i < text.len() ==> header_value_char(#[trigger] text[i])
}

/// `HeaderValue::from_str` of the `http` crate (as `axum::http`) accepts the text: it
/// refuses a text with a byte below 32 other than tab, or the byte 127; every byte of
/// a character above ASCII is accepted.
#[verifier::external_body]
fn is_header_value(text: &str) -> (b: bool)
    ensures
        b == valid_header_value(text@),
{
    axum::http::HeaderValue::from_str(text).is_ok()
}

/// Checks that every CORS origin can be sent as a header value; the first that cannot is
/// the error.
pub fn check_cors_origins(origins: &[String]) -> (r: Result<(), AppBuildError>)
    ensures
        r is Ok <==> forall|k: int| 0 <= k < origins@.len() ==> valid_header_value((#[trigger] origins@[k])@),
        r matches Err(AppBuildError::InvalidCorsOrigin(o)) ==> exists|k: int|
            0 <= k < origins@.len() && o == #[trigger] origins@[k] && !valid_header_value(origins@[k]@) && forall|j: int|
                0 <= j < k ==> valid_header_value((#[trigger] origins@[j])@),
{
    let mut k: usize = 0;
    while k < origins.len()
        invariant
            k <= origins@.len(),
            forall|j: int| 0 <= j < k ==> valid_header_value((#[trigger] origins@[j])@),
        decreases origins@.len() - k,
    {
        if !is_header_value(origins[k].as_str()) {
            return Err(AppBuildError::InvalidCorsOrigin(origins[k].clone()));
        }
        k = k + 1;
    }
    Ok(())
}

} // verus!
