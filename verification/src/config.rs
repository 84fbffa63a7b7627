//! Where the proxy listens, where it keeps its data, and the defaults it starts with.

use vstd::prelude::*;

use crate::decimal::{
    decimal, decimal_text, digits_of, parse_positive_or, positive_or, read_decimal,
};
use crate::text::opt_text;

verus! {

/// The port that the proxy listens on.
pub const FIXED_PORT: u16 = 57_999;

/// What the proxy is started with.
#[derive(Clone, Debug)]
pub struct AppConfig {
    pub bind_host: String,
    pub database_url: String,
    pub data_dir: String,
    pub default_response_header_timeout_ms: i64,
    pub default_first_token_timeout_ms: i64,
    pub default_max_attempts: i64,
}

/// The values of the environment variables that the proxy reads, where they are set.
#[derive(Clone, Debug, Default)]
pub struct EnvValues {
    pub bind: Option<String>,
    pub data_dir: Option<String>,
    pub database_url: Option<String>,
    pub response_header_timeout_ms: Option<String>,
    pub first_token_timeout_ms: Option<String>,
    pub max_attempts: Option<String>,
}

/// A configuration as a mathematical value.
pub struct ConfigModel {
    pub bind_host: Seq<char>,
    pub database_url: Seq<char>,
    pub data_dir: Seq<char>,
    pub response_header_timeout_ms: int,
    pub first_token_timeout_ms: int,
    pub max_attempts: int,
}

impl View for AppConfig {
    type V = ConfigModel;

    open spec fn view(&self) -> ConfigModel {
        ConfigModel {
            bind_host: self.bind_host@,
            database_url: self.database_url@,
            data_dir: self.data_dir@,
            response_header_timeout_ms: self.default_response_header_timeout_ms as int,
            first_token_timeout_ms: self.default_first_token_timeout_ms as int,
            max_attempts: self.default_max_attempts as int,
        }
    }
}

/// `value`, or `default` where there is none.
pub open spec fn value_or(value: Option<Seq<char>>, default: Seq<char>) -> Seq<char> {
    match value {
        Some(value) => value,
        None => default,
    }
}

/// The configuration that the environment asks for.
pub open spec fn config_of(values: EnvValues) -> ConfigModel {
    let data_dir = value_or(opt_text(values.data_dir), "data"@);
    ConfigModel {
        bind_host: value_or(opt_text(values.bind), "127.0.0.1"@),
        database_url: value_or(
            opt_text(values.database_url),
            "sqlite://"@ + data_dir + "/oai-proxy.sqlite3?mode=rwc"@,
        ),
        data_dir,
        response_header_timeout_ms: positive_or(
            opt_text(values.response_header_timeout_ms),
            5_000,
        ),
        first_token_timeout_ms: positive_or(opt_text(values.first_token_timeout_ms), 10_000),
        max_attempts: positive_or(opt_text(values.max_attempts), 3),
    }
}

/// Whatever the environment holds, the timeouts and the attempts are positive.
pub proof fn lemma_config_is_positive(values: EnvValues)
    ensures
        config_of(values).response_header_timeout_ms > 0,
        config_of(values).first_token_timeout_ms > 0,
        config_of(values).max_attempts > 0,
{
}

/// What the environment sets is taken over as it is.
pub proof fn lemma_environment_is_taken_over(values: EnvValues, text: Seq<char>, number: int)
    requires
        read_decimal(text) == Some(number),
        number >= 1,
    ensures
        opt_text(values.bind) == Some(text) ==> config_of(values).bind_host == text,
        opt_text(values.data_dir) == Some(text) ==> config_of(values).data_dir == text,
        opt_text(values.database_url) == Some(text) ==> config_of(values).database_url == text,
        opt_text(values.response_header_timeout_ms) == Some(text) ==> config_of(
            values,
        ).response_header_timeout_ms == number,
        opt_text(values.first_token_timeout_ms) == Some(text) ==> config_of(
            values,
        ).first_token_timeout_ms == number,
        opt_text(values.max_attempts) == Some(text) ==> config_of(values).max_attempts == number,
{
}

/// What the environment leaves open, or sets to no positive number: the proxy
/// listens on this machine, keeps its database in its data directory, waits five
/// seconds for an answer and ten for a token, and makes three attempts.
pub proof fn lemma_defaults_of_the_configuration(values: EnvValues)
    ensures
        values.bind is None ==> config_of(values).bind_host == "127.0.0.1"@,
        values.data_dir is None ==> config_of(values).data_dir == "data"@,
        values.database_url is None ==> config_of(values).database_url == "sqlite://"@ + config_of(
            values,
        ).data_dir + "/oai-proxy.sqlite3?mode=rwc"@,
        !(values.response_header_timeout_ms matches Some(text) && (read_decimal(
            text@,
        ) matches Some(n) && n >= 1)) ==> config_of(values).response_header_timeout_ms == 5000,
        !(values.first_token_timeout_ms matches Some(text) && (read_decimal(text@) matches Some(n)
            && n >= 1)) ==> config_of(values).first_token_timeout_ms == 10000,
        !(values.max_attempts matches Some(text) && (read_decimal(text@) matches Some(n) && n >= 1))
            ==> config_of(values).max_attempts == 3,
{
}

/// Whatever may be set as a host, the port is 57999.
pub proof fn lemma_the_port_is_fixed()
    ensures
        decimal(FIXED_PORT as int) == "57999"@,
{
    reveal_strlit("57999");
    reveal_with_fuel(digits_of, 6);
    assert(decimal(57999) =~= "57999"@);
}

fn text_or(value: &Option<String>, default: &str) -> (text: String)
    ensures
        text@ == value_or(opt_text(*value), default@),
{
    match value {
        Some(value) => value.clone(),
        None => default.to_string(),
    }
}

fn env_i64(value: &Option<String>, default: i64) -> (number: i64)
    ensures
        number == positive_or(opt_text(*value), default as int),
{
    match value {
        Some(value) => parse_positive_or(Some(value.as_str()), default),
        None => parse_positive_or(None, default),
    }
}

impl AppConfig {
    /// The configuration that the environment asks for.
    pub fn from_env(values: &EnvValues) -> (config: Self)
        ensures
            config@ == config_of(*values),
    {
        let data_dir = text_or(&values.data_dir, "data");
        let mut default_url = "sqlite://".to_string();
        default_url.append(data_dir.as_str());
        default_url.append("/oai-proxy.sqlite3?mode=rwc");
        AppConfig {
            bind_host: text_or(&values.bind, "127.0.0.1"),
            database_url: text_or(&values.database_url, default_url.as_str()),
            data_dir,
            default_response_header_timeout_ms: env_i64(&values.response_header_timeout_ms, 5_000),
            default_first_token_timeout_ms: env_i64(&values.first_token_timeout_ms, 10_000),
            default_max_attempts: env_i64(&values.max_attempts, 3),
        }
    }

    /// The address to listen on, as text: the host and the fixed port.
    pub fn listen_addr(&self) -> (address: String)
        ensures
            address@ == self@.bind_host + ":"@ + decimal(FIXED_PORT as int),
            address@ == self.bind_host@ + ":"@ + "57999"@,
    {
        proof {
            lemma_the_port_is_fixed();
        }
        let port = decimal_text(FIXED_PORT as i64);
        let mut address = self.bind_host.clone();
        address.append(":");
        address.append(port.as_str());
        address
    }
}

}
