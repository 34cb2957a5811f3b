//! What the three services share: their configuration and the lines they
//! report it and their mock persistence with.

use crate::decimal::{parse_u16, parse_u64, unsigned_of};
use crate::text::{all_space, is_blank};
use vstd::prelude::*;
use vstd::string::StringExecFns;

verus! {

/// The topic where none is configured.
pub const DEFAULT_TOPIC: &'static str = "ccdemo-topic";

/// The input file where none is configured.
pub const DEFAULT_INPUT_FILE: &'static str = "rick.txt";

/// The port of the web service where none is configured.
pub const DEFAULT_HTTP_PORT: u16 = 8080;

/// The configuration of a service, fixed once at its start.
#[derive(Debug, Clone)]
pub struct AppConfig {
    pub project_id: Option<String>,
    pub topic_id: String,
    pub subscription_id: Option<String>,
    pub input_file: String,
    pub database_url: Option<String>,
}

/// `AppConfig` as mathematical values.
pub ghost struct ConfigView {
    pub project_id: Option<Seq<char>>,
    pub topic_id: Seq<char>,
    pub subscription_id: Option<Seq<char>>,
    pub input_file: Seq<char>,
    pub database_url: Option<Seq<char>>,
}

impl View for AppConfig {
    type V = ConfigView;

    open spec fn view(&self) -> ConfigView {
        ConfigView {
            project_id: self.project_id.deep_view(),
            topic_id: self.topic_id@,
            subscription_id: self.subscription_id.deep_view(),
            input_file: self.input_file@,
            database_url: self.database_url.deep_view(),
        }
    }
}

/// Why a configuration was refused.
#[derive(Debug, Clone, Copy, PartialEq, Eq, Structural)]
pub enum ConfigError {
    /// The topic is empty or white space only.
    EmptyTopic,
}

impl ConfigError {
    /// The error in words.
    pub fn message(&self) -> (text: String)
        ensures
            text@ == "TOPIC_ID must not be empty"@,
    {
        "TOPIC_ID must not be empty".to_owned()
    }
}

/// `value` where it is present, else `default`.
pub open spec fn or_default(value: Option<Seq<char>>, default: Seq<char>) -> Seq<char> {
    match value {
        Some(v) => v,
        None => default,
    }
}

/// `value` where it is present, else a copy of `default`.
fn text_or(value: Option<String>, default: &str) -> (r: String)
    ensures
        r@ == or_default(value.deep_view(), default@),
{
    match value {
        Some(v) => v,
        None => default.to_owned(),
    }
}

impl AppConfig {
    /// The configuration that the given settings make, each of them present
    /// or not. A topic and an input file that are absent take their
    /// defaults. A topic that is empty or white space only is refused; every
    /// other combination is accepted as it is.
    pub fn from_values(
        project_id: Option<String>,
        topic_id: Option<String>,
        subscription_id: Option<String>,
        input_file: Option<String>,
        database_url: Option<String>,
    ) -> (r: Result<AppConfig, ConfigError>)
        ensures
            all_space(or_default(topic_id.deep_view(), DEFAULT_TOPIC@)) ==> r == Err::<
                AppConfig,
                ConfigError,
            >(ConfigError::EmptyTopic),
            !all_space(or_default(topic_id.deep_view(), DEFAULT_TOPIC@)) ==> r is Ok && r->Ok_0@
                == (ConfigView {
                project_id: project_id.deep_view(),
                topic_id: or_default(topic_id.deep_view(), DEFAULT_TOPIC@),
                subscription_id: subscription_id.deep_view(),
                input_file: or_default(input_file.deep_view(), DEFAULT_INPUT_FILE@),
                database_url: database_url.deep_view(),
            }),
    {
        let topic_id = text_or(topic_id, DEFAULT_TOPIC);
        let input_file = text_or(input_file, DEFAULT_INPUT_FILE);
        if is_blank(topic_id.as_str()) {
            return Err(ConfigError::EmptyTopic);
        }
        Ok(AppConfig { project_id, topic_id, subscription_id, input_file, database_url })
    }
}

/// The line that reports a configuration.
pub open spec fn config_line(cfg: ConfigView) -> Seq<char> {
    "Config: project_id="@ + or_default(cfg.project_id, "<unset: uses ADC or default>"@)
        + ", topic_id="@ + cfg.topic_id + ", subscription_id="@ + or_default(
        cfg.subscription_id,
        "<unset>"@,
    ) + ", input_file="@ + cfg.input_file + ", database_url="@ + or_default(
        cfg.database_url,
        "<unset>"@,
    )
}

/// Appends `value` to `out` where it is present, else `default`.
fn append_or(out: &mut String, value: &Option<String>, default: &str)
    ensures
        final(out)@ == old(out)@ + or_default(value.deep_view(), default@),
{
    match value {
        Some(v) => out.append(v.as_str()),
        None => out.append(default),
    }
}

/// The line that reports `cfg`, with a placeholder for each setting that is
/// absent.
pub fn log_effective_config(cfg: &AppConfig) -> (line: String)
    ensures
        line@ == config_line(cfg@),
{
    let mut line = "Config: project_id=".to_owned();
    append_or(&mut line, &cfg.project_id, "<unset: uses ADC or default>");
    line.append(", topic_id=");
    line.append(cfg.topic_id.as_str());
    line.append(", subscription_id=");
    append_or(&mut line, &cfg.subscription_id, "<unset>");
    line.append(", input_file=");
    line.append(cfg.input_file.as_str());
    line.append(", database_url=");
    append_or(&mut line, &cfg.database_url, "<unset>");
    line
}

/// The line that the mock persistence reports `word` with.
pub open spec fn mock_persist_line(word: Seq<char>) -> Seq<char> {
    "Persist (mock): "@ + word
}

/// Persists `word` nowhere: the mock storage takes every word, and hands
/// back the line that reports it.
pub fn persist_word_mock(word: &str) -> (r: Result<String, crate::store::StoreError>)
    ensures
        r is Ok,
        r->Ok_0@ == mock_persist_line(word@),
{
    let mut line = "Persist (mock): ".to_owned();
    line.append(word);
    Ok(line)
}

/// The file that a mock subscriber reads its words from: the mock source
/// where one is configured, else the input file, else the default one.
pub fn mock_source_file(mock_source: Option<String>, input_file: Option<String>) -> (path: String)
    ensures
        path@ == or_default(
            mock_source.deep_view(),
            or_default(input_file.deep_view(), DEFAULT_INPUT_FILE@),
        ),
{
    match mock_source {
        Some(m) => m,
        None => text_or(input_file, DEFAULT_INPUT_FILE),
    }
}

/// The number that `text` denotes within `max`, or `default` where `text` is
/// absent or denotes none.
pub open spec fn number_or(text: Option<Seq<char>>, max: nat, default: nat) -> nat {
    match text {
        Some(t) => match unsigned_of(t, max) {
            Some(n) => n,
            None => default,
        },
        None => default,
    }
}

/// The pause after each publish in milliseconds: what `text` says, and none
/// where it is absent or no number.
pub fn publish_delay_ms(text: &Option<String>) -> (millis: u64)
    ensures
        millis == number_or(text.deep_view(), u64::MAX as nat, 0),
{
    match text {
        Some(t) => match parse_u64(t.as_str()) {
            Some(n) => n,
            None => 0,
        },
        None => 0,
    }
}

/// The port that the web service listens on: what `text` says, and the
/// default where it is absent or no port number.
pub fn http_port(text: &Option<String>) -> (port: u16)
    ensures
        port == number_or(text.deep_view(), u16::MAX as nat, DEFAULT_HTTP_PORT as nat),
{
    match text {
        Some(t) => match parse_u16(t.as_str()) {
            Some(n) => n,
            None => DEFAULT_HTTP_PORT,
        },
        None => DEFAULT_HTTP_PORT,
    }
}

} // verus!
