use vstd::prelude::*;

use crate::types::RawConfig;

verus! {

/// The error of the `url` crate's parser.
#[verifier::external_type_specification]
#[verifier::external_body]
pub struct ExUrlParseError(url::ParseError);

/// The serialization of the `url::Url` that `Url::parse` makes of a text, or
/// `None` where it returns an error.
pub uninterp spec fn url_parse(text: Seq<char>) -> Option<Seq<char>>;

/// Calls `url::Url::parse` and takes the serialization of the result
/// (`Url::as_str`). Claimed: that serialization is `url_parse` of the text.
#[verifier::external_body]
fn url_serialization(text: &str) -> (parsed: Result<String, url::ParseError>)
    ensures
        match parsed {
            Ok(s) => url_parse(text@) == Some(s@),
            Err(_) => url_parse(text@) is None,
        },
{
    match url::Url::parse(text) {
        Ok(u) => Ok(u.as_str().to_string()),
        Err(e) => Err(e),
    }
}

/// Why a configuration was refused.
#[derive(Debug)]
pub enum ConfigError {
    /// The address of the feed is not a URL.
    InvalidUrl(url::ParseError),
}

/// The configuration of the service. A `url::Url` is equal to another when
/// their serializations are, so the feed's address is held as its
/// serialization; the subscription is the text of the message sent on
/// connecting.
#[derive(Clone, Debug, PartialEq, Eq)]
pub struct WebAppConfig {
    /// The serialization of the feed's URL.
    pub web_socket_url: String,
    /// The text of the subscription message.
    pub web_socket_feed: String,
    pub server_address: String,
    pub server_port: u16,
}

impl WebAppConfig {
    /// The configuration that a raw configuration stands for: its URL parsed,
    /// the rest kept as it is. A URL that does not parse refuses the whole.
    pub fn new(raw: RawConfig) -> (config: Result<WebAppConfig, ConfigError>)
        ensures
            match config {
                Ok(c) => url_parse(raw.web_socket_url@) == Some(c.web_socket_url@)
                    && c.web_socket_feed@ == raw.web_socket_feed@
                    && c.server_address@ == raw.server_address@
                    && c.server_port == raw.server_port,
                Err(ConfigError::InvalidUrl(_)) => url_parse(raw.web_socket_url@) is None,
            },
    {
        match url_serialization(raw.web_socket_url.as_str()) {
            Ok(url) => Ok(WebAppConfig::with_url(raw, url)),
            Err(e) => Err(ConfigError::InvalidUrl(e)),
        }
    }

    /// The configuration of a raw configuration whose URL has been parsed to
    /// `url`: the URL replaced by its serialization, the rest kept.
    pub fn with_url(raw: RawConfig, url: String) -> (config: WebAppConfig)
        ensures
            config.web_socket_url@ == url@,
            config.web_socket_feed@ == raw.web_socket_feed@,
            config.server_address@ == raw.server_address@,
            config.server_port == raw.server_port,
    {
        WebAppConfig {
            web_socket_url: url,
            web_socket_feed: raw.web_socket_feed,
            server_address: raw.server_address,
            server_port: raw.server_port,
        }
    }
}

} // verus!
