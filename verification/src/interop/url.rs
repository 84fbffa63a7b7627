//! URLs, as the `url` crate reads them.

use url::Url;
use vstd::prelude::*;

use crate::text::opt_text;

verus! {

/// The parts of a URL that matter here. `text` is its normal form.
#[derive(Clone, Debug)]
pub struct UrlParts {
    pub scheme: String,
    pub host: Option<String>,
    pub query: Option<String>,
    pub fragment: Option<String>,
    pub text: String,
}

/// The parts of a URL as mathematical values.
pub struct UrlModel {
    pub scheme: Seq<char>,
    pub host: Option<Seq<char>>,
    pub query: Option<Seq<char>>,
    pub fragment: Option<Seq<char>>,
    pub text: Seq<char>,
}

impl View for UrlParts {
    type V = UrlModel;

    open spec fn view(&self) -> UrlModel {
        UrlModel {
            scheme: self.scheme@,
            host: opt_text(self.host),
            query: opt_text(self.query),
            fragment: opt_text(self.fragment),
            text: self.text@,
        }
    }
}

/// The view of what reading a URL came to.
pub open spec fn parsed_view(parsed: Result<UrlParts, String>) -> Result<UrlModel, Seq<char>> {
    match parsed {
        Ok(parts) => Ok(parts@),
        Err(message) => Err(message@),
    }
}

/// What `url::Url::parse` makes of a text: a URL, or why it is none.
pub uninterp spec fn url_parse(text: Seq<char>) -> Result<UrlModel, Seq<char>>;

/// `url::Url::parse` reads an absolute URL. The parts are what `scheme`,
/// `host_str`, `query`, `fragment` and `as_str` return, the error what the
/// parse error displays.
#[verifier::external_body]
pub(crate) fn parse_url(text: &str) -> (parsed: Result<UrlParts, String>)
    ensures
        parsed_view(parsed) == url_parse(text@),
{
    match Url::parse(text) {
        Ok(url) => Ok(UrlParts {
            scheme: url.scheme().to_string(),
            host: url.host_str().map(|host| host.to_string()),
            query: url.query().map(|query| query.to_string()),
            fragment: url.fragment().map(|fragment| fragment.to_string()),
            text: url.as_str().to_string(),
        }),
        Err(error) => Err(error.to_string()),
    }
}

}
