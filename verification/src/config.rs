use vstd::prelude::*;

verus! {

/// The user's settings.
#[derive(Debug, PartialEq, Eq)]
pub struct Config {
    /// The page that shows the usage in a browser.
    pub usage_url: String,
    /// The base URL that every request path is appended to.
    pub api_base: String,
    /// Seconds between two automatic refreshes.
    pub refresh_interval: u64,
}

impl Default for Config {
    fn default() -> (r: Self)
        ensures
            r.usage_url@ == "https://platform.deepseek.com/usage"@,
            r.api_base@ == "https://platform.deepseek.com/api/v0"@,
            r.refresh_interval == 120,
    {
        Config {
            usage_url: String::from_str("https://platform.deepseek.com/usage"),
            api_base: String::from_str("https://platform.deepseek.com/api/v0"),
            refresh_interval: 120,
        }
    }
}

} // verus!
