use vstd::prelude::*;
use crate::endpoints::Endpoints;
use crate::text::spec_replace_all;
use crate::clock::{is_year_text, local_month_year, two_digits_in};

verus! {

/// The URL of a request: the base of the service, then the path.
pub fn request_url(api_base: &str, path: &str) -> (r: String)
    ensures
        r@ == api_base@ + path@,
{
    let mut out = String::from_str(api_base);
    out.append(path);
    out
}

/// Why a response was refused by its status.
#[derive(Debug, Clone, Copy, PartialEq, Eq)]
pub enum StatusError {
    /// 401: the token is no longer valid.
    TokenInvalid,
    /// Any other status outside 200..=299.
    Http(u16),
}

/// Accepts a response status in 200..=299; 401 means that the token is no
/// longer valid, and any other status is refused as it is.
pub fn check_status(status: u16) -> (r: Result<(), StatusError>)
    ensures
        status == 401 ==> r == Err::<(), StatusError>(StatusError::TokenInvalid),
        status != 401 && !(200 <= status <= 299) ==> r == Err::<(), StatusError>(
            StatusError::Http(status),
        ),
        200 <= status <= 299 ==> r is Ok,
{
    if status == 401 {
        Err(StatusError::TokenInvalid)
    } else if status < 200 || status > 299 {
        Err(StatusError::Http(status))
    } else {
        Ok(())
    }
}

/// The message of a failed request: the token's expiry mark
/// `TOKEN_INVALID` as it is, so that the user is asked to log in again, and
/// anything else behind a note that the request failed.
pub open spec fn spec_failure_message(e: Seq<char>) -> Seq<char> {
    if e == "TOKEN_INVALID"@ {
        e
    } else {
        "API 请求失败: "@ + e
    }
}

/// The message of a failed request; see [`spec_failure_message`].
pub fn fetch_failure_message(e: &str) -> (r: String)
    ensures
        r@ == spec_failure_message(e@),
{
    let e_owned = String::from_str(e);
    let mark = String::from_str("TOKEN_INVALID");
    if e_owned == mark {
        e_owned
    } else {
        let mut out = String::from_str("API 请求失败: ");
        out.append(e);
        out
    }
}

impl Endpoints {
    /// The paths of the amount, cost and summary requests for a month: the
    /// first two filled with `month` and `year`, the last as it is.
    pub fn fetch_paths(&self, month: &str, year: &str) -> (r: (String, String, String))
        ensures
            r.0@ == spec_replace_all(
                spec_replace_all(self.amount_path@, "{month}"@, month@),
                "{year}"@,
                year@,
            ),
            r.1@ == spec_replace_all(
                spec_replace_all(self.cost_path@, "{month}"@, month@),
                "{year}"@,
                year@,
            ),
            r.2@ == self.summary_path@,
    {
        let amount = self.fill(self.amount_path.as_str(), month, year);
        let cost = self.fill(self.cost_path.as_str(), month, year);
        let summary = self.summary_path.clone();
        (amount, cost, summary)
    }
}

impl Endpoints {
    /// The paths of the amount, cost and summary requests for the current
    /// month of the local clock, whichever that is: [`Endpoints::fetch_paths`]
    /// with a two-digit month number from 01 to 12 and the year as chrono's
    /// `%Y` writes it.
    pub fn current_fetch_paths(&self) -> (r: (String, String, String))
        ensures
            exists|month: Seq<char>, year: Seq<char>|
                {
                    &&& two_digits_in(month, 1, 12)
                    &&& is_year_text(year)
                    &&& r.0@ == spec_replace_all(
                        spec_replace_all(self.amount_path@, "{month}"@, month),
                        "{year}"@,
                        year,
                    )
                    &&& r.1@ == spec_replace_all(
                        spec_replace_all(self.cost_path@, "{month}"@, month),
                        "{year}"@,
                        year,
                    )
                },
            r.2@ == self.summary_path@,
    {
        let (month, year) = local_month_year();
        self.fetch_paths(month.as_str(), year.as_str())
    }
}

/// The most bytes a log file may reach before it is started anew.
pub const LOG_LIMIT: u64 = 1_048_576;

/// Whether a log file of `len` bytes has outgrown [`LOG_LIMIT`] and is to be
/// emptied before the next line is written.
pub fn log_needs_reset(len: u64) -> (r: bool)
    ensures
        r == (len > LOG_LIMIT),
{
    len > LOG_LIMIT
}

/// Whether a settings file is to be written again: only when the settings as
/// they would be written differ from the file's content.
pub fn content_changed(old_content: &str, new_content: &str) -> (r: bool)
    ensures
        r == (old_content@ != new_content@),
{
    let a = String::from_str(old_content);
    let b = String::from_str(new_content);
    !(a == b)
}

} // verus!
