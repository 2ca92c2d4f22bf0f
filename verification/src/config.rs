//! Settings of the watcher.
use vstd::prelude::*;

verus! {

/// Where the last snapshot is kept unless told otherwise.
pub const STATE_FILE_NAME: &'static str = "last_fuel_prices.json";

/// When the watcher runs, as a cron expression in UTC: 11:00 and 13:00, which is 18:00 and 20:00
/// in Bangkok, every day.
pub const SCHEDULE_UTC_CRON: &'static str = "0 0 11,13 * * *";

/// Settings of the watcher.
#[derive(Debug)]
pub struct AppConfig {
    /// The file that keeps the last snapshot.
    pub state_file: String,
    /// Who receives the notifications.
    pub line_target: Option<String>,
    /// The access token of the sending channel.
    pub line_token: Option<String>,
}

/// A setting that is present and not empty.
pub open spec fn given(setting: Option<String>) -> Option<Seq<char>> {
    match setting {
        Some(text) => if text@.len() > 0 {
            Some(text@)
        } else {
            None
        },
        None => None,
    }
}

/// The text of an optional string.
pub open spec fn text_of(setting: Option<String>) -> Option<Seq<char>> {
    match setting {
        Some(text) => Some(text@),
        None => None,
    }
}

/// Both the recipient and the token are known.
pub open spec fn can_notify(config: AppConfig) -> bool {
    config.line_target is Some && config.line_token is Some
}

/// Drops a setting that is empty.
fn non_empty(setting: Option<String>) -> (r: Option<String>)
    ensures
        text_of(r) == given(setting),
{
    match setting {
        Some(text) => if text.as_str().is_empty() {
            None
        } else {
            Some(text)
        },
        None => None,
    }
}

/// Makes the settings out of the variables `STATE_FILE`, `LINE_TARGET_ID` and
/// `LINE_CHANNEL_TOKEN`. An empty recipient or token counts as none at all.
pub fn build_config(
    state_file: Option<String>,
    line_target: Option<String>,
    line_token: Option<String>,
) -> (config: AppConfig)
    ensures
        config.state_file@ == (match state_file {
            Some(path) => path@,
            None => STATE_FILE_NAME@,
        }),
        text_of(config.line_target) == given(line_target),
        text_of(config.line_token) == given(line_token),
        state_file is Some ==> config.state_file@ == state_file->0@,
        state_file is None ==> config.state_file@ == "last_fuel_prices.json"@,
        config.line_target is Some <==> line_target is Some && line_target->0@.len() > 0,
        config.line_target is Some ==> config.line_target->0@ == line_target->0@,
        config.line_token is Some <==> line_token is Some && line_token->0@.len() > 0,
        config.line_token is Some ==> config.line_token->0@ == line_token->0@,
{
    let path: String = match state_file {
        Some(path) => path,
        None => STATE_FILE_NAME.to_owned(),
    };
    AppConfig {
        state_file: path,
        line_target: non_empty(line_target),
        line_token: non_empty(line_token),
    }
}

impl AppConfig {
    /// Tells whether notifications can be sent at all.
    pub fn has_credentials(&self) -> (r: bool)
        ensures
            r == can_notify(*self),
            r == (self.line_target is Some && self.line_token is Some),
    {
        self.line_target.is_some() && self.line_token.is_some()
    }
}

/// A setting is given exactly where it is there and not empty, and then as it stands.
pub proof fn law_empty_settings_count_as_none(setting: Option<String>)
    ensures
        setting is None ==> given(setting) is None,
        setting is Some && setting->0@.len() == 0 ==> given(setting) is None,
        setting is Some && setting->0@.len() > 0 ==> given(setting) == Some(setting->0@),
{
}

} // verus!
