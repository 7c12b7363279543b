use vstd::prelude::*;
use vstd::string::*;

verus! {

/// Arguments of the command that opens an issue in the browser.
#[derive(Debug, PartialEq)]
pub struct Open {
    pub issue_key_input: Option<String>,
    /// Prompt for a filter to use with the default query.
    pub use_filter: bool,
}

/// Arguments of the command that moves an issue to another status.
#[derive(Debug, PartialEq)]
pub struct Transition {
    pub issue_key_input: Option<String>,
    /// Prompt for a filter to use with the default query.
    pub use_filter: bool,
}

/// The address of an issue's page on the tracker.
pub fn browse_url(url: &String, issue_key: &String) -> (r: String)
    ensures
        r@ == url@ + "/browse/"@ + issue_key@,
{
    url.clone().concat("/browse/").concat(issue_key.as_str())
}

/// Whether a transition is taken without asking: only when it is the one
/// offered and the configuration says so.
pub fn auto_transition(offered: usize, one_transition_auto_move: Option<bool>) -> (r: bool)
    ensures
        r == (offered == 1 && one_transition_auto_move == Some(true)),
{
    offered == 1 && one_transition_auto_move.unwrap_or(false)
}

} // verus!
