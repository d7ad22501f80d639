//! What is asked of the user, and which answers are taken.

use vstd::prelude::*;
use vstd::string::*;

verus! {

/// A question with a list to choose from. The user may choose several
/// items, and has to choose one at least.
#[derive(Debug)]
pub struct MultiSelect {
    pub message: String,
    pub options: Vec<String>,
}

/// The wording of the question for things called `resource_name`.
pub open spec fn select_message(resource_name: Seq<char>) -> Seq<char> {
    "Select one or more "@ + resource_name + "s:"@
}

/// The question that offers `paths`, which are called `resource_name`.
pub fn select_paths(paths: Vec<String>, resource_name: &str) -> (r: MultiSelect)
    ensures
        r.message@ == select_message(resource_name@),
        r.options == paths,
{
    let mut message = String::from_str("Select one or more ");
    message.append(resource_name);
    message.append("s:");
    MultiSelect { message, options: paths }
}

/// The question that offers `accounts`.
pub fn select_accounts(accounts: Vec<String>) -> (r: MultiSelect)
    ensures
        r.message@ == select_message("account"@),
        r.options == accounts,
{
    select_paths(accounts, "account")
}

/// The question that offers `states`.
pub fn select_states(states: Vec<String>) -> (r: MultiSelect)
    ensures
        r.message@ == select_message("state"@),
        r.options == states,
{
    select_paths(states, "state")
}

/// The question that offers `providers`.
pub fn select_providers(providers: Vec<String>) -> (r: MultiSelect)
    ensures
        r.message@ == select_message("provider"@),
        r.options == providers,
{
    select_paths(providers, "provider")
}

/// Whether an answer with `selected` items is taken, and if not, what the
/// user is told: an empty answer is refused, and the question stands.
pub fn validate_selection(selected: usize) -> (r: Result<(), &'static str>)
    ensures
        (selected > 0) == (r is Ok),
        r is Err ==> r->Err_0@ == "Select one item!"@,
{
    if selected == 0 {
        Err("Select one item!")
    } else {
        Ok(())
    }
}

} // verus!
