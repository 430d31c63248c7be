use vstd::prelude::*;

use crate::intent::Intent;
use crate::parser::extract_file_path;
use crate::parser::extract_location;
use crate::parser::extract_search_query;
use crate::parser::spec_extract_file_path;
use crate::parser::spec_extract_location;
use crate::parser::spec_extract_search_query;

verus! {

/// What the host should do with one classified utterance.  Actions
/// that need the network, the file system or the process belong to the
/// host; this type only carries the decision and the extracted
/// parameters.
pub enum BackendAction {
    /// Nothing to do.
    Ignore,
    /// The assistant is not active yet: ask for a greeting first.
    NotActive,
    /// Greet back; `first_time` marks the greeting that activates.
    Greet { first_time: bool },
    /// Fetch the weather, for the extracted place if one was found.
    Weather(Option<String>),
    /// Run an encyclopedia search for the extracted term.
    SearchFor(String),
    /// Open the extracted file or program.
    OpenFile(String),
    /// Show the extracted file in the file manager.
    ShowFile(String),
    /// Say goodbye and deactivate.
    GoodbyeReply,
    /// Say goodbye, persist the store, and exit.
    Shutdown,
    /// Admit uncertainty and invite a correction.
    Unsure,
}

pub open spec fn spec_opt_view(o: Option<String>) -> Option<Seq<char>> {
    match o {
        Some(s) => Some(s@),
        None => None,
    }
}

/// The backend decision for one classified utterance: from the active
/// flag and the intent to the next active flag and the action to run.
/// All parameter extraction happens here; the host only performs.
pub fn backend_step(active: bool, intent: &Intent, input: &str) -> (r: (bool, BackendAction))
    ensures
        *intent == Intent::Greeting ==> r.0 == true && (r.1 matches BackendAction::Greet {
            first_time,
        } && first_time == !active),
        *intent == Intent::Weather && !active ==> r.0 == false && r.1 == BackendAction::NotActive,
        *intent == Intent::Weather && active ==> r.0 == true && (r.1 matches BackendAction::Weather(
            loc,
        ) && spec_opt_view(loc) == spec_extract_location(input@)),
        *intent == Intent::Search && !active ==> r.0 == false && r.1 == BackendAction::NotActive,
        *intent == Intent::Search && active ==> r.0 == true && (r.1
            matches BackendAction::SearchFor(q) && q@ == spec_extract_search_query(input@)),
        *intent == Intent::FileOpen && !active ==> r.0 == false && r.1 == BackendAction::NotActive,
        *intent == Intent::FileOpen && active ==> r.0 == true && (r.1
            matches BackendAction::OpenFile(p) && p@ == spec_extract_file_path(input@)),
        *intent == Intent::FileShow && !active ==> r.0 == false && r.1 == BackendAction::NotActive,
        *intent == Intent::FileShow && active ==> r.0 == true && (r.1
            matches BackendAction::ShowFile(p) && p@ == spec_extract_file_path(input@)),
        *intent == Intent::Goodbye ==> r.0 == false && r.1 == (if active {
            BackendAction::GoodbyeReply
        } else {
            BackendAction::Ignore
        }),
        *intent == Intent::Shutdown ==> r.0 == active && r.1 == BackendAction::Shutdown,
        *intent == Intent::Unknown ==> r.0 == active && r.1 == (if active {
            BackendAction::Unsure
        } else {
            BackendAction::Ignore
        }),
{
    match intent {
        Intent::Greeting => (true, BackendAction::Greet { first_time: !active }),
        Intent::Weather => {
            if !active {
                (false, BackendAction::NotActive)
            } else {
                (true, BackendAction::Weather(extract_location(input)))
            }
        },
        Intent::Search => {
            if !active {
                (false, BackendAction::NotActive)
            } else {
                (true, BackendAction::SearchFor(extract_search_query(input)))
            }
        },
        Intent::FileOpen => {
            if !active {
                (false, BackendAction::NotActive)
            } else {
                (true, BackendAction::OpenFile(extract_file_path(input)))
            }
        },
        Intent::FileShow => {
            if !active {
                (false, BackendAction::NotActive)
            } else {
                (true, BackendAction::ShowFile(extract_file_path(input)))
            }
        },
        Intent::Goodbye => {
            if active {
                (false, BackendAction::GoodbyeReply)
            } else {
                (false, BackendAction::Ignore)
            }
        },
        Intent::Shutdown => (active, BackendAction::Shutdown),
        Intent::Unknown => {
            if active {
                (active, BackendAction::Unsure)
            } else {
                (active, BackendAction::Ignore)
            }
        },
    }
}

} // verus!
