//! The credentials session that a list of steps is run in.
//!
//! A session starts idle. A logout leaves it logged out, whatever it was
//! before. A login is taken only by a session that is logged out, and an
//! operation runs only in a session that is logged in. So at no time is
//! more than one account logged in.

use crate::orchestrator::{Step, StepView};
use crate::text::same_text;
use vstd::prelude::*;
use vstd::string::*;

verus! {

/// The state of the session.
#[derive(Debug)]
pub enum Session {
    Idle,
    LoggedOut,
    LoggedIn(String),
    Done,
}

/// The mathematical value of a [`Session`].
pub ghost enum SessionView {
    Idle,
    LoggedOut,
    LoggedIn(Seq<char>),
    Done,
}

impl View for Session {
    type V = SessionView;

    open spec fn view(&self) -> SessionView {
        match self {
            Session::Idle => SessionView::Idle,
            Session::LoggedOut => SessionView::LoggedOut,
            Session::LoggedIn(account) => SessionView::LoggedIn(account@),
            Session::Done => SessionView::Done,
        }
    }
}

/// The session after `step`, or `None` where the session does not admit
/// the step.
pub open spec fn after_step(session: SessionView, step: StepView) -> Option<SessionView> {
    match step {
        StepView::Logout => if session is Done {
            None
        } else {
            Some(SessionView::LoggedOut)
        },
        StepView::LegacyLogin => if session is LoggedOut {
            Some(SessionView::LoggedIn("legacy"@))
        } else {
            None
        },
        StepView::SsoLogin(account) => if session is LoggedOut && account != "legacy"@ {
            Some(SessionView::LoggedIn(account))
        } else {
            None
        },
        StepView::Run(_, _, _) => if session is LoggedIn {
            Some(session)
        } else {
            None
        },
    }
}

/// The session after `steps`, or `None` where one of them is not admitted.
pub open spec fn after_steps(session: SessionView, steps: Seq<StepView>) -> Option<SessionView>
    decreases steps.len(),
{
    if steps.len() == 0 {
        Some(session)
    } else {
        match after_steps(session, steps.drop_last()) {
            Some(s) => after_step(s, steps.last()),
            None => None,
        }
    }
}

impl Session {
    /// A session in which nothing has happened yet.
    pub fn start() -> (r: Session)
        ensures
            r@ == SessionView::Idle,
    {
        Session::Idle
    }

    /// Takes `step`: returns the session that follows, or `None` where the
    /// session does not admit the step.
    pub fn advance(&self, step: &Step) -> (r: Option<Session>)
        ensures
            r.is_some() == after_step(self@, step@).is_some(),
            r.is_some() ==> r.unwrap()@ == after_step(self@, step@).unwrap(),
    {
        match step {
            Step::Logout => match self {
                Session::Done => None,
                _ => Some(Session::LoggedOut),
            },
            Step::LegacyLogin => match self {
                Session::LoggedOut => Some(Session::LoggedIn(String::from_str("legacy"))),
                _ => None,
            },
            Step::SsoLogin(account) => match self {
                Session::LoggedOut => if same_text(account.as_str(), "legacy") {
                    None
                } else {
                    Some(Session::LoggedIn(account.clone()))
                },
                _ => None,
            },
            Step::Run(_, _, _) => match self {
                Session::LoggedIn(account) => Some(Session::LoggedIn(account.clone())),
                _ => None,
            },
        }
    }

    /// Closes the session once all steps are taken.
    pub fn finish(self) -> (r: Session)
        ensures
            r@ == SessionView::Done,
    {
        Session::Done
    }
}

} // verus!
