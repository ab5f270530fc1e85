//! One run, as a sequence of steps: the session says what is to be done
//! outside (read the search path, look for a file, run the query tool), is
//! told what came of it, and decides what follows.

use crate::device_set::DeviceSet;
use crate::failure::Failure;
use crate::inventory::{
    candidates, identifiers, parse_output, reading, search_candidates, QueryMode, QueryOutcome,
    TOOL,
};
use crate::selector::{eligible, outcome, select_from, selection, SelectionRequest};
use vstd::prelude::*;
use vstd::string::*;
use vstd::utf8::*;

verus! {

/// What a session asks to have done.
#[derive(Debug)]
pub enum Action {
    /// Read the search path of the process.
    ReadSearchPath,
    /// Tell whether this file exists.
    Probe(String),
    /// Run the query tool in this mode.
    Query(QueryMode),
}

/// What was found when an action was performed.
#[derive(Debug)]
pub enum Event {
    /// The search path, or `None` where the process has none that is text.
    SearchPath(Option<String>),
    /// Whether the file exists.
    Probed(bool),
    /// What came of running the query tool.
    Answered(QueryOutcome),
}

/// An action by what it holds.
pub enum ActionView {
    ReadSearchPath,
    Probe(Seq<char>),
    Query(QueryMode),
}

/// An event by what it holds.
pub enum EventView {
    SearchPath(Option<Seq<char>>),
    Probed(bool),
    Answered(Option<Seq<u8>>),
}

impl View for Action {
    type V = ActionView;

    open spec fn view(&self) -> ActionView {
        match *self {
            Action::ReadSearchPath => ActionView::ReadSearchPath,
            Action::Probe(file) => ActionView::Probe(file@),
            Action::Query(mode) => ActionView::Query(mode),
        }
    }
}

impl View for Event {
    type V = EventView;

    open spec fn view(&self) -> EventView {
        match *self {
            Event::SearchPath(None) => EventView::SearchPath(None),
            Event::SearchPath(Some(path)) => EventView::SearchPath(Some(path@)),
            Event::Probed(found) => EventView::Probed(found),
            Event::Answered(output) => EventView::Answered(output@),
        }
    }
}

/// What a session is waiting to be told.
pub enum Waiting {
    /// The search path.
    SearchPath,
    /// Whether the file at `next` of `files` exists; those before it do not.
    Probe { files: Seq<Seq<char>>, next: int },
    /// The answer to the query for the installed devices.
    Total,
    /// The answer to the query for the devices in use.
    Used { total: Set<Seq<char>> },
}

/// Where a step leads.
pub enum Advance {
    /// The session goes on, waiting for this.
    Wait(Waiting),
    /// The session has ended with this result.
    End(Result<Seq<Seq<char>>, Failure>),
}

/// The action by which a session gets what it is waiting for.
pub open spec fn pending(waiting: Waiting) -> ActionView {
    match waiting {
        Waiting::SearchPath => ActionView::ReadSearchPath,
        Waiting::Probe { files, next } => ActionView::Probe(files[next]),
        Waiting::Total => ActionView::Query(QueryMode::Total),
        Waiting::Used { total } => ActionView::Query(QueryMode::Used),
    }
}

/// Where a session that is waiting for `waiting` goes on `event`.
///
/// The files of the search path are tried in order, and the query tool
/// counts as found with the first that exists. The installed devices are
/// asked for then, and the devices in use only where the request leaves
/// them out. An event that is not what the session is waiting for changes
/// nothing.
pub open spec fn advance(request: SelectionRequest, waiting: Waiting, event: EventView) -> Advance {
    match (waiting, event) {
        (Waiting::SearchPath, EventView::SearchPath(None)) => Advance::End(
            Err(Failure::ToolNotFound),
        ),
        (Waiting::SearchPath, EventView::SearchPath(Some(path))) => Advance::Wait(
            Waiting::Probe { files: candidates(path, TOOL@), next: 0 },
        ),
        (Waiting::Probe { files, next }, EventView::Probed(true)) => Advance::Wait(Waiting::Total),
        (Waiting::Probe { files, next }, EventView::Probed(false)) => if next + 1 < files.len() {
            Advance::Wait(Waiting::Probe { files, next: next + 1 })
        } else {
            Advance::End(Err(Failure::ToolNotFound))
        },
        (Waiting::Total, EventView::Answered(output)) => match reading(output) {
            Err(e) => Advance::End(Err(e)),
            Ok(total) => if request.empty_only {
                Advance::Wait(Waiting::Used { total })
            } else {
                Advance::End(selection(total, request.count))
            },
        },
        (Waiting::Used { total }, EventView::Answered(output)) => match reading(output) {
            Err(e) => Advance::End(Err(e)),
            Ok(used) => Advance::End(selection(total.difference(used), request.count)),
        },
        _ => Advance::Wait(waiting),
    }
}

enum Stage {
    SearchPath,
    Probe { files: Vec<String>, next: usize },
    Total,
    Used { total: DeviceSet },
}

/// A run that has not ended.
pub struct Session {
    request: SelectionRequest,
    stage: Stage,
}

/// What a step gives.
pub enum Progress {
    /// The session goes on: the action is to be performed, and what came
    /// of it handed to the session's next step.
    Next(Session, Action),
    /// The run has ended with this result.
    Done(Result<Vec<String>, Failure>),
}

impl Session {
    #[verifier::type_invariant]
    spec fn probe_in_range(&self) -> bool {
        match self.stage {
            Stage::Probe { files, next } => next < files.len(),
            _ => true,
        }
    }

    /// The request that the session serves.
    pub closed spec fn request(&self) -> SelectionRequest {
        self.request
    }

    /// What the session is waiting to be told.
    pub closed spec fn waiting(&self) -> Waiting {
        match self.stage {
            Stage::SearchPath => Waiting::SearchPath,
            Stage::Probe { files, next } => Waiting::Probe {
                files: files.deep_view(),
                next: next as int,
            },
            Stage::Total => Waiting::Total,
            Stage::Used { total } => Waiting::Used { total: total@ },
        }
    }

    /// Begins a run for `request`. Nothing is known yet, so the first thing
    /// asked for is the search path.
    pub fn start(request: SelectionRequest) -> (r: (Session, Action))
        ensures
            r.0.request() == request,
            r.0.waiting() == Waiting::SearchPath,
            r.1@ == pending(Waiting::SearchPath),
    {
        (Session { request, stage: Stage::SearchPath }, Action::ReadSearchPath)
    }

    /// Takes what came of the action that the session asked for, and
    /// decides what follows.
    pub fn step(self, event: Event) -> (r: Progress)
        ensures
            match r {
                Progress::Next(session, action) => {
                    &&& advance(self.request(), self.waiting(), event@) == Advance::Wait(
                        session.waiting(),
                    )
                    &&& session.request() == self.request()
                    &&& action@ == pending(session.waiting())
                },
                Progress::Done(result) => advance(self.request(), self.waiting(), event@)
                    == Advance::End(outcome(result)),
            },
    {
        proof {
            use_type_invariant(&self);
        }
        let request = self.request;
        match (self.stage, event) {
            (Stage::SearchPath, Event::SearchPath(None)) => Progress::Done(
                Err(Failure::ToolNotFound),
            ),
            (Stage::SearchPath, Event::SearchPath(Some(path))) => {
                let files = search_candidates(path.as_str(), TOOL);
                let first = files[0].clone();
                Progress::Next(
                    Session { request, stage: Stage::Probe { files, next: 0 } },
                    Action::Probe(first),
                )
            },
            (Stage::Probe { files, next }, Event::Probed(true)) => Progress::Next(
                Session { request, stage: Stage::Total },
                Action::Query(QueryMode::Total),
            ),
            (Stage::Probe { files, next }, Event::Probed(false)) => {
                if next + 1 < files.len() {
                    let file = files[next + 1].clone();
                    Progress::Next(
                        Session { request, stage: Stage::Probe { files, next: next + 1 } },
                        Action::Probe(file),
                    )
                } else {
                    Progress::Done(Err(Failure::ToolNotFound))
                }
            },
            (Stage::Total, Event::Answered(output)) => match parse_output(&output) {
                Err(e) => Progress::Done(Err(e)),
                Ok(total) => {
                    if request.empty_only {
                        Progress::Next(
                            Session { request, stage: Stage::Used { total } },
                            Action::Query(QueryMode::Used),
                        )
                    } else {
                        Progress::Done(select_from(&total, request.count))
                    }
                },
            },
            (Stage::Used { total }, Event::Answered(output)) => match parse_output(&output) {
                Err(e) => Progress::Done(Err(e)),
                Ok(used) => {
                    let rest = total.difference(&used);
                    Progress::Done(select_from(&rest, request.count))
                },
            },
            (stage, _) => {
                let action = match &stage {
                    Stage::SearchPath => Action::ReadSearchPath,
                    Stage::Probe { files, next } => Action::Probe(files[*next].clone()),
                    Stage::Total => Action::Query(QueryMode::Total),
                    Stage::Used { total } => Action::Query(QueryMode::Used),
                };
                Progress::Next(Session { request, stage }, action)
            },
        }
    }
}

/// The query tool is run only once it has been found: a session comes to
/// wait for the answer to the first query only when a file of the search
/// path was found to exist, and for the answer to the second only after
/// the first. Where the tool is not found, the run ends with
/// `ToolNotFound`.
pub proof fn law_no_query_before_found(request: SelectionRequest, waiting: Waiting, event: EventView)
    ensures
        advance(request, waiting, event) == Advance::Wait(Waiting::Total) ==> (waiting
            is Total) || (waiting is Probe && event == EventView::Probed(true)),
        advance(request, waiting, event) matches Advance::Wait(Waiting::Used { total })
            ==> waiting is Total || waiting is Used,
        waiting is SearchPath && event == EventView::SearchPath(None) ==> advance(
            request,
            waiting,
            event,
        ) == Advance::End(Err(Failure::ToolNotFound)),
        waiting matches Waiting::Probe { files, next } && next + 1 >= files.len() && event
            == EventView::Probed(false) ==> advance(request, waiting, event) == Advance::End(
            Err(Failure::ToolNotFound),
        ),
{
}

/// A run in which the tool is found in the first directory of the search
/// path and answers with valid text ends with the selection among the
/// devices that the answers name: after one answer where the devices in
/// use are left in, after two where they are left out.
pub proof fn law_run_ends_with_selection(
    request: SelectionRequest,
    path: Seq<char>,
    total: Seq<u8>,
    used: Seq<u8>,
)
    requires
        valid_utf8(total),
        valid_utf8(used),
    ensures
        advance(request, Waiting::SearchPath, EventView::SearchPath(Some(path))) == Advance::Wait(
            Waiting::Probe { files: candidates(path, TOOL@), next: 0 },
        ),
        advance(
            request,
            Waiting::Probe { files: candidates(path, TOOL@), next: 0 },
            EventView::Probed(true),
        ) == Advance::Wait(Waiting::Total),
        !request.empty_only ==> advance(request, Waiting::Total, EventView::Answered(Some(total)))
            == Advance::End(
            selection(
                eligible(
                    identifiers(decode_utf8(total)),
                    identifiers(decode_utf8(used)),
                    request.empty_only,
                ),
                request.count,
            ),
        ),
        request.empty_only ==> advance(request, Waiting::Total, EventView::Answered(Some(total)))
            == Advance::Wait(Waiting::Used { total: identifiers(decode_utf8(total)) }),
        request.empty_only ==> advance(
            request,
            Waiting::Used { total: identifiers(decode_utf8(total)) },
            EventView::Answered(Some(used)),
        ) == Advance::End(
            selection(
                eligible(
                    identifiers(decode_utf8(total)),
                    identifiers(decode_utf8(used)),
                    request.empty_only,
                ),
                request.count,
            ),
        ),
{
}

/// The devices in use are asked for only where the request leaves them
/// out.
pub proof fn law_used_query_only_on_demand(
    request: SelectionRequest,
    waiting: Waiting,
    event: EventView,
)
    requires
        !request.empty_only,
        !(waiting is Used),
    ensures
        !(advance(request, waiting, event) matches Advance::Wait(Waiting::Used { total })),
{
}

} // verus!
