//! Decisions of the combat service: what each command asks its runner to do.
use vstd::prelude::*;
use crate::session::EndReason;

verus! {

/// Requests handled by the combat service.
pub enum ServiceCommand {
    /// Start tailing the log at this path.
    StartTailing(String),
    StopTailing,
    RefreshIndex,
    Shutdown,
}

/// Work that the service's runner performs for a command.
pub enum ServiceAction {
    /// Stop the tail task, seal its open encounter for this reason, drop
    /// the session.
    StopTail(EndReason),
    /// Open a new session on this log and start a tail task for it.
    StartTail(String),
    /// Rebuild the directory index.
    RebuildIndex,
    /// Leave the command loop.
    Exit,
}

/// The service's own state: the log it tails, if any.
pub struct CombatService {
    tailing: Option<String>,
}

impl CombatService {
    pub closed spec fn tailed(&self) -> Option<Seq<char>> {
        match self.tailing {
            Some(p) => Some(p@),
            None => None,
        }
    }

    /// A service that tails nothing.
    pub fn new() -> (r: CombatService)
        ensures
            r.tailed().is_none(),
    {
        CombatService { tailing: None }
    }

    /// Whether a log is being tailed.
    pub fn is_tailing(&self) -> (r: bool)
        ensures
            r == self.tailed().is_some(),
    {
        self.tailing.is_some()
    }

    /// Decides the work for one command. Starting a tail first stops any
    /// running one, and stopping cancels it: its open encounter ends as
    /// cancelled. Shutting down stops it too, its open encounter ends as
    /// truncated, then the loop exits.
    pub fn handle_command(&mut self, cmd: ServiceCommand) -> (actions: Vec<ServiceAction>)
        ensures
            match cmd {
                ServiceCommand::StartTailing(path) => {
                    &&& final(self).tailed() == Some(path@)
                    &&& actions@.len() == if old(self).tailed().is_some() { 2int } else { 1int }
                    &&& old(self).tailed().is_some() ==> (actions@[0] matches ServiceAction::StopTail(r) && r == EndReason::Cancelled)
                    &&& (actions@.last() matches ServiceAction::StartTail(p) && p@ == path@)
                },
                ServiceCommand::StopTailing => {
                    &&& final(self).tailed().is_none()
                    &&& actions@.len() == if old(self).tailed().is_some() { 1int } else { 0int }
                    &&& old(self).tailed().is_some() ==> (actions@[0] matches ServiceAction::StopTail(r) && r == EndReason::Cancelled)
                },
                ServiceCommand::RefreshIndex => {
                    &&& final(self).tailed() == old(self).tailed()
                    &&& actions@.len() == 1
                    &&& actions@[0] is RebuildIndex
                },
                ServiceCommand::Shutdown => {
                    &&& final(self).tailed().is_none()
                    &&& actions@.len() == if old(self).tailed().is_some() { 2int } else { 1int }
                    &&& old(self).tailed().is_some() ==> (actions@[0] matches ServiceAction::StopTail(r) && r == EndReason::Truncated)
                    &&& actions@.last() is Exit
                },
            },
    {
        let mut actions: Vec<ServiceAction> = Vec::new();
        match cmd {
            ServiceCommand::StartTailing(path) => {
                if self.tailing.is_some() {
                    actions.push(ServiceAction::StopTail(EndReason::Cancelled));
                }
                let again = path.clone();
                self.tailing = Some(path);
                actions.push(ServiceAction::StartTail(again));
            },
            ServiceCommand::StopTailing => {
                if self.tailing.is_some() {
                    actions.push(ServiceAction::StopTail(EndReason::Cancelled));
                }
                self.tailing = None;
            },
            ServiceCommand::RefreshIndex => {
                actions.push(ServiceAction::RebuildIndex);
            },
            ServiceCommand::Shutdown => {
                if self.tailing.is_some() {
                    actions.push(ServiceAction::StopTail(EndReason::Truncated));
                }
                self.tailing = None;
                actions.push(ServiceAction::Exit);
            },
        }
        actions
    }
}

} // verus!
