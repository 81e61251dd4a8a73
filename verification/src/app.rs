//! The interactive session: its state, and what each event does to it.
//!
//! The session does no outside work itself. Where a key asks for some, the
//! step returns a request; the program around it does the work and reports
//! the outcome by the method made for it.

use crate::binding::{views, BindingView, PortBinding};
use crate::message::{failed_message, failed_text, found_message, found_text, killed_message,
    killed_text};
use crate::scan_laws::{ascending_by_port, distinct_pids, ports_in_range};
use crate::scanner::{found_in, get_port_processes};
use crate::selection::{fits, next_of, previous_of, reconciled, Selection};
use crate::terminator::{kill_result, KillOutcome};
use vstd::prelude::*;

verus! {

/// A key press, as far as the session tells keys apart.
#[derive(Clone, Copy, Debug, PartialEq, Eq, Structural)]
pub enum Key {
    /// A key that types the character.
    Char(char),
    Esc,
    Enter,
    Up,
    Down,
    /// Any other key.
    Other,
}

/// What a key asks the session to do.
#[derive(Clone, Copy, Debug, PartialEq, Eq, Structural)]
pub enum Command {
    Quit,
    Next,
    Previous,
    Kill,
    Refresh,
    /// The key has no meaning.
    Ignore,
}

/// What a key asks for: `q` and escape quit, the down arrow and `j` step
/// forward, the up arrow and `k` step back, enter and `d` end the selected
/// process, `r` scans again. Every other key asks for nothing.
pub open spec fn command_of(key: Key) -> Command {
    match key {
        Key::Esc => Command::Quit,
        Key::Down => Command::Next,
        Key::Up => Command::Previous,
        Key::Enter => Command::Kill,
        Key::Char(c) => if c == 'q' {
            Command::Quit
        } else if c == 'j' {
            Command::Next
        } else if c == 'k' {
            Command::Previous
        } else if c == 'd' {
            Command::Kill
        } else if c == 'r' {
            Command::Refresh
        } else {
            Command::Ignore
        },
        Key::Other => Command::Ignore,
    }
}

/// What `key` asks the session to do.
pub fn command_for(key: Key) -> (command: Command)
    ensures
        command == command_of(key),
{
    match key {
        Key::Esc => Command::Quit,
        Key::Down => Command::Next,
        Key::Up => Command::Previous,
        Key::Enter => Command::Kill,
        Key::Char(c) => if c == 'q' {
            Command::Quit
        } else if c == 'j' {
            Command::Next
        } else if c == 'k' {
            Command::Previous
        } else if c == 'd' {
            Command::Kill
        } else if c == 'r' {
            Command::Refresh
        } else {
            Command::Ignore
        },
        Key::Other => Command::Ignore,
    }
}

/// The process that is to be ended.
#[derive(Clone, Debug, PartialEq, Eq)]
pub struct KillTarget {
    pub pid: u32,
    pub name: String,
}

/// A `KillTarget` as plain mathematical values.
pub struct KillTargetView {
    pub pid: nat,
    pub name: Seq<char>,
}

impl View for KillTarget {
    type V = KillTargetView;

    open spec fn view(&self) -> KillTargetView {
        KillTargetView { pid: self.pid as nat, name: self.name@ }
    }
}

/// The outside work that a step of the session asks for.
#[derive(Clone, Debug, PartialEq, Eq)]
pub enum Request {
    /// No work.
    Nothing,
    /// Run the listing utility and report with `refresh_processes`.
    Scan,
    /// Run the listing utility after a process was ended, and report with
    /// `rescan_processes`.
    Rescan,
    /// Try to end the process and report with `kill_finished`.
    Kill(KillTarget),
}

/// A `Request` as plain mathematical values.
pub enum RequestView {
    Nothing,
    Scan,
    Rescan,
    Kill(KillTargetView),
}

impl View for Request {
    type V = RequestView;

    open spec fn view(&self) -> RequestView {
        match self {
            Request::Nothing => RequestView::Nothing,
            Request::Scan => RequestView::Scan,
            Request::Rescan => RequestView::Rescan,
            Request::Kill(target) => RequestView::Kill(target@),
        }
    }
}

/// The state of a session as plain mathematical values.
pub struct AppView {
    /// The bindings of the last scan.
    pub processes: Seq<BindingView>,
    /// The index of the selected binding.
    pub selected: Option<nat>,
    /// What the last scan or termination attempt came to.
    pub message: Option<Seq<char>>,
    /// Whether the session is over.
    pub should_quit: bool,
}

impl AppView {
    /// The state before the first scan.
    pub open spec fn initial() -> AppView {
        AppView {
            processes: Seq::empty(),
            selected: None,
            message: None,
            should_quit: false,
        }
    }

    /// Whether the state is one that a session can be in: the list has the
    /// shape of a scan, and the selection is a row of it, none only where
    /// the list is empty.
    pub open spec fn wf(self) -> bool {
        &&& fits(self.selected, self.processes.len())
        &&& ascending_by_port(self.processes)
        &&& distinct_pids(self.processes)
        &&& ports_in_range(self.processes)
    }

    /// The state after a scan that was asked for by key, or that began the
    /// session, and found `found`: the list is replaced, the selection fitted
    /// to it, and the message counts what was found.
    pub open spec fn refreshed(self, found: Seq<BindingView>) -> AppView {
        AppView {
            processes: found,
            selected: reconciled(self.selected, found.len()),
            message: Some(found_text(found.len())),
            should_quit: self.should_quit,
        }
    }

    /// The state after the scan that follows the end of a process and found
    /// `found`: the list is replaced and the selection fitted to it. The
    /// message stays, so that the confirmation can be read.
    pub open spec fn rescanned(self, found: Seq<BindingView>) -> AppView {
        AppView {
            processes: found,
            selected: reconciled(self.selected, found.len()),
            ..self
        }
    }

    /// The state after a step forward in the list.
    pub open spec fn stepped_next(self) -> AppView {
        AppView { selected: next_of(self.selected, self.processes.len()), ..self }
    }

    /// The state after a step back in the list.
    pub open spec fn stepped_previous(self) -> AppView {
        AppView { selected: previous_of(self.selected, self.processes.len()), ..self }
    }

    /// The process of the selected row, where a row of the list is selected.
    pub open spec fn kill_target(self) -> Option<KillTargetView> {
        match self.selected {
            Some(index) => if index < self.processes.len() {
                Some(
                    KillTargetView {
                        pid: self.processes[index as int].pid,
                        name: self.processes[index as int].name,
                    },
                )
            } else {
                None
            },
            None => None,
        }
    }

    /// The state after an attempt to end `target`. `failure` describes why it
    /// failed, `None` where it succeeded. Only the message changes: it names
    /// the process and, after a failure, the cause.
    pub open spec fn after_kill(
        self,
        target: KillTargetView,
        failure: Option<Seq<char>>,
    ) -> AppView {
        AppView {
            message: Some(
                match failure {
                    None => killed_text(target.name, target.pid),
                    Some(cause) => failed_text(target.pid, cause),
                },
            ),
            ..self
        }
    }

    /// The state after a key press, and the outside work it asks for. A
    /// session that is over takes no more keys.
    pub open spec fn on_key(self, key: Key) -> (AppView, RequestView) {
        if self.should_quit {
            (self, RequestView::Nothing)
        } else {
            match command_of(key) {
                Command::Quit => (AppView { should_quit: true, ..self }, RequestView::Nothing),
                Command::Next => (self.stepped_next(), RequestView::Nothing),
                Command::Previous => (self.stepped_previous(), RequestView::Nothing),
                Command::Kill => (
                    self,
                    match self.kill_target() {
                        Some(target) => RequestView::Kill(target),
                        None => RequestView::Nothing,
                    },
                ),
                Command::Refresh => (self, RequestView::Scan),
                Command::Ignore => (self, RequestView::Nothing),
            }
        }
    }
}

/// The text of an optional message.
pub open spec fn message_view(message: Option<String>) -> Option<Seq<char>> {
    match message {
        Some(text) => Some(text@),
        None => None,
    }
}

/// A session: the list of the last scan, the selected row, the status
/// message, and whether the session is over.
pub struct App {
    processes: Vec<PortBinding>,
    selection: Selection,
    message: Option<String>,
    should_quit: bool,
}

impl View for App {
    type V = AppView;

    closed spec fn view(&self) -> AppView {
        AppView {
            processes: views(self.processes@),
            selected: self.selection@,
            message: message_view(self.message),
            should_quit: self.should_quit,
        }
    }
}

impl App {
    #[verifier::type_invariant]
    spec fn well_formed(&self) -> bool {
        self@.wf()
    }

    /// A session that begins with the outcome of a first scan. `output` is
    /// what the listing utility wrote, `None` where it could not be run.
    pub fn new(output: Option<&[u8]>) -> (app: App)
        ensures
            app@ == AppView::initial().refreshed(found_in(output)),
            app@.wf(),
    {
        let found = get_port_processes(output);
        let mut selection = Selection::new();
        selection.reconcile(found.len());
        let message = found_message(found.len());
        App { processes: found, selection, message: Some(message), should_quit: false }
    }

    /// Takes in the outcome of a scan. `output` is what the listing utility
    /// wrote, `None` where it could not be run.
    pub fn refresh_processes(&mut self, output: Option<&[u8]>)
        ensures
            final(self)@ == old(self)@.refreshed(found_in(output)),
            final(self)@.wf(),
    {
        let found = get_port_processes(output);
        let mut selection = self.selection;
        selection.reconcile(found.len());
        let message = found_message(found.len());
        *self = App {
            processes: found,
            selection,
            message: Some(message),
            should_quit: self.should_quit,
        };
    }

    /// Takes in the outcome of the scan that follows the end of a process.
    /// `output` is what the listing utility wrote, `None` where it could not
    /// be run. The message is left as it is.
    pub fn rescan_processes(&mut self, output: Option<&[u8]>)
        ensures
            final(self)@ == old(self)@.rescanned(found_in(output)),
            final(self)@.wf(),
    {
        let found = get_port_processes(output);
        let mut selection = self.selection;
        selection.reconcile(found.len());
        let message = match &self.message {
            Some(text) => Some(text.clone()),
            None => None,
        };
        *self = App { processes: found, selection, message, should_quit: self.should_quit };
    }

    /// Steps forward in the list, from the last row to the first.
    pub fn next(&mut self)
        ensures
            final(self)@ == old(self)@.stepped_next(),
            final(self)@.wf(),
    {
        proof {
            use_type_invariant(&*self);
        }
        let mut selection = self.selection;
        selection.next(self.processes.len());
        self.selection = selection;
    }

    /// Steps back in the list, from the first row to the last.
    pub fn previous(&mut self)
        ensures
            final(self)@ == old(self)@.stepped_previous(),
            final(self)@.wf(),
    {
        proof {
            use_type_invariant(&*self);
        }
        let mut selection = self.selection;
        selection.previous(self.processes.len());
        self.selection = selection;
    }

    /// The process that the kill key would end: that of the selected row.
    pub fn kill_selected(&self) -> (target: Option<KillTarget>)
        ensures
            target is Some <==> self@.kill_target() is Some,
            target is Some ==> target->0@ == self@.kill_target()->0,
            self@.processes.len() > 0 ==> target is Some,
    {
        proof {
            use_type_invariant(self);
        }
        match self.selection.selected() {
            Some(index) => {
                if index < self.processes.len() {
                    let process = &self.processes[index];
                    Some(KillTarget { pid: process.pid(), name: process.name().to_owned() })
                } else {
                    None
                }
            },
            None => None,
        }
    }

    /// Takes in how the attempt to end `target` went, and sets the message:
    /// a confirmation after a success, the cause after a failure. After a
    /// success the list is out of date, and the scan that keeps the
    /// confirmation is asked for; after a failure nothing is. The list and
    /// the selection stay as they are either way.
    pub fn kill_finished(&mut self, target: &KillTarget, outcome: &KillOutcome) -> (request:
        Request)
        ensures
            final(self)@ == old(self)@.after_kill(target@, outcome.failure()),
            final(self)@.processes == old(self)@.processes,
            final(self)@.selected == old(self)@.selected,
            request@ == if outcome.failure() is None {
                RequestView::Rescan
            } else {
                RequestView::Nothing
            },
            final(self)@.wf(),
    {
        proof {
            use_type_invariant(&*self);
        }
        match kill_result(outcome) {
            Ok(_) => {
                self.message = Some(killed_message(target.name.as_str(), target.pid));
                Request::Rescan
            },
            Err(error) => {
                self.message = Some(failed_message(target.pid, error.description.as_str()));
                Request::Nothing
            },
        }
    }

    /// Takes in a key press and says what outside work it asks for.
    pub fn handle_key(&mut self, key: Key) -> (request: Request)
        ensures
            (final(self)@, request@) == old(self)@.on_key(key),
            final(self)@.wf(),
    {
        proof {
            use_type_invariant(&*self);
        }
        if self.should_quit {
            return Request::Nothing;
        }
        match command_for(key) {
            Command::Quit => {
                self.should_quit = true;
                Request::Nothing
            },
            Command::Next => {
                self.next();
                Request::Nothing
            },
            Command::Previous => {
                self.previous();
                Request::Nothing
            },
            Command::Kill => match self.kill_selected() {
                Some(target) => Request::Kill(target),
                None => Request::Nothing,
            },
            Command::Refresh => Request::Scan,
            Command::Ignore => Request::Nothing,
        }
    }

    /// The bindings of the last scan, in ascending order of port.
    pub fn processes(&self) -> (list: &Vec<PortBinding>)
        ensures
            views(list@) == self@.processes,
    {
        &self.processes
    }

    /// The index of the selected row: a row of the list, and none only where
    /// the list is empty.
    pub fn selected(&self) -> (index: Option<usize>)
        ensures
            index is Some <==> self@.selected is Some,
            index is Some ==> index->0 == self@.selected->0,
            fits(self@.selected, self@.processes.len()),
    {
        proof {
            use_type_invariant(self);
        }
        self.selection.selected()
    }

    /// What the last scan or termination attempt came to.
    pub fn message(&self) -> (text: Option<&str>)
        ensures
            text is Some <==> self@.message is Some,
            text is Some ==> text->0@ == self@.message->0,
    {
        match &self.message {
            Some(text) => Some(text.as_str()),
            None => None,
        }
    }

    /// Whether the session is over.
    pub fn should_quit(&self) -> (over: bool)
        ensures
            over == self@.should_quit,
    {
        self.should_quit
    }
}

/// A scan leaves the session in a state it can be in, whatever it was before.
pub proof fn lemma_refreshed_wf(state: AppView, found: Seq<BindingView>)
    requires
        ascending_by_port(found),
        distinct_pids(found),
        ports_in_range(found),
    ensures
        state.refreshed(found).wf(),
        state.refreshed(found).should_quit == state.should_quit,
{
}

/// No key leads out of the states that a session can be in.
pub proof fn lemma_on_key_keeps_wf(state: AppView, key: Key)
    requires
        state.wf(),
    ensures
        state.on_key(key).0.wf(),
{
}

/// A key changes neither the list nor the message; the selection moves
/// only for the keys that step, and stays a row of the list.
pub proof fn lemma_on_key_keeps_list(state: AppView, key: Key)
    ensures
        state.on_key(key).0.processes == state.processes,
        state.on_key(key).0.message == state.message,
        command_of(key) != Command::Next && command_of(key) != Command::Previous
            ==> state.on_key(key).0.selected == state.selected,
{
}

/// The kill key asks for the end of the process of the selected row, and for
/// nothing where no row is selected.
pub proof fn lemma_kill_key(state: AppView, key: Key)
    requires
        state.wf(),
        !state.should_quit,
        command_of(key) == Command::Kill,
    ensures
        state.on_key(key).0 == state,
        match state.selected {
            Some(index) => state.on_key(key).1 == RequestView::Kill(
                KillTargetView {
                    pid: state.processes[index as int].pid,
                    name: state.processes[index as int].name,
                },
            ),
            None => state.on_key(key).1 == RequestView::Nothing,
        },
{
}

/// A session that is over stays over and takes no more keys.
pub proof fn lemma_quit_is_final(state: AppView, key: Key)
    requires
        state.should_quit,
    ensures
        state.on_key(key) == (state, RequestView::Nothing),
{
}

/// Nothing ends a session but the quit keys, and nothing brings one back.
pub proof fn lemma_should_quit(state: AppView, key: Key)
    ensures
        state.on_key(key).0.should_quit <==> state.should_quit || command_of(key)
            == Command::Quit,
{
}

/// A termination attempt changes the message and nothing else, however it
/// ends.
pub proof fn lemma_after_kill_keeps_list(
    state: AppView,
    target: KillTargetView,
    failure: Option<Seq<char>>,
)
    ensures
        state.after_kill(target, failure).processes == state.processes,
        state.after_kill(target, failure).selected == state.selected,
        state.after_kill(target, failure).should_quit == state.should_quit,
        state.after_kill(target, failure).message is Some,
        state.wf() ==> state.after_kill(target, failure).wf(),
{
}

/// The scan that follows the end of a process leaves the session in a state
/// it can be in, and touches neither the message nor whether the session is
/// over.
pub proof fn lemma_rescanned_wf(state: AppView, found: Seq<BindingView>)
    requires
        ascending_by_port(found),
        distinct_pids(found),
        ports_in_range(found),
    ensures
        state.rescanned(found).wf(),
        state.rescanned(found).message == state.message,
        state.rescanned(found).should_quit == state.should_quit,
{
}

/// After a process was ended and the list scanned again, the message is
/// still the confirmation that names the process, the list is what the scan
/// found, and the selection is the old one fitted to the new list: kept
/// where it is still a row, moved to the last row where it is not, and
/// dropped where nothing is left.
pub proof fn lemma_rescan_after_kill(
    state: AppView,
    target: KillTargetView,
    found: Seq<BindingView>,
)
    ensures
        state.after_kill(target, None).rescanned(found).message == Some(
            killed_text(target.name, target.pid),
        ),
        state.after_kill(target, None).rescanned(found).processes == found,
        state.after_kill(target, None).rescanned(found).selected == reconciled(
            state.selected,
            found.len(),
        ),
        state.after_kill(target, None).rescanned(found).should_quit == state.should_quit,
{
}

/// A scan asked for by key replaces whatever message there was by the count
/// of what it found.
pub proof fn lemma_refresh_counts(state: AppView, found: Seq<BindingView>)
    ensures
        state.refreshed(found).message == Some(found_text(found.len())),
        state.refreshed(found) == (AppView {
            message: Some(found_text(found.len())),
            ..state.rescanned(found)
        }),
{
}

} // verus!
